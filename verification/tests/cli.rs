use mqttui::cli::{Broker, BrokerError};
use mqttui::interactive::footer::Footer;
use mqttui::interactive::info_header::{header_lines, header_title, InfoHeader};
use mqttui::mqtt::connect::{connection_target, Transport};

fn broker(url: &str) -> Broker {
    Broker::from_str(url).unwrap()
}

#[test]
fn tcp_brokers_take_default_ports() {
    match broker("mqtt://localhost") {
        Broker::Tcp { host, port } => {
            assert_eq!(host, "localhost");
            assert_eq!(port, 1883);
        }
        other => panic!("not tcp: {other:?}"),
    }
    match broker("mqtts://localhost") {
        Broker::Ssl { host, port } => {
            assert_eq!(host, "localhost");
            assert_eq!(port, 8883);
        }
        other => panic!("not ssl: {other:?}"),
    }
    match broker("mqtt://example.com:1234") {
        Broker::Tcp { port, .. } => assert_eq!(port, 1234),
        other => panic!("not tcp: {other:?}"),
    }
}

#[test]
fn broker_text_hides_default_ports() {
    assert_eq!(broker("mqtt://localhost").to_string(), "mqtt://localhost");
    assert_eq!(broker("mqtt://localhost:1883").to_string(), "mqtt://localhost");
    assert_eq!(broker("mqtt://localhost:1884").to_string(), "mqtt://localhost:1884");
    assert_eq!(broker("mqtts://localhost:8883/").to_string(), "mqtts://localhost");
    assert_eq!(broker("mqtts://localhost:1883").to_string(), "mqtts://localhost:1883");
    assert_eq!(broker("ws://localhost:9001/path").to_string(), "ws://localhost:9001/path");
    assert_eq!(broker("wss://localhost/path").to_string(), "wss://localhost/path");
}

#[test]
fn broker_debug_text() {
    assert_eq!(broker("mqtt://localhost").debug_text(), "Tcp { host: \"localhost\", port: 1883 }");
    assert_eq!(broker("mqtts://localhost:1").debug_text(), "Ssl { host: \"localhost\", port: 1 }");
    assert!(broker("ws://localhost/path").debug_text().starts_with("WebSocket(Url {"));
}

fn error(url: &str) -> BrokerError {
    Broker::from_str(url).unwrap_err()
}

#[test]
fn broker_errors() {
    assert!(matches!(error("no url"), BrokerError::InvalidUrl(_)));
    assert!(matches!(error("unix:/run/foo.socket"), BrokerError::MissingHost));
    assert!(matches!(error("mqtt://localhost/path"), BrokerError::PathOnTcp));
    assert!(matches!(error("mqtt://localhost?query"), BrokerError::QueryGiven));
    assert!(matches!(error("mqtt://user@localhost"), BrokerError::UsernameGiven));
    assert!(matches!(error("mqtt://:secret@localhost"), BrokerError::PasswordGiven));
    assert!(matches!(error("mqtt://localhost:0"), BrokerError::PortZero));
    assert!(matches!(error("http://localhost"), BrokerError::UnsupportedScheme));
    assert!(Broker::from_str("ws://user:secret@localhost/path?query").is_ok());
    assert_eq!(error("mqtt://localhost:0").message(), Some("Port can not be 0"));
    assert_eq!(error("no url").message(), None);
}

#[test]
fn connection_targets() {
    let (transport, host, port) = connection_target(&broker("mqtts://example.com:1234"));
    assert_eq!(transport, Transport::Tls);
    assert_eq!(host, "example.com");
    assert_eq!(port, 1234);
    let (transport, host, port) = connection_target(&broker("ws://localhost:9001/path"));
    assert_eq!(transport, Transport::Ws);
    assert_eq!(host, "ws://localhost:9001/path");
    assert_eq!(port, 666);
}

#[test]
fn footer_text_fits_the_room() {
    let footer = Footer::new(&broker("mqtt://localhost"));
    let full = "mqttui 0.22.1 @ mqtt://localhost";
    assert_eq!(footer.right_text(100, 10).as_deref(), Some(full));
    assert_eq!(footer.right_text(100, 100 - full.len()).as_deref(), Some("mqtt://localhost"));
    assert_eq!(footer.right_text(100, 100 - "mqtt://localhost".len()).as_deref(), Some("mqttui 0.22.1"));
    assert_eq!(footer.right_text(100, 90), None);
}

#[test]
fn info_header_title() {
    let header = InfoHeader::new(&broker("mqtt://localhost:1"));
    assert_eq!(header.title, "MQTT TUI 0.22.1 @ Tcp { host: \"localhost\", port: 1 }");
}

#[test]
fn header_lines_of_both_views() {
    let header = InfoHeader::new(&broker("mqtt://localhost"));
    assert_eq!(header.lines(None, None), [header.title.clone()]);
    assert_eq!(
        header.lines(Some("refused"), Some("a/b")),
        [header.title.clone(), "MQTT Connection Error: refused".to_owned(), "a/b".to_owned()]
    );
    assert_eq!(
        header_lines(&broker("mqtts://example.com:1234"), "#", None, Some("a/b")),
        ["MQTT Broker: mqtts://example.com:1234", "Subscribed Topic: #", "Selected Topic: a/b"]
    );
    assert_eq!(header_title(), "MQTT TUI 0.22.1");
}
