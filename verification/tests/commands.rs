use mqttui::publish::{publish_step, PublishStep};
use mqttui::clean_retained::{clean_step, clean_summary, CleanAction};
use mqttui::format::qos;
use mqttui::log::{log_step, LogAction, LogEntry};
use mqttui::mqtt::connect::{
    client_id, connect_failure_message, connect_step, connection_ended_message, generated_client_id, ConnectStep,
};
use mqttui::mqtt::{Notification, Publish, QoS, Time};
use mqttui::payload::Payload;
use mqttui::read_one::{read_one_step, OnlyRetained, ReadOneAction};
use mqttui::cli::Broker;

fn publish(topic: &str, payload: &[u8], retain: bool, dup: bool) -> Notification {
    Notification::Publish(Publish { topic: topic.to_owned(), qos: QoS::AtLeastOnce, retain, dup, payload: payload.to_vec() })
}

#[test]
fn formats_qos() {
    assert_eq!("AtLeastOnce", qos(QoS::AtLeastOnce));
    assert_eq!("AtMostOnce", qos(QoS::AtMostOnce));
    assert_eq!("ExactlyOnce", qos(QoS::ExactlyOnce));
}

#[test]
fn cleaning_retained_messages() {
    let mut amount = 0;
    let action = clean_step(publish("a/b", b"42", true, false), false, &mut amount);
    let expected_line = format!("QoS:{:11} {:50} Payload(  2): 42", "AtLeastOnce", "a/b");
    assert_eq!(action, CleanAction::Clean { line: expected_line.clone(), topic: Some("a/b".to_owned()) });
    assert_eq!(amount, 1);
    let action = clean_step(publish("a/b", b"42", true, false), true, &mut amount);
    assert_eq!(action, CleanAction::Clean { line: expected_line, topic: None });
    assert_eq!(amount, 2);
    assert_eq!(clean_step(publish("a/b", b"", true, false), false, &mut amount), CleanAction::Skip);
    assert_eq!(clean_step(publish("a/b", b"live", false, false), false, &mut amount), CleanAction::Disconnect);
    assert_eq!(clean_step(Notification::OutgoingPingReq, false, &mut amount), CleanAction::Disconnect);
    assert_eq!(clean_step(Notification::OutgoingDisconnect, false, &mut amount), CleanAction::Stop);
    assert_eq!(clean_step(Notification::ConnectionError, false, &mut amount), CleanAction::ConnectionError);
    assert_eq!(clean_step(Notification::ConnAck, false, &mut amount), CleanAction::Skip);
    assert_eq!(amount, 2);
    assert_eq!(clean_summary(true, 2), "Dry run: would have cleaned 2 topics");
    assert_eq!(clean_summary(false, 12), "Cleaned 12 topics");
}

#[test]
fn reading_one_message() {
    let mut done = false;
    assert_eq!(read_one_step(publish("a", b"1", false, true), None, &mut done), ReadOneAction::Skip);
    assert_eq!(
        read_one_step(publish("a", b"1", true, false), Some(OnlyRetained::Live), &mut done),
        ReadOneAction::Skip
    );
    assert_eq!(
        read_one_step(publish("a", b"1", false, false), Some(OnlyRetained::Retained), &mut done),
        ReadOneAction::ExitFailure
    );
    assert!(!done);
    assert_eq!(
        read_one_step(publish("a", b"1", true, false), Some(OnlyRetained::Retained), &mut done),
        ReadOneAction::Show { topic: "a".to_owned(), payload: b"1".to_vec() }
    );
    assert!(done);
    assert_eq!(read_one_step(publish("b", b"2", false, false), None, &mut done), ReadOneAction::Skip);
    assert_eq!(read_one_step(Notification::OutgoingDisconnect, None, &mut done), ReadOneAction::Stop);
    assert_eq!(read_one_step(Notification::ConnectionError, None, &mut done), ReadOneAction::ConnectionError);
}

#[test]
fn logging_messages() {
    assert_eq!(log_step(Notification::OutgoingDisconnect, true), (true, LogAction::Stop));
    assert_eq!(log_step(Notification::OtherIncoming, false), (false, LogAction::Skip));
    assert_eq!(log_step(publish("a", b"1", false, true), true), (false, LogAction::Skip));
    match log_step(publish("a/b", b"[1, 2]", true, false), true) {
        (false, LogAction::Entry(entry)) => {
            assert_eq!(entry.time, Time::Retained);
            assert_eq!(entry.size, 6);
            assert_eq!(entry.payload, Payload::unlimited(b"[1, 2]".to_vec()));
            let expected = format!("{:12} QoS:{:11} {:50} Payload(  6): [1,2]", "RETAINED", "AtLeastOnce", "a/b");
            assert_eq!(entry.line(), expected);
        }
        other => panic!("no entry: {other:?}"),
    }
}

#[test]
fn log_line_of_a_live_message() {
    let entry = LogEntry {
        time: Time::new_now(false),
        qos: QoS::ExactlyOnce,
        topic: "t".to_owned(),
        size: 1234,
        payload: Payload::String("x".into()),
    };
    let line = entry.line();
    assert!(line.ends_with(&format!(" QoS:ExactlyOnce {:50} Payload(1234): x", "t")));
    assert_eq!(line.find(" QoS:"), Some(12));
}

#[test]
fn client_ids() {
    assert_eq!(generated_client_id(0xbeef), "mqttui-beef");
    assert_eq!(generated_client_id(0), "mqttui-0");
    assert_eq!(client_id(Some("me".to_owned())), "me");
    assert!(client_id(None).starts_with("mqttui-"));
}

#[test]
fn connecting() {
    assert_eq!(connect_step(&Notification::ConnAck), ConnectStep::Connected);
    assert_eq!(connect_step(&Notification::OtherIncoming), ConnectStep::Suspicious);
    assert_eq!(connect_step(&Notification::OtherOutgoing), ConnectStep::Wait);
    assert_eq!(connect_step(&Notification::ConnectionError), ConnectStep::Failed);
    let broker = Broker::from_str("mqtt://localhost:1884").unwrap();
    assert_eq!(
        connect_failure_message(&broker),
        "Failed to connect to the MQTT broker mqtt://localhost:1884.\nAre your MQTT connection options correct? For more information on them see --help"
    );
    assert_eq!(
        connection_ended_message(&broker),
        "The MQTT connection to mqtt://localhost:1884 ended unexpectedly before it was acknowledged."
    );
}

#[test]
fn publishing_waits_for_the_acknowledgement() {
    assert_eq!(publish_step(&Notification::PubAck, true), (true, PublishStep::Disconnect));
    assert_eq!(publish_step(&Notification::OutgoingDisconnect, false), (false, PublishStep::Stop));
    assert_eq!(publish_step(&Notification::ConnAck, true), (true, PublishStep::Wait));
    assert_eq!(publish_step(&Notification::ConnectionError, true), (false, PublishStep::Failed));
}
