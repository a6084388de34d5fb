//! Connecting to the broker: where to connect, with which client id, and
//! what the first notifications mean.
use vstd::prelude::*;

use crate::cli::{broker_matches, port_or, Broker, UrlView};
use crate::decimal::{hex, spec_hex};
use crate::mqtt::Notification;

verus! {

/// How to reach the broker.
#[derive(Clone, Copy, Debug, PartialEq, Eq)]
pub enum Transport {
    Tcp,
    Tls,
    Ws,
    Wss,
}

/// Where to connect for a broker: the transport, the host and the port.
/// WebSockets take the whole URL as host; their port is not used.
pub open spec fn spec_target(broker: Broker) -> (Transport, Seq<char>, u16) {
    match broker {
        Broker::Tcp { host, port } => (Transport::Tcp, host@, port),
        Broker::Ssl { host, port } => (Transport::Tls, host@, port),
        Broker::WebSocket(url) => (Transport::Ws, url.text@, 666),
        Broker::WebSocketSsl(url) => (Transport::Wss, url.text@, 666),
    }
}

/// Where to connect for a broker.
pub fn connection_target(broker: &Broker) -> (target: (Transport, String, u16))
    ensures
        (target.0, target.1@, target.2) == spec_target(*broker),
{
    match broker {
        Broker::Tcp { host, port } => (Transport::Tcp, host.clone(), *port),
        Broker::Ssl { host, port } => (Transport::Tls, host.clone(), *port),
        Broker::WebSocket(url) => (Transport::Ws, url.text.clone(), 666),
        Broker::WebSocketSsl(url) => (Transport::Wss, url.text.clone(), 666),
    }
}

/// The transport follows the scheme of the broker's URL: `mqtt` is reached
/// over plain TCP, `mqtts` over TLS, `ws` over a WebSocket and `wss` over a
/// WebSocket with TLS, so TLS is used exactly for `mqtts` and `wss`. A TCP
/// broker is reached at the URL's host and its port (1883 for `mqtt`, 8883
/// for `mqtts` when the URL gives none).
pub proof fn lemma_transport_follows_scheme(broker: Broker, url: UrlView)
    requires
        broker_matches(broker, url),
    ensures
        url.scheme == "mqtt"@ ==> spec_target(broker).0 == Transport::Tcp,
        url.scheme == "mqtts"@ ==> spec_target(broker).0 == Transport::Tls,
        url.scheme == "ws"@ ==> spec_target(broker).0 == Transport::Ws,
        url.scheme == "wss"@ ==> spec_target(broker).0 == Transport::Wss,
        (spec_target(broker).0 == Transport::Tls || spec_target(broker).0 == Transport::Wss) <==> (url.scheme
            == "mqtts"@ || url.scheme == "wss"@),
        url.scheme == "mqtt"@ ==> Some(spec_target(broker).1) == url.host && spec_target(broker).2 == port_or(
            url,
            1883,
        ),
        url.scheme == "mqtts"@ ==> Some(spec_target(broker).1) == url.host && spec_target(broker).2 == port_or(
            url,
            8883,
        ),
{
    reveal_strlit("mqtt");
    reveal_strlit("mqtts");
    reveal_strlit("ws");
    reveal_strlit("wss");
    assert("mqtt"@.len() == 4 && "mqtts"@.len() == 5 && "ws"@.len() == 2 && "wss"@.len() == 3);
    assert("mqtt"@ != "mqtts"@);
    assert("ws"@ != "wss"@);
    assert("mqtt"@ != "ws"@);
    assert("mqtt"@ != "wss"@);
    assert("mqtts"@ != "ws"@);
    assert("mqtts"@ != "wss"@);
}

/// `rand::random::<u32>()`: a random number. Nothing is stated of it.
#[verifier::external_body]
fn random_u32() -> u32 {
    rand::random::<u32>()
}

/// The client id when none is given: `mqttui-` and a number in hexadecimal.
pub open spec fn spec_generated_client_id(number: u32) -> Seq<char> {
    "mqttui-"@ + spec_hex(number as nat)
}

/// The client id for a given random number.
pub fn generated_client_id(number: u32) -> (id: String)
    ensures
        id@ == spec_generated_client_id(number),
{
    let mut id = String::from_str("mqttui-");
    id.append(hex(number).as_str());
    id
}

/// The client id to connect with: the given one, or `mqttui-` and a random
/// number in hexadecimal.
pub fn client_id(given: Option<String>) -> (id: String)
    ensures
        match given {
            Some(g) => id == g,
            None => exists|number: u32| id@ == #[trigger] spec_generated_client_id(number),
        },
{
    match given {
        Some(id) => id,
        None => generated_client_id(random_u32()),
    }
}

/// What a notification means while waiting for the broker to accept the
/// connection.
#[derive(Clone, Copy, Debug, PartialEq, Eq)]
pub enum ConnectStep {
    /// The broker accepted the connection.
    Connected,
    /// The broker sent something before accepting: worth a warning.
    Suspicious,
    /// Wait for the next notification.
    Wait,
    /// The connection failed.
    Failed,
}

/// What a notification means while connecting.
pub fn connect_step(notification: &Notification) -> (step: ConnectStep)
    ensures
        step == match notification {
            Notification::ConnAck => ConnectStep::Connected,
            Notification::Publish(_) | Notification::PubAck | Notification::OtherIncoming => ConnectStep::Suspicious,
            Notification::ConnectionError => ConnectStep::Failed,
            _ => ConnectStep::Wait,
        },
{
    match notification {
        Notification::ConnAck => ConnectStep::Connected,
        Notification::Publish(_) | Notification::PubAck | Notification::OtherIncoming => ConnectStep::Suspicious,
        Notification::ConnectionError => ConnectStep::Failed,
        _ => ConnectStep::Wait,
    }
}

/// The explanation when the connection fails.
pub fn connect_failure_message(broker: &Broker) -> (text: String)
    ensures
        text@ == "Failed to connect to the MQTT broker "@ + broker.spec_text()
            + ".\nAre your MQTT connection options correct? For more information on them see --help"@,
{
    let mut text = String::from_str("Failed to connect to the MQTT broker ");
    text.append(broker.to_string().as_str());
    text.append(".\nAre your MQTT connection options correct? For more information on them see --help");
    text
}

/// The explanation when the connection ends before the broker accepted it.
pub fn connection_ended_message(broker: &Broker) -> (text: String)
    ensures
        text@ == "The MQTT connection to "@ + broker.spec_text()
            + " ended unexpectedly before it was acknowledged."@,
{
    let mut text = String::from_str("The MQTT connection to ");
    text.append(broker.to_string().as_str());
    text.append(" ended unexpectedly before it was acknowledged.");
    text
}

} // verus!
