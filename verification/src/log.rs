//! Logging the messages of subscribed topics, one line each.
use vstd::prelude::*;

use crate::decimal::{decimal, pad_left, pad_left_str, pad_right, pad_right_str, spec_decimal};
use crate::format::{qos, spec_qos};
use crate::mqtt::{spec_time_text, Notification, QoS, Time};
use crate::payload::{spec_payload_text, spec_unlimited, Payload};

verus! {

/// The line logged for a message.
pub open spec fn spec_log_line(
    time: Seq<char>,
    level: QoS,
    topic: Seq<char>,
    size: nat,
    payload: Seq<char>,
) -> Seq<char> {
    pad_right(time, 12) + " QoS:"@ + pad_right(spec_qos(level), 11) + " "@ + pad_right(topic, 50)
        + " Payload("@ + pad_left(spec_decimal(size), 3) + "): "@ + payload
}

/// A message to log.
#[derive(Debug, PartialEq)]
pub struct LogEntry {
    pub time: Time,
    pub qos: QoS,
    pub topic: String,
    pub size: usize,
    pub payload: Payload,
}

impl LogEntry {
    /// The line logged for the message: its time (`RETAINED`, or the time
    /// of day of a live message), quality of service, topic, size and payload.
    pub fn line(&self) -> (text: String)
        ensures
            text@ == spec_log_line(
                spec_time_text(self.time),
                self.qos,
                self.topic@,
                self.size as nat,
                spec_payload_text(self.payload@),
            ),
    {
        let time = self.time.to_string();
        let mut text = pad_right_str(time.as_str(), 12);
        text.append(" QoS:");
        text.append(pad_right_str(qos(self.qos), 11).as_str());
        text.append(" ");
        text.append(pad_right_str(self.topic.as_str(), 50).as_str());
        text.append(" Payload(");
        text.append(pad_left_str(decimal(self.size).as_str(), 3).as_str());
        text.append("): ");
        text.append(self.payload.to_string().as_str());
        proof {
            assert(text@ == spec_log_line(
                time@,
                self.qos,
                self.topic@,
                self.size as nat,
                spec_payload_text(self.payload@),
            ));
        }
        text
    }
}

/// What to do after a notification.
#[derive(Debug, PartialEq)]
pub enum LogAction {
    /// The connection ends.
    Stop,
    /// Nothing (more) to do.
    Skip,
    /// Log the message.
    Entry(LogEntry),
    /// Report the connection error and wait a moment.
    ConnectionError,
}

/// Handles one notification: the action, and whether to show the packet
/// itself first (only in verbose mode, for packets other than messages).
pub fn log_step(notification: Notification, verbose: bool) -> (step: (bool, LogAction))
    ensures
        match notification {
            Notification::OutgoingDisconnect => step == (verbose, LogAction::Stop),
            Notification::OutgoingPingReq | Notification::OtherOutgoing | Notification::ConnAck
            | Notification::OtherIncoming | Notification::PubAck => step == (verbose, LogAction::Skip),
            Notification::Publish(p) => if p.dup {
                step == (false, LogAction::Skip)
            } else {
                &&& !step.0
                &&& step.1 matches LogAction::Entry(e)
                &&& (p.retain <==> e.time is Retained)
                &&& e.qos == p.qos
                &&& e.topic == p.topic
                &&& e.size == p.payload@.len()
                &&& e.payload@ == spec_unlimited(p.payload@)
            },
            Notification::ConnectionError => step == (false, LogAction::ConnectionError),
        },
{
    match notification {
        Notification::OutgoingDisconnect => (verbose, LogAction::Stop),
        Notification::Publish(publish) => {
            if publish.dup {
                return (false, LogAction::Skip);
            }
            let time = Time::new_now(publish.retain);
            let size = publish.payload.len();
            let payload = Payload::unlimited(publish.payload);
            (false, LogAction::Entry(LogEntry { time, qos: publish.qos, topic: publish.topic, size, payload }))
        },
        Notification::ConnectionError => (false, LogAction::ConnectionError),
        _ => (verbose, LogAction::Skip),
    }
}

} // verus!
