//! Cleaning retained messages: every retained message that arrives is
//! overwritten by an empty retained message, until the first live message or
//! until nothing arrives any more.
use vstd::prelude::*;

use crate::decimal::{decimal, pad_left, pad_left_str, pad_right, pad_right_str, spec_decimal};
use crate::format::{qos, spec_qos};
use crate::mqtt::{Notification, QoS};
use crate::payload::{spec_payload_text, spec_unlimited, Payload};

verus! {

/// The line reported for a retained message.
pub open spec fn spec_clean_line(level: QoS, topic: Seq<char>, size: nat, payload: Seq<char>) -> Seq<char> {
    "QoS:"@ + pad_right(spec_qos(level), 11) + " "@ + pad_right(topic, 50) + " Payload("@ + pad_left(
        spec_decimal(size),
        3,
    ) + "): "@ + payload
}

/// What to do after a notification.
#[derive(Debug, PartialEq, Eq)]
pub enum CleanAction {
    /// The connection ends.
    Stop,
    /// Disconnect from the broker: nothing retained is left.
    Disconnect,
    /// Nothing to do.
    Skip,
    /// Report the line; when `topic` is given, publish an empty retained
    /// message to it.
    Clean { line: String, topic: Option<String> },
    /// Report the connection error and wait a moment.
    ConnectionError,
}

/// Handles one notification. `amount` counts the retained messages found.
pub fn clean_step(notification: Notification, dry_run: bool, amount: &mut usize) -> (action: CleanAction)
    requires
        *old(amount) < usize::MAX,
    ensures
        match notification {
            Notification::OutgoingDisconnect => action == CleanAction::Stop && *final(amount) == *old(amount),
            Notification::OutgoingPingReq => action == CleanAction::Disconnect && *final(amount) == *old(amount),
            Notification::Publish(p) => if p.payload@.len() == 0 {
                action == CleanAction::Skip && *final(amount) == *old(amount)
            } else if !p.retain {
                action == CleanAction::Disconnect && *final(amount) == *old(amount)
            } else {
                &&& *final(amount) == *old(amount) + 1
                &&& action matches CleanAction::Clean { line, topic }
                &&& line@ == spec_clean_line(
                    p.qos,
                    p.topic@,
                    p.payload@.len(),
                    spec_payload_text(spec_unlimited(p.payload@)),
                )
                &&& if dry_run {
                    topic is None
                } else {
                    topic == Some(p.topic)
                }
            },
            Notification::ConnectionError => action == CleanAction::ConnectionError && *final(amount)
                == *old(amount),
            _ => action == CleanAction::Skip && *final(amount) == *old(amount),
        },
{
    match notification {
        Notification::OutgoingDisconnect => CleanAction::Stop,
        Notification::OutgoingPingReq => CleanAction::Disconnect,
        Notification::Publish(publish) => {
            if publish.payload.len() == 0 {
                return CleanAction::Skip;
            }
            if !publish.retain {
                return CleanAction::Disconnect;
            }
            let size = publish.payload.len();
            let payload = Payload::unlimited(publish.payload);
            let mut line = String::from_str("QoS:");
            line.append(pad_right_str(qos(publish.qos), 11).as_str());
            line.append(" ");
            line.append(pad_right_str(publish.topic.as_str(), 50).as_str());
            line.append(" Payload(");
            line.append(pad_left_str(decimal(size).as_str(), 3).as_str());
            line.append("): ");
            line.append(payload.to_string().as_str());
            *amount = *amount + 1;
            let topic = if dry_run {
                None
            } else {
                Some(publish.topic)
            };
            CleanAction::Clean { line, topic }
        },
        Notification::ConnectionError => CleanAction::ConnectionError,
        _ => CleanAction::Skip,
    }
}

/// The closing line: how many topics were cleaned, or would have been.
pub fn clean_summary(dry_run: bool, amount: usize) -> (text: String)
    ensures
        text@ == if dry_run {
            "Dry run: would have cleaned "@ + spec_decimal(amount as nat) + " topics"@
        } else {
            "Cleaned "@ + spec_decimal(amount as nat) + " topics"@
        },
{
    let mut text = if dry_run {
        String::from_str("Dry run: would have cleaned ")
    } else {
        String::from_str("Cleaned ")
    };
    text.append(decimal(amount).as_str());
    text.append(" topics");
    text
}

} // verus!
