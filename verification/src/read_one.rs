//! Reading one message: the payload of the first message that arrives.
use vstd::prelude::*;

use crate::mqtt::Notification;

verus! {

/// Which messages count.
#[derive(Clone, Copy, Debug, PartialEq, Eq)]
pub enum OnlyRetained {
    /// Only a retained message; a live one means there is none.
    Retained,
    /// Only live messages; retained ones are passed over.
    Live,
}

/// What to do after a notification.
#[derive(Debug, PartialEq, Eq)]
pub enum ReadOneAction {
    /// The connection ends.
    Stop,
    /// Nothing to do.
    Skip,
    /// No retained message exists: leave with exit code 1.
    ExitFailure,
    /// Show the topic (on stderr) and the payload, then disconnect.
    Show { topic: String, payload: Vec<u8> },
    /// Report the connection error and wait a moment.
    ConnectionError,
}

/// Handles one notification. `done` tells whether a message was shown
/// already; later messages are passed over.
pub fn read_one_step(notification: Notification, only: Option<OnlyRetained>, done: &mut bool) -> (action: ReadOneAction)
    ensures
        match notification {
            Notification::OutgoingDisconnect => action == ReadOneAction::Stop,
            Notification::Publish(p) => if p.dup || *old(done) {
                action == ReadOneAction::Skip
            } else if only == Some(OnlyRetained::Retained) && !p.retain {
                action == ReadOneAction::ExitFailure
            } else if only == Some(OnlyRetained::Live) && p.retain {
                action == ReadOneAction::Skip
            } else {
                action == ReadOneAction::Show { topic: p.topic, payload: p.payload }
            },
            Notification::ConnectionError => action == ReadOneAction::ConnectionError,
            _ => action == ReadOneAction::Skip,
        },
        *final(done) == (*old(done) || action is Show),
{
    match notification {
        Notification::OutgoingDisconnect => ReadOneAction::Stop,
        Notification::Publish(publish) => {
            if publish.dup || *done {
                return ReadOneAction::Skip;
            }
            match (only, publish.retain) {
                (Some(OnlyRetained::Retained), false) => return ReadOneAction::ExitFailure,
                (Some(OnlyRetained::Live), true) => return ReadOneAction::Skip,
                _ => {},
            }
            *done = true;
            ReadOneAction::Show { topic: publish.topic, payload: publish.payload }
        },
        Notification::ConnectionError => ReadOneAction::ConnectionError,
        _ => ReadOneAction::Skip,
    }
}

} // verus!
