//! Publishing one message: waiting until the broker acknowledged it.
use vstd::prelude::*;

use crate::mqtt::Notification;

verus! {

/// What to do after a notification while publishing.
#[derive(Clone, Copy, Debug, PartialEq, Eq)]
pub enum PublishStep {
    /// The connection ends.
    Stop,
    /// The message was acknowledged: disconnect.
    Disconnect,
    /// Wait for the next notification.
    Wait,
    /// The connection failed.
    Failed,
}

/// Handles one notification: the step, and whether to show the packet
/// first (only in verbose mode).
pub fn publish_step(notification: &Notification, verbose: bool) -> (step: (bool, PublishStep))
    ensures
        step == match notification {
            Notification::OutgoingDisconnect => (verbose, PublishStep::Stop),
            Notification::PubAck => (verbose, PublishStep::Disconnect),
            Notification::ConnectionError => (false, PublishStep::Failed),
            _ => (verbose, PublishStep::Wait),
        },
{
    match notification {
        Notification::OutgoingDisconnect => (verbose, PublishStep::Stop),
        Notification::PubAck => (verbose, PublishStep::Disconnect),
        Notification::ConnectionError => (false, PublishStep::Failed),
        _ => (verbose, PublishStep::Wait),
    }
}

} // verus!
