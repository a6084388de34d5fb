//! What the connection thread of the interactive view does with each
//! notification of the MQTT event loop.
use vstd::prelude::*;

use crate::interactive::mqtt_history::MqttHistory;
use crate::mqtt::{HistoryEntry, Notification, QoS};
use crate::payload::{spec_truncated, Payload};

verus! {

/// What the thread does after a notification.
#[derive(Clone, Copy, Debug, PartialEq, Eq)]
pub enum ThreadStep {
    /// The connection is (re)established: subscribe to the topics again.
    Subscribe,
    /// Go on with the next notification.
    Continue,
    /// The connection ends.
    Stop,
    /// Keep the connection error and wait a moment.
    Failed,
}

/// The history entry kept for a message.
pub open spec fn is_entry_for(
    entry: HistoryEntry,
    qos: QoS,
    retain: bool,
    payload: Seq<u8>,
    payload_size_limit: usize,
) -> bool {
    &&& entry.qos == qos
    &&& (retain <==> entry.time is Retained)
    &&& entry.payload_size == payload.len()
    &&& entry.payload@ == spec_truncated(payload, payload_size_limit as nat)
}

/// Handles one notification: a message that is not a duplicate delivery is
/// added to the history, cut to `payload_size_limit` bytes; a connection
/// error or any other notification leaves the history as it is. Every
/// notification but an error clears a connection error kept before.
pub fn thread_step(history: &mut MqttHistory, notification: Notification, payload_size_limit: usize) -> (step:
    ThreadStep)
    requires
        old(history).well_formed(),
    ensures
        final(history).well_formed(),
        match notification {
            Notification::ConnAck => step == ThreadStep::Subscribe,
            Notification::OutgoingDisconnect => step == ThreadStep::Stop,
            Notification::ConnectionError => step == ThreadStep::Failed,
            _ => step == ThreadStep::Continue,
        },
        match notification {
            Notification::Publish(p) if !p.dup => exists|entry: HistoryEntry|
                #[trigger] is_entry_for(entry, p.qos, p.retain, p.payload@, payload_size_limit)
                    && forall|t: Seq<char>| #[trigger]
                        final(history).spec_history(t) == if t == p.topic@ {
                            old(history).spec_history(t).push(entry)
                        } else {
                            old(history).spec_history(t)
                        },
            _ => forall|t: Seq<char>| #[trigger]
                final(history).spec_history(t) == old(history).spec_history(t),
        },
{
    match notification {
        Notification::ConnAck => ThreadStep::Subscribe,
        Notification::OutgoingDisconnect => ThreadStep::Stop,
        Notification::ConnectionError => ThreadStep::Failed,
        Notification::Publish(publish) => {
            if publish.dup {
                return ThreadStep::Continue;
            }
            let entry = HistoryEntry {
                qos: publish.qos,
                time: crate::mqtt::Time::new_now(publish.retain),
                payload_size: publish.payload.len(),
                payload: Payload::truncated(publish.payload, payload_size_limit),
            };
            let ghost kept = entry;
            history.add(publish.topic, entry);
            proof {
                assert(is_entry_for(kept, publish.qos, publish.retain, publish.payload@, payload_size_limit));
            }
            ThreadStep::Continue
        },
        _ => ThreadStep::Continue,
    }
}

} // verus!
