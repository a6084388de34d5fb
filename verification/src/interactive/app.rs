//! What the interactive view can switch to, from the history of the
//! selected topic, and how the focus of the first interactive view moves.
use vstd::prelude::*;

use crate::interactive::details::Details;
use crate::interactive::keys::PayloadKind;
use crate::interactive::mqtt_history::MqttHistory;
use crate::payload::{Payload, PayloadView};

verus! {

/// The kind of a payload.
pub open spec fn kind_of(payload: PayloadView) -> PayloadKind {
    match payload {
        PayloadView::Binary(_) => PayloadKind::Binary,
        PayloadView::Json(_) => PayloadKind::Json,
        PayloadView::MessagePack(_) => PayloadKind::MessagePack,
        PayloadView::String(_) => PayloadKind::String,
    }
}

/// The kind of the payload of the entry shown for the selected topic;
/// `Missing` when no topic is selected or it has no messages.
pub open spec fn spec_selected_payload_kind(
    history: MqttHistory,
    selected: Option<String>,
    details: Details,
) -> PayloadKind {
    match selected {
        None => PayloadKind::Missing,
        Some(topic) => {
            let entries = history.spec_history(topic@);
            if entries.len() == 0 {
                PayloadKind::Missing
            } else {
                kind_of(entries[details.shown_index(entries.len() as usize) as int].payload@)
            }
        },
    }
}

/// Whether the selected topic has at least two messages: only then the
/// history table is worth the focus.
pub fn can_switch_to_history_table(history: &MqttHistory, selected: &Option<String>) -> (can: bool)
    requires
        history.well_formed(),
    ensures
        can == match selected {
            Some(topic) => history.spec_history(topic@).len() >= 2,
            None => false,
        },
{
    match selected {
        None => false,
        Some(topic) => match history.get(topic.as_str()) {
            Some(entries) => entries.len() >= 2,
            None => false,
        },
    }
}

/// The kind of the payload of the entry shown for the selected topic.
pub fn selected_payload_kind(history: &MqttHistory, selected: &Option<String>, details: &Details) -> (kind:
    PayloadKind)
    requires
        history.well_formed(),
    ensures
        kind == spec_selected_payload_kind(*history, *selected, *details),
{
    match selected {
        None => PayloadKind::Missing,
        Some(topic) => match history.get(topic.as_str()) {
            None => PayloadKind::Missing,
            Some(entries) => {
                let index = details.selected_history_index(entries.len());
                match &entries[index].payload {
                    Payload::Binary(_) => PayloadKind::Binary,
                    Payload::Json(_) => PayloadKind::Json,
                    Payload::MessagePack(_) => PayloadKind::MessagePack,
                    Payload::String(_) => PayloadKind::String,
                }
            },
        },
    }
}

/// Whether the payload shown for the selected topic has a view of its own:
/// binary data, JSON or MessagePack.
pub fn can_switch_to_payload(history: &MqttHistory, selected: &Option<String>, details: &Details) -> (can:
    bool)
    requires
        history.well_formed(),
    ensures
        can == match spec_selected_payload_kind(*history, *selected, *details) {
            PayloadKind::Binary | PayloadKind::Json | PayloadKind::MessagePack => true,
            _ => false,
        },
{
    match selected_payload_kind(history, selected, details) {
        PayloadKind::Binary | PayloadKind::Json | PayloadKind::MessagePack => true,
        _ => false,
    }
}

/// The payload of the entry shown for the selected topic.
pub fn selected_payload<'a>(history: &'a MqttHistory, selected: &Option<String>, details: &Details) -> (payload:
    Option<&'a Payload>)
    requires
        history.well_formed(),
    ensures
        match selected {
            None => payload is None,
            Some(topic) => {
                let entries = history.spec_history(topic@);
                if entries.len() == 0 {
                    payload is None
                } else {
                    payload == Some(&entries[details.shown_index(entries.len() as usize) as int].payload)
                }
            },
        },
{
    match selected {
        None => None,
        Some(topic) => match history.get(topic.as_str()) {
            None => None,
            Some(entries) => {
                let index = details.selected_history_index(entries.len());
                Some(&entries[index].payload)
            },
        },
    }
}

/// Removes the history entry of `topic` that the history table shows as
/// selected, unless it is the newest one. Every other entry and topic stays
/// as it is.
pub fn remove_selected_entry(history: &mut MqttHistory, topic: &str, details: &Details) -> (removed: bool)
    requires
        old(history).well_formed(),
    ensures
        final(history).well_formed(),
        ({
            let entries = old(history).spec_history(topic@);
            let index = details.shown_index(entries.len() as usize);
            &&& removed <==> index + 1 < entries.len()
            &&& forall|t: Seq<char>|
                #[trigger] final(history).spec_history(t) == if t == topic@ && removed {
                    entries.remove(index as int)
                } else {
                    old(history).spec_history(t)
                }
        }),
{
    let length = match history.get(topic) {
        Some(entries) => entries.len(),
        None => 0,
    };
    let index = details.selected_history_index(length);
    let removed = history.uncache_topic_entry(topic, index);
    removed.is_some()
}

/// The element in focus in the first interactive view: the topics, the
/// JSON payload of the selected topic, or the popup that asks before
/// cleaning the retained topics below a topic.
#[derive(Clone, Debug, PartialEq, Eq)]
pub enum ElementInFocus {
    TopicOverview,
    JsonPayload,
    CleanRetainedPopup(String),
}

/// What a move key (up, down, left, right) moves.
#[derive(Clone, Copy, Debug, PartialEq, Eq)]
pub enum MoveTarget {
    Topics,
    Json,
    /// Nothing: the key closed the popup.
    Nothing,
}

/// What the confirm key does.
#[derive(Clone, Debug, PartialEq, Eq)]
pub enum ConfirmAction {
    /// Open or close the selected topic.
    ToggleTopic,
    /// Open or close the selected part of the JSON payload.
    ToggleJson,
    /// Clean the retained topics below the topic.
    Clean(String),
}

impl ElementInFocus {
    fn copy(&self) -> (copy: ElementInFocus)
        ensures
            copy == *self,
    {
        match self {
            ElementInFocus::TopicOverview => ElementInFocus::TopicOverview,
            ElementInFocus::JsonPayload => ElementInFocus::JsonPayload,
            ElementInFocus::CleanRetainedPopup(topic) => ElementInFocus::CleanRetainedPopup(topic.clone()),
        }
    }

    /// The focus after the tab key: between the topics and the JSON payload
    /// when the selected topic has one, otherwise the topics.
    pub open spec fn spec_on_tab(self, is_json_on_topic: bool) -> ElementInFocus {
        if is_json_on_topic && self is TopicOverview {
            ElementInFocus::JsonPayload
        } else {
            ElementInFocus::TopicOverview
        }
    }

    /// The focus after the tab key.
    pub fn on_tab(&self, is_json_on_topic: bool) -> (next: ElementInFocus)
        ensures
            next == self.spec_on_tab(is_json_on_topic),
    {
        if is_json_on_topic && matches!(self, ElementInFocus::TopicOverview) {
            ElementInFocus::JsonPayload
        } else {
            ElementInFocus::TopicOverview
        }
    }

    /// The focus after the delete key: the popup for the selected topic when
    /// the topics have the focus and one is selected.
    pub fn on_delete(&self, selected_topic: Option<&str>) -> (next: ElementInFocus)
        ensures
            selected_topic is Some && *self is TopicOverview ==> (next matches ElementInFocus::CleanRetainedPopup(
                topic,
            ) && topic@ == selected_topic->0@),
            !(selected_topic is Some && *self is TopicOverview) ==> next == *self,
    {
        match selected_topic {
            Some(topic) if matches!(self, ElementInFocus::TopicOverview) => ElementInFocus::CleanRetainedPopup(
                String::from_str(topic),
            ),
            _ => self.copy(),
        }
    }

    /// The focus after any other key: the popup closes.
    pub fn on_other(&self) -> (next: ElementInFocus)
        ensures
            next == if *self is CleanRetainedPopup {
                ElementInFocus::TopicOverview
            } else {
                *self
            },
    {
        if matches!(self, ElementInFocus::CleanRetainedPopup(_)) {
            ElementInFocus::TopicOverview
        } else {
            self.copy()
        }
    }

    /// The focus after a move key and what the key moves: the element in
    /// focus, or nothing when the key closes the popup.
    pub fn on_move(&self) -> (step: (ElementInFocus, MoveTarget))
        ensures
            step == match *self {
                ElementInFocus::TopicOverview => (ElementInFocus::TopicOverview, MoveTarget::Topics),
                ElementInFocus::JsonPayload => (ElementInFocus::JsonPayload, MoveTarget::Json),
                ElementInFocus::CleanRetainedPopup(_) => (ElementInFocus::TopicOverview, MoveTarget::Nothing),
            },
    {
        match self {
            ElementInFocus::TopicOverview => (ElementInFocus::TopicOverview, MoveTarget::Topics),
            ElementInFocus::JsonPayload => (ElementInFocus::JsonPayload, MoveTarget::Json),
            ElementInFocus::CleanRetainedPopup(_) => (ElementInFocus::TopicOverview, MoveTarget::Nothing),
        }
    }

    /// The focus after the confirm key and what it does: it toggles what is
    /// selected, or cleans the topic of the popup and closes it.
    pub fn on_confirm(&self) -> (step: (ElementInFocus, ConfirmAction))
        ensures
            step == match *self {
                ElementInFocus::TopicOverview => (ElementInFocus::TopicOverview, ConfirmAction::ToggleTopic),
                ElementInFocus::JsonPayload => (ElementInFocus::JsonPayload, ConfirmAction::ToggleJson),
                ElementInFocus::CleanRetainedPopup(topic) => (
                    ElementInFocus::TopicOverview,
                    ConfirmAction::Clean(topic),
                ),
            },
    {
        match self {
            ElementInFocus::TopicOverview => (ElementInFocus::TopicOverview, ConfirmAction::ToggleTopic),
            ElementInFocus::JsonPayload => (ElementInFocus::JsonPayload, ConfirmAction::ToggleJson),
            ElementInFocus::CleanRetainedPopup(topic) => (
                ElementInFocus::TopicOverview,
                ConfirmAction::Clean(topic.clone()),
            ),
        }
    }
}

/// Pressing tab twice from the topics, with a JSON payload there, comes back
/// to the topics.
pub proof fn lemma_tab_twice_returns_to_topics(focus: ElementInFocus, is_json_on_topic: bool)
    requires
        focus is TopicOverview,
    ensures
        focus.spec_on_tab(is_json_on_topic).spec_on_tab(is_json_on_topic) == ElementInFocus::TopicOverview,
{
}

} // verus!
