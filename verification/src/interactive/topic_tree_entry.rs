//! The topic tree of the first interactive view: each topic with its message
//! counts and last payload, and which entries a set of opened topics shows.
use std::collections::HashSet;

use vstd::prelude::*;

use crate::decimal::{decimal, spec_decimal};
use crate::mqtt::payload::{spec_new, LinePayloadView, Payload};
use crate::topic_logic::opened_topics;
use crate::topic_view::set_contains;

verus! {

/// A topic in the tree.
#[derive(Debug, PartialEq, Eq)]
pub struct TopicTreeEntry {
    pub topic: String,
    pub leaf: String,
    pub messages: usize,
    pub last_payload: Option<Payload>,
    pub topics_below: usize,
    pub messages_below: usize,
    pub entries_below: Vec<TopicTreeEntry>,
}

/// The topics shown, in order: each entry, and below it its entries when
/// its topic is opened.
pub open spec fn visible_topics(opened: Set<Seq<char>>, entries: Seq<TopicTreeEntry>) -> Seq<Seq<char>>
    decreases entries,
{
    if entries.len() == 0 {
        Seq::empty()
    } else {
        let last = entries.last();
        visible_topics(opened, entries.drop_last()) + seq![last.topic@] + if opened.contains(last.topic@) {
            visible_topics(opened, last.entries_below@)
        } else {
            Seq::empty()
        }
    }
}

/// With no topic opened, only the given entries are shown, not what is
/// below them.
pub proof fn lemma_nothing_opened_shows_top_level(entries: Seq<TopicTreeEntry>)
    ensures
        visible_topics(Set::empty(), entries) == entries.map_values(|e: TopicTreeEntry| e.topic@),
    decreases entries.len(),
{
    if entries.len() > 0 {
        lemma_nothing_opened_shows_top_level(entries.drop_last());
        assert(entries.map_values(|e: TopicTreeEntry| e.topic@) =~= entries.drop_last().map_values(
            |e: TopicTreeEntry| e.topic@,
        ) + seq![entries.last().topic@]);
    }
}

/// The topics of shown entries.
pub open spec fn entry_topics(entries: Seq<&TopicTreeEntry>) -> Seq<Seq<char>> {
    entries.map_values(|e: &TopicTreeEntry| e.topic@)
}

/// The entries shown when the topics in `opened` are opened: each entry,
/// followed by the entries shown below it when its topic is opened.
pub fn get_visible<'a>(opened: &HashSet<String>, entries: &'a Vec<TopicTreeEntry>) -> (visible: Vec<
    &'a TopicTreeEntry,
>)
    ensures
        entry_topics(visible@) == visible_topics(opened_topics(opened), entries@),
    decreases entries@,
{
    let ghost set = opened_topics(opened);
    let mut result: Vec<&'a TopicTreeEntry> = Vec::new();
    let mut i: usize = 0;
    while i < entries.len()
        invariant
            i <= entries@.len(),
            set == opened_topics(opened),
            entry_topics(result@) == visible_topics(set, entries@.take(i as int)),
        decreases entries@.len() - i,
    {
        let entry = &entries[i];
        proof {
            assert(entries@.take(i + 1).drop_last() =~= entries@.take(i as int));
            assert(entries@.take(i + 1).last() == entries@[i as int]);
        }
        let ghost before = result@;
        result.push(entry);
        proof {
            assert(entry_topics(result@) =~= entry_topics(before) + seq![entry.topic@]);
        }
        if set_contains(opened, entry.topic.as_str()) {
            let below = get_visible(opened, &entry.entries_below);
            let mut k: usize = 0;
            let ghost start = result@;
            while k < below.len()
                invariant
                    k <= below@.len(),
                    entry_topics(result@) == entry_topics(start) + entry_topics(below@).take(k as int),
                decreases below@.len() - k,
            {
                let ghost was = result@;
                result.push(below[k]);
                proof {
                    assert(entry_topics(result@) =~= entry_topics(was) + seq![below@[k as int].topic@]);
                    assert(entry_topics(below@).take(k + 1) =~= entry_topics(below@).take(k as int) + seq![
                        below@[k as int].topic@,
                    ]);
                }
                k += 1;
            }
            proof {
                assert(entry_topics(below@).take(k as int) =~= entry_topics(below@));
            }
        } else {
            proof {
                assert(entry_topics(result@) =~= entry_topics(result@) + Seq::<Seq<char>>::empty());
            }
        }
        i += 1;
    }
    proof {
        assert(entries@.take(i as int) =~= entries@);
    }
    result
}

/// The text shown after the leaf of an entry: its last payload, or how many
/// topics and messages are below it.
pub open spec fn spec_meta(entry: TopicTreeEntry) -> Seq<char> {
    match entry.last_payload {
        Some(p) => match p@ {
            LinePayloadView::String(s) => "= "@ + s,
            LinePayloadView::Json(j) => "= "@ + j,
            LinePayloadView::MessagePack(m) => "= "@ + m.text,
            LinePayloadView::NotUtf8(_) => "Payload not UTF-8"@,
        },
        None => "("@ + spec_decimal(entry.topics_below as nat) + " topics, "@ + spec_decimal(
            entry.messages_below as nat,
        ) + " messages)"@,
    }
}

impl TopicTreeEntry {
    /// The text shown after the leaf.
    pub fn meta(&self) -> (text: String)
        ensures
            text@ == spec_meta(*self),
    {
        match &self.last_payload {
            Some(Payload::String(s)) => {
                let mut text = String::from_str("= ");
                text.append(s.as_str());
                text
            },
            Some(Payload::Json(json)) => {
                let mut text = String::from_str("= ");
                text.append(json.as_str());
                text
            },
            Some(Payload::MessagePack(value)) => {
                let mut text = String::from_str("= ");
                text.append(value.as_str());
                text
            },
            Some(Payload::NotUtf8(_)) => String::from_str("Payload not UTF-8"),
            None => {
                let mut text = String::from_str("(");
                text.append(decimal(self.topics_below).as_str());
                text.append(" topics, ");
                text.append(decimal(self.messages_below).as_str());
                text.append(" messages)");
                text
            },
        }
    }

    /// A leaf entry of the examples.
    fn example_leaf(topic: &str, leaf: &str, messages: usize, payload: &str) -> (entry: TopicTreeEntry)
        ensures
            entry.topic@ == topic@,
            entry.leaf@ == leaf@,
            entry.messages == messages,
            entry.last_payload matches Some(p) && spec_new(vstd::utf8::encode_utf8(payload@), p@),
            entry.topics_below == 0,
            entry.messages_below == 0,
            entry.entries_below@.len() == 0,
    {
        let bytes = crate::text::text_bytes(payload);
        TopicTreeEntry {
            topic: String::from_str(topic),
            leaf: String::from_str(leaf),
            messages,
            last_payload: Some(Payload::new(bytes)),
            topics_below: 0,
            messages_below: 0,
            entries_below: Vec::new(),
        }
    }

    /// The example tree: `foo` with `foo/bar` (payload `D`) and `foo/test`
    /// (payload `B`) below it, and `test` with two messages (payload `C`).
    pub fn examples() -> (entries: Vec<TopicTreeEntry>)
        ensures
            entries@.len() == 2,
            entries@[0].topic@ == "foo"@,
            entries@[0].leaf@ == "foo"@,
            entries@[0].messages == 0,
            entries@[0].last_payload is None,
            entries@[0].topics_below == 2,
            entries@[0].messages_below == 2,
            entries@[0].entries_below@.len() == 2,
            entries@[0].entries_below@[0].topic@ == "foo/bar"@,
            entries@[0].entries_below@[0].leaf@ == "bar"@,
            entries@[0].entries_below@[0].messages == 1,
            entries@[0].entries_below@[0].entries_below@.len() == 0,
            entries@[0].entries_below@[1].topic@ == "foo/test"@,
            entries@[0].entries_below@[1].leaf@ == "test"@,
            entries@[0].entries_below@[1].messages == 1,
            entries@[0].entries_below@[1].entries_below@.len() == 0,
            entries@[1].topic@ == "test"@,
            entries@[1].leaf@ == "test"@,
            entries@[1].messages == 2,
            entries@[1].entries_below@.len() == 0,
    {
        let mut below: Vec<TopicTreeEntry> = Vec::new();
        below.push(TopicTreeEntry::example_leaf("foo/bar", "bar", 1, "D"));
        below.push(TopicTreeEntry::example_leaf("foo/test", "test", 1, "B"));
        let foo = TopicTreeEntry {
            topic: String::from_str("foo"),
            leaf: String::from_str("foo"),
            messages: 0,
            last_payload: None,
            topics_below: 2,
            messages_below: 2,
            entries_below: below,
        };
        let test = TopicTreeEntry::example_leaf("test", "test", 2, "C");
        let mut entries: Vec<TopicTreeEntry> = Vec::new();
        entries.push(foo);
        entries.push(test);
        entries
    }
}

} // verus!
