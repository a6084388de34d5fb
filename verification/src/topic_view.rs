//! A tree of the known topics with their message counts, and which topics
//! a set of opened topics makes visible.
use std::collections::HashSet;

use vstd::prelude::*;

use crate::topic_logic::{
    get_all_parents, get_leaf, opened_topics, parents_opened, spec_all_parents, spec_leaf, spec_split,
    split_topic, views,
};

verus! {

/// A topic with the number of its messages and the last payload.
#[derive(Clone, Debug, PartialEq, Eq)]
pub struct TopicMessagesLastPayload {
    pub topic: String,
    pub messages: usize,
    pub last_payload: Vec<u8>,
}

/// `HashSet::contains`: whether a string equal to `topic` is in the set.
#[verifier::external_body]
pub(crate) fn set_contains(set: &HashSet<String>, topic: &str) -> (found: bool)
    ensures
        found == opened_topics(set).contains(topic@),
{
    set.contains(topic)
}

/// Whether every parent of `topic` is opened, so that the topic is shown.
pub fn is_topic_opened(opened: &HashSet<String>, topic: &str) -> (shown: bool)
    ensures
        shown == parents_opened(opened_topics(opened), topic@),
{
    let parents = get_all_parents(topic);
    let mut k: usize = 0;
    while k < parents.len()
        invariant
            k <= parents.len(),
            views(parents@) == spec_all_parents(topic@),
            forall|j: int| 0 <= j < k ==> opened_topics(opened).contains(#[trigger] spec_all_parents(topic@)[j]),
        decreases parents.len() - k,
    {
        assert(spec_all_parents(topic@)[k as int] == parents@[k as int]@);
        if !set_contains(opened, parents[k]) {
            return false;
        }
        k += 1;
    }
    true
}

/// A topic of the tree: how many messages it had, its last payload, and the
/// topics directly below it.
#[derive(Debug)]
pub struct TopicTreeEntry {
    pub topic: String,
    pub messages: usize,
    pub last_payload: Option<Vec<u8>>,
    pub entries_below: Vec<TopicTreeEntry>,
}

/// The number of topics with messages below an entry, at any depth.
pub open spec fn spec_topics_below(entry: TopicTreeEntry) -> nat
    decreases entry,
{
    spec_topics_below_all(entry.entries_below@)
}

/// The number of topics with messages among `entries` and below them.
pub open spec fn spec_topics_below_all(entries: Seq<TopicTreeEntry>) -> nat
    decreases entries,
{
    if entries.len() == 0 {
        0
    } else {
        let last = entries.last();
        spec_topics_below_all(entries.drop_last()) + (if last.messages > 0 {
            1nat
        } else {
            0nat
        }) + spec_topics_below(last)
    }
}

/// The number of messages of an entry and of all topics below it.
pub open spec fn spec_messages_below(entry: TopicTreeEntry) -> nat
    decreases entry,
{
    entry.messages as nat + spec_messages_below_all(entry.entries_below@)
}

/// The number of messages of `entries` and of all topics below them.
pub open spec fn spec_messages_below_all(entries: Seq<TopicTreeEntry>) -> nat
    decreases entries,
{
    if entries.len() == 0 {
        0
    } else {
        spec_messages_below_all(entries.drop_last()) + spec_messages_below(entries.last())
    }
}

impl TopicTreeEntry {
    /// The last part of the entry's topic.
    pub fn leaf(&self) -> (leaf: &str)
        ensures
            leaf@ == spec_leaf(self.topic@),
    {
        get_leaf(self.topic.as_str())
    }

    /// The number of topics below this one that had messages, at any depth.
    pub fn topics_below(&self) -> (count: usize)
        requires
            spec_topics_below(*self) <= usize::MAX,
        ensures
            count == spec_topics_below(*self),
        decreases self,
    {
        let mut count: usize = 0;
        let mut i: usize = 0;
        let ghost below = self.entries_below@;
        while i < self.entries_below.len()
            invariant
                i <= below.len(),
                below == self.entries_below@,
                spec_topics_below(*self) == spec_topics_below_all(below),
                spec_topics_below_all(below) <= usize::MAX,
                count == spec_topics_below_all(below.take(i as int)),
            decreases below.len() - i,
        {
            let entry = &self.entries_below[i];
            proof {
                assert(below.take(i + 1).drop_last() =~= below.take(i as int));
                lemma_topics_below_prefix(below, i + 1);
            }
            let has_messages: usize = if entry.messages > 0 {
                1
            } else {
                0
            };
            let nested = entry.topics_below();
            count = count + has_messages + nested;
            i += 1;
        }
        proof {
            assert(below.take(i as int) =~= below);
        }
        count
    }

    /// The number of messages of this topic and of all topics below it.
    pub fn messages_below(&self) -> (count: usize)
        requires
            spec_messages_below(*self) <= usize::MAX,
        ensures
            count == spec_messages_below(*self),
        decreases self,
    {
        let mut count: usize = 0;
        let mut i: usize = 0;
        let ghost below = self.entries_below@;
        while i < self.entries_below.len()
            invariant
                i <= below.len(),
                below == self.entries_below@,
                spec_messages_below(*self) == self.messages + spec_messages_below_all(below),
                spec_messages_below(*self) <= usize::MAX,
                count == spec_messages_below_all(below.take(i as int)),
            decreases below.len() - i,
        {
            let entry = &self.entries_below[i];
            proof {
                assert(below.take(i + 1).drop_last() =~= below.take(i as int));
                lemma_messages_below_prefix(below, i + 1);
            }
            let nested = entry.messages_below();
            count = count + nested;
            i += 1;
        }
        proof {
            assert(below.take(i as int) =~= below);
        }
        self.messages + count
    }
}

proof fn lemma_topics_below_prefix(entries: Seq<TopicTreeEntry>, n: int)
    requires
        0 <= n <= entries.len(),
    ensures
        spec_topics_below_all(entries.take(n)) <= spec_topics_below_all(entries),
    decreases entries.len(),
{
    if n < entries.len() {
        assert(entries.drop_last().take(n) =~= entries.take(n));
        lemma_topics_below_prefix(entries.drop_last(), n);
    } else {
        assert(entries.take(n) =~= entries);
    }
}

proof fn lemma_messages_below_prefix(entries: Seq<TopicTreeEntry>, n: int)
    requires
        0 <= n <= entries.len(),
    ensures
        spec_messages_below_all(entries.take(n)) <= spec_messages_below_all(entries),
    decreases entries.len(),
{
    if n < entries.len() {
        assert(entries.drop_last().take(n) =~= entries.take(n));
        lemma_messages_below_prefix(entries.drop_last(), n);
    } else {
        assert(entries.take(n) =~= entries);
    }
}

/// The first of the first `n` entries whose leaf is `part`.
pub open spec fn first_leaf_position(entries: Seq<TopicTreeEntry>, part: Seq<char>, n: nat) -> Option<nat>
    decreases n,
{
    if n == 0 {
        None
    } else {
        match first_leaf_position(entries, part, (n - 1) as nat) {
            Some(i) => Some(i),
            None => if spec_leaf(entries[n - 1].topic@) == part {
                Some((n - 1) as nat)
            } else {
                None
            },
        }
    }
}

/// The positions that lead through the tree along the parts of a topic:
/// at each level the first entry whose leaf is the part.
pub open spec fn spec_identifier(entries: Seq<TopicTreeEntry>, parts: Seq<Seq<char>>) -> Option<Seq<usize>>
    decreases parts.len(),
{
    if parts.len() == 0 {
        Some(Seq::empty())
    } else {
        match first_leaf_position(entries, parts[0], entries.len()) {
            None => None,
            Some(i) => match spec_identifier(entries[i as int].entries_below@, parts.drop_first()) {
                None => None,
                Some(rest) => Some(seq![i as usize] + rest),
            },
        }
    }
}

proof fn lemma_first_leaf_position_stays(entries: Seq<TopicTreeEntry>, part: Seq<char>, m: nat, n: nat)
    requires
        m <= n,
        first_leaf_position(entries, part, m) is Some,
    ensures
        first_leaf_position(entries, part, n) == first_leaf_position(entries, part, m),
    decreases n,
{
    if n > m {
        lemma_first_leaf_position_stays(entries, part, m, (n - 1) as nat);
    }
}

proof fn lemma_first_leaf_position_bound(entries: Seq<TopicTreeEntry>, part: Seq<char>, n: nat)
    ensures
        first_leaf_position(entries, part, n) matches Some(i) ==> i < n,
    decreases n,
{
    if n > 0 {
        lemma_first_leaf_position_bound(entries, part, (n - 1) as nat);
    }
}

/// The position of the first entry whose leaf is `part`.
fn leaf_position(entries: &[TopicTreeEntry], part: &str) -> (position: Option<usize>)
    ensures
        position is Some <==> first_leaf_position(entries@, part@, entries@.len()) is Some,
        position matches Some(i) ==> first_leaf_position(entries@, part@, entries@.len()) == Some(i as nat),
{
    let mut i: usize = 0;
    while i < entries.len()
        invariant
            i <= entries@.len(),
            first_leaf_position(entries@, part@, i as nat) is None,
        decreases entries.len() - i,
    {
        if crate::text::str_eq(entries[i].leaf(), part) {
            proof {
                lemma_first_leaf_position_stays(entries@, part@, (i + 1) as nat, entries@.len());
            }
            return Some(i);
        }
        i += 1;
    }
    None
}

/// The positions in the tree that lead to `topic`, one per part of it, or
/// `None` when the topic is not in the tree.
pub fn get_identifier_of_topic(tree_items: &[TopicTreeEntry], topic: &str) -> (identifier: Option<Vec<usize>>)
    ensures
        identifier is Some <==> spec_identifier(tree_items@, spec_split(topic@)) is Some,
        identifier matches Some(id) ==> spec_identifier(tree_items@, spec_split(topic@)) == Some(id@),
{
    let parts = split_topic(topic);
    let ghost all_parts = spec_split(topic@);
    let mut identifier: Vec<usize> = Vec::new();
    let mut current: &[TopicTreeEntry] = tree_items;
    let mut k: usize = 0;
    proof {
        assert(all_parts.skip(0) =~= all_parts);
        if let Some(r) = spec_identifier(tree_items@, all_parts) {
            assert(identifier@ + r =~= r);
        }
    }
    while k < parts.len()
        invariant
            k <= parts.len(),
            views(parts@) == all_parts,
            all_parts == spec_split(topic@),
            spec_identifier(tree_items@, all_parts) == match spec_identifier(current@, all_parts.skip(k as int)) {
                None => None,
                Some(rest) => Some(identifier@ + rest),
            },
        decreases parts.len() - k,
    {
        proof {
            assert(all_parts.skip(k as int)[0] == parts@[k as int]@);
            assert(all_parts.skip(k as int).drop_first() =~= all_parts.skip(k + 1));
        }
        match leaf_position(current, parts[k]) {
            Some(index) => {
                proof {
                    lemma_first_leaf_position_bound(current@, parts@[k as int]@, current@.len());
                    let rest = spec_identifier(current@[index as int].entries_below@, all_parts.skip(k + 1));
                    if let Some(r) = rest {
                        assert(identifier@.push(index) + r =~= identifier@ + (seq![index] + r));
                    }
                }
                current = current[index].entries_below.as_slice();
                identifier.push(index);
            },
            None => {
                proof {
                    assert(all_parts.skip(k as int).len() > 0);
                    assert(spec_identifier(current@, all_parts.skip(k as int)) is None);
                }
                return None;
            },
        }
        k += 1;
    }
    proof {
        assert(all_parts.skip(k as int).len() == 0);
        assert(identifier@ + Seq::<usize>::empty() =~= identifier@);
    }
    Some(identifier)
}

} // verus!
