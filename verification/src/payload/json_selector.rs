//! Selecting a part of a JSON or MessagePack payload.
use vstd::prelude::*;

use super::json::{serde_json_element, serde_json_member, JsonValue};
use super::messagepack::{
    entry_view, rmpv_array_element, rmpv_map_entry, rmpv_map_len, spec_read, MessagePackValue,
    MessagePackView,
};
use crate::decimal::{decimal, spec_decimal};

verus! {

/// A step into a JSON or MessagePack value: a key of an object, an index
/// of an array, or nothing.
#[derive(Clone, Debug, PartialEq, Eq, Hash)]
pub enum JsonSelector {
    ObjectKey(String),
    ArrayIndex(usize),
    Empty,
}

impl Default for JsonSelector {
    fn default() -> (selector: Self)
        ensures
            selector is Empty,
    {
        JsonSelector::Empty
    }
}

/// One step into a JSON value written as compact text.
pub open spec fn spec_apply_json(selector: JsonSelector, root: Seq<char>) -> Option<Seq<char>> {
    match selector {
        JsonSelector::ObjectKey(key) => serde_json_member(root, key@),
        JsonSelector::ArrayIndex(index) => serde_json_element(root, index as nat),
        JsonSelector::Empty => None,
    }
}

/// The steps taken one after the other; `None` as soon as one fails.
pub open spec fn spec_get_json(root: Seq<char>, selectors: Seq<JsonSelector>) -> Option<Seq<char>>
    decreases selectors.len(),
{
    if selectors.len() == 0 {
        Some(root)
    } else {
        match spec_get_json(root, selectors.drop_last()) {
            Some(current) => spec_apply_json(selectors.last(), current),
            None => None,
        }
    }
}

/// A map key of MessagePack matches a selected key: a string key by its
/// text, another key by what it is shown as.
pub open spec fn key_matches(key_str: Option<Seq<char>>, key_text: Seq<char>, selected: Seq<char>) -> bool {
    match key_str {
        Some(s) => s == selected,
        None => key_text == selected,
    }
}

/// Entry `index` of the map encoded in `bytes` has a key matching `selected`.
pub open spec fn entry_matches(bytes: Seq<u8>, index: nat, selected: Seq<char>) -> bool {
    match rmpv_map_entry(bytes, index) {
        Some((key_str, key_text, _)) => key_matches(key_str, key_text, selected),
        None => false,
    }
}

/// The first of the first `n` entries whose key matches `selected`.
pub open spec fn first_match(bytes: Seq<u8>, selected: Seq<char>, n: nat) -> Option<nat>
    decreases n,
{
    if n == 0 {
        None
    } else {
        match first_match(bytes, selected, (n - 1) as nat) {
            Some(i) => Some(i),
            None => if entry_matches(bytes, (n - 1) as nat, selected) {
                Some((n - 1) as nat)
            } else {
                None
            },
        }
    }
}

/// The value of the first entry of a MessagePack map whose key matches
/// `selected`.
pub open spec fn spec_select_entry(root: MessagePackView, selected: Seq<char>) -> Option<MessagePackView> {
    match rmpv_map_len(root.encoded) {
        Some(n) => match first_match(root.encoded, selected, n) {
            Some(i) => match rmpv_map_entry(root.encoded, i) {
                Some((_, _, value)) => spec_read(value),
                None => None,
            },
            None => None,
        },
        None => None,
    }
}

proof fn lemma_first_match_stays(bytes: Seq<u8>, selected: Seq<char>, m: nat, n: nat)
    requires
        m <= n,
        first_match(bytes, selected, m) is Some,
    ensures
        first_match(bytes, selected, n) == first_match(bytes, selected, m),
    decreases n,
{
    if n > m {
        lemma_first_match_stays(bytes, selected, m, (n - 1) as nat);
    }
}

/// One step into a MessagePack value.
pub open spec fn spec_apply_messagepack(selector: JsonSelector, root: MessagePackView) -> Option<MessagePackView> {
    match selector {
        JsonSelector::ArrayIndex(index) => match rmpv_array_element(root.encoded, index as nat) {
            Some(element) => spec_read(element),
            None => None,
        },
        JsonSelector::ObjectKey(key) => spec_select_entry(root, key@),
        JsonSelector::Empty => None,
    }
}

/// The steps into a MessagePack value taken one after the other.
pub open spec fn spec_get_messagepack(root: MessagePackView, selectors: Seq<JsonSelector>) -> Option<MessagePackView>
    decreases selectors.len(),
{
    if selectors.len() == 0 {
        Some(root)
    } else {
        match spec_get_messagepack(root, selectors.drop_last()) {
            Some(current) => spec_apply_messagepack(selectors.last(), current),
            None => None,
        }
    }
}

/// The text a selector is shown as.
pub open spec fn spec_selector_text(selector: JsonSelector) -> Seq<char> {
    match selector {
        JsonSelector::ObjectKey(key) => key@,
        JsonSelector::ArrayIndex(index) => spec_decimal(index as nat),
        JsonSelector::Empty => Seq::empty(),
    }
}

/// Whether a map key read from MessagePack matches the selected key.
fn map_key_matches(key: &super::messagepack::MapKey, selected: &str) -> (matches: bool)
    ensures
        matches == key_matches(
            match key.as_str {
                Some(s) => Some(s@),
                None => None,
            },
            key.text@,
            selected@,
        ),
{
    match &key.as_str {
        Some(s) => crate::text::str_eq(s.as_str(), selected),
        None => crate::text::str_eq(key.text.as_str(), selected),
    }
}

/// The value of the first entry of a map whose key matches `selected`.
fn first_matching_entry(root: &MessagePackValue, selected: &str) -> (value: Option<MessagePackValue>)
    ensures
        value is Some <==> spec_select_entry(root@, selected@) is Some,
        value matches Some(v) ==> spec_select_entry(root@, selected@) == Some(v@),
{
    let n = match root.entry_count() {
        Some(n) => n,
        None => return None,
    };
    let ghost bytes = root@.encoded;
    let mut i: usize = 0;
    while i < n
        invariant
            i <= n,
            rmpv_map_len(bytes) == Some(n as nat),
            bytes == root@.encoded,
            first_match(bytes, selected@, i as nat) is None,
        decreases n - i,
    {
        let entry = root.entry(i);
        proof {
            assert(entry_view(entry) == rmpv_map_entry(bytes, i as nat));
        }
        match entry {
            Some((key, value)) => {
                if map_key_matches(&key, selected) {
                    proof {
                        assert(first_match(bytes, selected@, (i + 1) as nat) == Some(i as nat));
                        lemma_first_match_stays(bytes, selected@, (i + 1) as nat, n as nat);
                    }
                    return MessagePackValue::read(value.as_slice());
                }
            },
            None => {},
        }
        i += 1;
    }
    None
}

impl JsonSelector {
    /// One step into a JSON value.
    pub fn apply_json(&self, root: &JsonValue) -> (value: Option<JsonValue>)
        ensures
            value is Some <==> spec_apply_json(*self, root@) is Some,
            value matches Some(v) ==> spec_apply_json(*self, root@) == Some(v@),
    {
        match self {
            JsonSelector::ObjectKey(key) => root.member(key.as_str()),
            JsonSelector::ArrayIndex(index) => root.element(*index),
            JsonSelector::Empty => None,
        }
    }

    /// One step into a MessagePack value: the element of an array, or the
    /// value of the first map entry whose key matches.
    pub fn apply_messagepack(&self, root: &MessagePackValue) -> (value: Option<MessagePackValue>)
        ensures
            value is Some <==> spec_apply_messagepack(*self, root@) is Some,
            value matches Some(v) ==> spec_apply_messagepack(*self, root@) == Some(v@),
    {
        match self {
            JsonSelector::ArrayIndex(index) => root.element(*index),
            JsonSelector::ObjectKey(key) => first_matching_entry(root, key.as_str()),
            JsonSelector::Empty => None,
        }
    }

    /// Follows the selectors into a MessagePack value; `None` when one of
    /// them does not apply.
    pub fn get_messagepack(root: &MessagePackValue, selector: &[JsonSelector]) -> (value: Option<MessagePackValue>)
        ensures
            value is Some <==> spec_get_messagepack(root@, selector@) is Some,
            value matches Some(v) ==> spec_get_messagepack(root@, selector@) == Some(v@),
    {
        let mut current = root.clone();
        let mut i: usize = 0;
        while i < selector.len()
            invariant
                i <= selector@.len(),
                spec_get_messagepack(root@, selector@.take(i as int)) == Some(current@),
            decreases selector.len() - i,
        {
            proof {
                assert(selector@.take(i + 1).drop_last() =~= selector@.take(i as int));
            }
            match selector[i].apply_messagepack(&current) {
                Some(next) => {
                    current = next;
                },
                None => {
                    proof {
                        lemma_get_messagepack_stays_none(root@, selector@, i as int + 1);
                    }
                    return None;
                },
            }
            i += 1;
        }
        proof {
            assert(selector@.take(i as int) =~= selector@);
        }
        Some(current)
    }

    /// Follows the selectors into a JSON value; `None` when one of them
    /// does not apply.
    pub fn get_json(root: &JsonValue, selector: &[JsonSelector]) -> (value: Option<JsonValue>)
        ensures
            value is Some <==> spec_get_json(root@, selector@) is Some,
            value matches Some(v) ==> spec_get_json(root@, selector@) == Some(v@),
    {
        let mut current = root.clone();
        let mut i: usize = 0;
        while i < selector.len()
            invariant
                i <= selector@.len(),
                spec_get_json(root@, selector@.take(i as int)) == Some(current@),
            decreases selector.len() - i,
        {
            proof {
                assert(selector@.take(i + 1).drop_last() =~= selector@.take(i as int));
            }
            match selector[i].apply_json(&current) {
                Some(next) => {
                    current = next;
                },
                None => {
                    proof {
                        lemma_get_json_stays_none(root@, selector@, i as int + 1);
                    }
                    return None;
                },
            }
            i += 1;
        }
        proof {
            assert(selector@.take(i as int) =~= selector@);
        }
        Some(current)
    }

    /// The text the selector is shown as: the key, the index, or nothing.
    pub fn to_string(&self) -> (text: String)
        ensures
            text@ == spec_selector_text(*self),
    {
        match self {
            JsonSelector::ObjectKey(key) => key.clone(),
            JsonSelector::ArrayIndex(index) => decimal(*index),
            JsonSelector::Empty => String::new(),
        }
    }
}

/// Once a step fails, following more selectors does not help.
proof fn lemma_get_json_stays_none(root: Seq<char>, selectors: Seq<JsonSelector>, n: int)
    requires
        0 <= n <= selectors.len(),
        spec_get_json(root, selectors.take(n)) is None,
    ensures
        spec_get_json(root, selectors) is None,
    decreases selectors.len() - n,
{
    if n == selectors.len() {
        assert(selectors.take(n) =~= selectors);
    } else {
        assert(selectors.take(n + 1).drop_last() =~= selectors.take(n));
        lemma_get_json_stays_none(root, selectors, n + 1);
    }
}

/// Selecting along `first` and then along `second` gives what selecting
/// along both at once gives.
pub proof fn lemma_get_json_concat(root: Seq<char>, first: Seq<JsonSelector>, second: Seq<JsonSelector>)
    ensures
        spec_get_json(root, first + second) == match spec_get_json(root, first) {
            Some(middle) => spec_get_json(middle, second),
            None => None,
        },
    decreases second.len(),
{
    if second.len() == 0 {
        assert(first + second =~= first);
    } else {
        assert((first + second).drop_last() =~= first + second.drop_last());
        assert((first + second).last() == second.last());
        lemma_get_json_concat(root, first, second.drop_last());
    }
}

/// Selecting along `first` and then along `second` in a MessagePack value
/// gives what selecting along both at once gives.
pub proof fn lemma_get_messagepack_concat(
    root: MessagePackView,
    first: Seq<JsonSelector>,
    second: Seq<JsonSelector>,
)
    ensures
        spec_get_messagepack(root, first + second) == match spec_get_messagepack(root, first) {
            Some(middle) => spec_get_messagepack(middle, second),
            None => None,
        },
    decreases second.len(),
{
    if second.len() == 0 {
        assert(first + second =~= first);
    } else {
        assert((first + second).drop_last() =~= first + second.drop_last());
        assert((first + second).last() == second.last());
        lemma_get_messagepack_concat(root, first, second.drop_last());
    }
}

proof fn lemma_get_messagepack_stays_none(root: MessagePackView, selectors: Seq<JsonSelector>, n: int)
    requires
        0 <= n <= selectors.len(),
        spec_get_messagepack(root, selectors.take(n)) is None,
    ensures
        spec_get_messagepack(root, selectors) is None,
    decreases selectors.len() - n,
{
    if n == selectors.len() {
        assert(selectors.take(n) =~= selectors);
    } else {
        assert(selectors.take(n + 1).drop_last() =~= selectors.take(n));
        lemma_get_messagepack_stays_none(root, selectors, n + 1);
    }
}

} // verus!
