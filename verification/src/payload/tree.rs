//! The trees shown for JSON and MessagePack payloads: an entry for each
//! member of an object or map and each element of an array, at every depth.
use vstd::prelude::*;

use super::json::{serde_json_items, serde_json_list_items, serde_json_list_members, serde_json_members, JsonValue};
use super::json_selector::{spec_selector_text, JsonSelector};
use super::messagepack::{
    key_name, key_name_of, pair_view, rmpv_array_items, rmpv_entries, rmpv_items, rmpv_map_entries, rmpv_read,
    rmpv_read_value, MessagePackValue, MAX_NESTING,
};

verus! {

/// An entry of the tree of a payload: the selector that reaches it from its
/// parent, its text, and the entries below it.
#[derive(Debug, PartialEq, Eq)]
pub struct PayloadTreeItem {
    pub selector: JsonSelector,
    pub text: String,
    pub children: Vec<PayloadTreeItem>,
}

/// The text of the MessagePack value at the front of `bytes`; empty when
/// none can be read.
pub open spec fn messagepack_text(bytes: Seq<u8>) -> Seq<char> {
    match rmpv_read_value(bytes) {
        Some((_, text)) => text,
        None => Seq::empty(),
    }
}

/// The entry `item` shows the MessagePack value encoded in `bytes`, at most
/// `depth` levels deep: a map or an array by the selector's text and an
/// entry for each of its members (selected by key name) or elements
/// (selected by index); any other value as the selector's text, `: ` and
/// the value's text.
pub open spec fn messagepack_item_shows(item: PayloadTreeItem, bytes: Seq<u8>, depth: nat) -> bool
    decreases depth,
{
    if depth == 0 {
        item.text@ == spec_selector_text(item.selector) && item.children@.len() == 0
    } else {
        match rmpv_map_entries(bytes) {
            Some(entries) => {
                &&& item.text@ == spec_selector_text(item.selector)
                &&& item.children@.len() == entries.len()
                &&& forall|k: int|
                    0 <= k < entries.len() ==> {
                        &&& (#[trigger] item.children@[k]).selector matches JsonSelector::ObjectKey(key) && key@
                            == key_name(entries[k])
                        &&& messagepack_item_shows(item.children@[k], entries[k].2, (depth - 1) as nat)
                    }
            },
            None => match rmpv_array_items(bytes) {
                Some(elements) => {
                    &&& item.text@ == spec_selector_text(item.selector)
                    &&& item.children@.len() == elements.len()
                    &&& forall|k: int|
                        0 <= k < elements.len() ==> {
                            &&& (#[trigger] item.children@[k]).selector == JsonSelector::ArrayIndex(k as usize)
                            &&& messagepack_item_shows(item.children@[k], elements[k], (depth - 1) as nat)
                        }
                },
                None => {
                    &&& item.children@.len() == 0
                    &&& item.text@ == spec_selector_text(item.selector) + ": "@ + messagepack_text(bytes)
                },
            },
        }
    }
}

/// The entry for the MessagePack value encoded in `bytes`, reached by
/// `selector`.
fn messagepack_item(selector: JsonSelector, bytes: &[u8], depth: usize) -> (item: PayloadTreeItem)
    ensures
        item.selector == selector,
        messagepack_item_shows(item, bytes@, depth as nat),
    decreases depth,
{
    let text = selector.to_string();
    if depth == 0 {
        return PayloadTreeItem { selector, text, children: Vec::new() };
    }
    match rmpv_entries(bytes) {
        Some(entries) => {
            let ghost all = entries@.map_values(|e: (super::messagepack::MapKey, Vec<u8>)| pair_view(e));
            let mut children: Vec<PayloadTreeItem> = Vec::new();
            let mut i: usize = 0;
            while i < entries.len()
                invariant
                    depth > 0,
                    all == entries@.map_values(|e: (super::messagepack::MapKey, Vec<u8>)| pair_view(e)),
                    i <= entries.len(),
                    children@.len() == i,
                    forall|k: int|
                        0 <= k < i ==> {
                            &&& (#[trigger] children@[k]).selector matches JsonSelector::ObjectKey(key) && key@
                                == key_name(all[k])
                            &&& messagepack_item_shows(children@[k], all[k].2, (depth - 1) as nat)
                        },
                decreases entries.len() - i,
            {
                let key = String::from_str(key_name_of(&entries[i].0));
                let child = messagepack_item(JsonSelector::ObjectKey(key), entries[i].1.as_slice(), depth - 1);
                assert(all[i as int] == pair_view(entries@[i as int]));
                children.push(child);
                i += 1;
            }
            PayloadTreeItem { selector, text, children }
        },
        None => match rmpv_items(bytes) {
            Some(elements) => {
                let ghost all = elements@.map_values(|e: Vec<u8>| e@);
                let mut children: Vec<PayloadTreeItem> = Vec::new();
                let mut i: usize = 0;
                while i < elements.len()
                    invariant
                        depth > 0,
                        all == elements@.map_values(|e: Vec<u8>| e@),
                        i <= elements.len(),
                        children@.len() == i,
                        forall|k: int|
                            0 <= k < i ==> {
                                &&& (#[trigger] children@[k]).selector == JsonSelector::ArrayIndex(k as usize)
                                &&& messagepack_item_shows(children@[k], all[k], (depth - 1) as nat)
                            },
                    decreases elements.len() - i,
                {
                    let child = messagepack_item(JsonSelector::ArrayIndex(i), elements[i].as_slice(), depth - 1);
                    assert(all[i as int] == elements@[i as int]@);
                    children.push(child);
                    i += 1;
                }
                PayloadTreeItem { selector, text, children }
            },
            None => {
                let mut text = text;
                text.append(": ");
                if let Some((_, value_text)) = rmpv_read(bytes) {
                    text.append(value_text.as_str());
                }
                proof {
                    reveal_strlit(": ");
                    assert(text@ =~= spec_selector_text(selector) + ": "@ + messagepack_text(bytes@));
                }
                PayloadTreeItem { selector, text, children: Vec::new() }
            },
        },
    }
}

/// The entries shown for a MessagePack payload: those of the members of a
/// map or the elements of an array, or a single entry with the value's
/// text for any other value.
pub open spec fn messagepack_tree_shows(items: Seq<PayloadTreeItem>, root: super::messagepack::MessagePackView) -> bool {
    match rmpv_map_entries(root.encoded) {
        Some(entries) => items.len() == entries.len() && forall|k: int|
            0 <= k < entries.len() ==> {
                &&& (#[trigger] items[k]).selector matches JsonSelector::ObjectKey(key) && key@ == key_name(entries[k])
                &&& messagepack_item_shows(items[k], entries[k].2, MAX_NESTING as nat)
            },
        None => match rmpv_array_items(root.encoded) {
            Some(elements) => items.len() == elements.len() && forall|k: int|
                0 <= k < elements.len() ==> {
                    &&& (#[trigger] items[k]).selector == JsonSelector::ArrayIndex(k as usize)
                    &&& messagepack_item_shows(items[k], elements[k], MAX_NESTING as nat)
                },
            None => items.len() == 1 && items[0].selector == JsonSelector::Empty && items[0].text@ == root.text
                && items[0].children@.len() == 0,
        },
    }
}

/// The entries shown for a MessagePack payload.
pub fn tree_items(root: &MessagePackValue) -> (items: Vec<PayloadTreeItem>)
    ensures
        messagepack_tree_shows(items@, root@),
{
    let bytes = root.encoded();
    if rmpv_entries(bytes).is_some() || rmpv_items(bytes).is_some() {
        let top = messagepack_item(JsonSelector::Empty, bytes, MAX_NESTING + 1);
        top.children
    } else {
        let mut items: Vec<PayloadTreeItem> = Vec::new();
        items.push(PayloadTreeItem { selector: JsonSelector::Empty, text: String::from_str(root.as_str()), children: Vec::new() });
        items
    }
}

/// The entry `item` shows the JSON value written in `text`, at most `depth`
/// levels deep: an object or an array by the selector's text and an entry
/// for each of its members (selected by key) or elements (selected by
/// index); any other value as the selector's text, `: ` and the value's text.
pub open spec fn json_item_shows(item: PayloadTreeItem, text: Seq<char>, depth: nat) -> bool
    decreases depth,
{
    if depth == 0 {
        item.text@ == spec_selector_text(item.selector) && item.children@.len() == 0
    } else {
        match serde_json_members(text) {
            Some(members) => {
                &&& item.text@ == spec_selector_text(item.selector)
                &&& item.children@.len() == members.len()
                &&& forall|k: int|
                    0 <= k < members.len() ==> {
                        &&& (#[trigger] item.children@[k]).selector matches JsonSelector::ObjectKey(key) && key@
                            == members[k].0
                        &&& json_item_shows(item.children@[k], members[k].1, (depth - 1) as nat)
                    }
            },
            None => match serde_json_items(text) {
                Some(elements) => {
                    &&& item.text@ == spec_selector_text(item.selector)
                    &&& item.children@.len() == elements.len()
                    &&& forall|k: int|
                        0 <= k < elements.len() ==> {
                            &&& (#[trigger] item.children@[k]).selector == JsonSelector::ArrayIndex(k as usize)
                            &&& json_item_shows(item.children@[k], elements[k], (depth - 1) as nat)
                        }
                },
                None => {
                    &&& item.children@.len() == 0
                    &&& item.text@ == spec_selector_text(item.selector) + ": "@ + text
                },
            },
        }
    }
}

/// The entry for the JSON value written in `text`, reached by `selector`.
fn json_item(selector: JsonSelector, text: &str, depth: usize) -> (item: PayloadTreeItem)
    ensures
        item.selector == selector,
        json_item_shows(item, text@, depth as nat),
    decreases depth,
{
    let shown = selector.to_string();
    if depth == 0 {
        return PayloadTreeItem { selector, text: shown, children: Vec::new() };
    }
    match serde_json_list_members(text) {
        Some(members) => {
            let ghost all = members@.map_values(|m: (String, String)| (m.0@, m.1@));
            let mut children: Vec<PayloadTreeItem> = Vec::new();
            let mut i: usize = 0;
            while i < members.len()
                invariant
                    depth > 0,
                    all == members@.map_values(|m: (String, String)| (m.0@, m.1@)),
                    i <= members.len(),
                    children@.len() == i,
                    forall|k: int|
                        0 <= k < i ==> {
                            &&& (#[trigger] children@[k]).selector matches JsonSelector::ObjectKey(key) && key@
                                == all[k].0
                            &&& json_item_shows(children@[k], all[k].1, (depth - 1) as nat)
                        },
                decreases members.len() - i,
            {
                let key = members[i].0.clone();
                let child = json_item(JsonSelector::ObjectKey(key), members[i].1.as_str(), depth - 1);
                children.push(child);
                i += 1;
            }
            PayloadTreeItem { selector, text: shown, children }
        },
        None => match serde_json_list_items(text) {
            Some(elements) => {
                let ghost all = elements@.map_values(|e: String| e@);
                let mut children: Vec<PayloadTreeItem> = Vec::new();
                let mut i: usize = 0;
                while i < elements.len()
                    invariant
                        depth > 0,
                        all == elements@.map_values(|e: String| e@),
                        i <= elements.len(),
                        children@.len() == i,
                        forall|k: int|
                            0 <= k < i ==> {
                                &&& (#[trigger] children@[k]).selector == JsonSelector::ArrayIndex(k as usize)
                                &&& json_item_shows(children@[k], all[k], (depth - 1) as nat)
                            },
                    decreases elements.len() - i,
                {
                    let child = json_item(JsonSelector::ArrayIndex(i), elements[i].as_str(), depth - 1);
                    children.push(child);
                    i += 1;
                }
                PayloadTreeItem { selector, text: shown, children }
            },
            None => {
                let mut shown = shown;
                shown.append(": ");
                shown.append(text);
                proof {
                    reveal_strlit(": ");
                    assert(shown@ =~= spec_selector_text(selector) + ": "@ + text@);
                }
                PayloadTreeItem { selector, text: shown, children: Vec::new() }
            },
        },
    }
}

/// The entries shown for a JSON payload: those of the members of an object
/// or the elements of an array, or a single entry with the value's text for
/// any other value.
pub open spec fn json_tree_shows(items: Seq<PayloadTreeItem>, root: Seq<char>) -> bool {
    match serde_json_members(root) {
        Some(members) => items.len() == members.len() && forall|k: int|
            0 <= k < members.len() ==> {
                &&& (#[trigger] items[k]).selector matches JsonSelector::ObjectKey(key) && key@ == members[k].0
                &&& json_item_shows(items[k], members[k].1, MAX_NESTING as nat)
            },
        None => match serde_json_items(root) {
            Some(elements) => items.len() == elements.len() && forall|k: int|
                0 <= k < elements.len() ==> {
                    &&& (#[trigger] items[k]).selector == JsonSelector::ArrayIndex(k as usize)
                    &&& json_item_shows(items[k], elements[k], MAX_NESTING as nat)
                },
            None => items.len() == 1 && items[0].selector == JsonSelector::Empty && items[0].text@ == root
                && items[0].children@.len() == 0,
        },
    }
}

/// The entries shown for a JSON payload.
pub fn root_tree_items_from_json(root: &JsonValue) -> (items: Vec<PayloadTreeItem>)
    ensures
        json_tree_shows(items@, root@),
{
    let text = root.as_str();
    if serde_json_list_members(text).is_some() || serde_json_list_items(text).is_some() {
        let top = json_item(JsonSelector::Empty, text, MAX_NESTING + 1);
        top.children
    } else {
        let mut items: Vec<PayloadTreeItem> = Vec::new();
        items.push(PayloadTreeItem { selector: JsonSelector::Empty, text: String::from_str(text), children: Vec::new() });
        items
    }
}

} // verus!
