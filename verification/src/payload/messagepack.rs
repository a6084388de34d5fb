//! MessagePack payloads, held as the encoding of one value and its text.
use vstd::prelude::*;

verus! {

/// Reading one MessagePack value from the front of `bytes` with
/// `rmpv::decode::read_value`: the number of bytes left unread after it and
/// the value's `Display` text, or `None` when no value can be read.
pub uninterp spec fn rmpv_read_value(bytes: Seq<u8>) -> Option<(nat, Seq<char>)>;

/// The element `index` of the MessagePack array encoded at the front of
/// `bytes`, encoded again by `rmpv::encode::write_value`.
pub uninterp spec fn rmpv_array_element(bytes: Seq<u8>, index: nat) -> Option<Seq<u8>>;

/// The number of entries of the MessagePack map encoded at the front of
/// `bytes`.
pub uninterp spec fn rmpv_map_len(bytes: Seq<u8>) -> Option<nat>;

/// The entry `index` of the MessagePack map encoded at the front of `bytes`:
/// the key as a string when it is a valid UTF-8 string, the key's `Display`
/// text, and the value encoded again by `rmpv::encode::write_value`.
pub uninterp spec fn rmpv_map_entry(bytes: Seq<u8>, index: nat) -> Option<(Option<Seq<char>>, Seq<char>, Seq<u8>)>;

/// The elements of the MessagePack array encoded at the front of `bytes`,
/// each encoded again by `rmpv::encode::write_value`.
pub uninterp spec fn rmpv_array_items(bytes: Seq<u8>) -> Option<Seq<Seq<u8>>>;

/// The entries of the MessagePack map encoded at the front of `bytes`, in
/// their order: each key as a string when it is a valid UTF-8 string, the
/// key's `Display` text, and the value encoded again by
/// `rmpv::encode::write_value`.
pub uninterp spec fn rmpv_map_entries(bytes: Seq<u8>) -> Option<Seq<(Option<Seq<char>>, Seq<char>, Seq<u8>)>>;

/// A key of a map entry as plain values.
pub struct MapKey {
    /// The key when it is a valid UTF-8 string.
    pub as_str: Option<String>,
    /// The key's text.
    pub text: String,
}

/// The plain values of a map entry read from MessagePack.
pub open spec fn entry_view(entry: Option<(MapKey, Vec<u8>)>) -> Option<(Option<Seq<char>>, Seq<char>, Seq<u8>)> {
    match entry {
        Some((key, value)) => Some(
            (
                match key.as_str {
                    Some(s) => Some(s@),
                    None => None,
                },
                key.text@,
                value@,
            ),
        ),
        None => None,
    }
}

/// Reads one value from the front of `bytes` with
/// `rmpv::decode::read_value`; returns how many bytes are left unread and
/// the value's `Display` text. The reader only moves forward, so no more
/// bytes are left than there were.
#[verifier::external_body]
pub(crate) fn rmpv_read(bytes: &[u8]) -> (read: Option<(usize, String)>)
    ensures
        read is Some <==> rmpv_read_value(bytes@) is Some,
        read matches Some((rest, text)) ==> rmpv_read_value(bytes@) == Some((rest as nat, text@)),
        read matches Some((rest, _)) ==> rest <= bytes@.len(),
{
    let mut reader = bytes;
    let value = rmpv::decode::read_value(&mut reader).ok()?;
    Some((reader.len(), value.to_string()))
}

/// Reads a value with `rmpv::decode::read_value`, takes the element `index`
/// of it as an array (`Value::as_array`) and encodes that element with
/// `rmpv::encode::write_value`.
#[verifier::external_body]
fn rmpv_element(bytes: &[u8], index: usize) -> (element: Option<Vec<u8>>)
    ensures
        element is Some <==> rmpv_array_element(bytes@, index as nat) is Some,
        element matches Some(e) ==> rmpv_array_element(bytes@, index as nat) == Some(e@),
{
    let value = rmpv::decode::read_value(&mut &bytes[..]).ok()?;
    let element = value.as_array()?.get(index)?;
    let mut encoded = Vec::new();
    rmpv::encode::write_value(&mut encoded, element).ok()?;
    Some(encoded)
}

/// Reads a value with `rmpv::decode::read_value` and counts the entries of
/// it as a map (`Value::as_map`).
#[verifier::external_body]
fn rmpv_entry_count(bytes: &[u8]) -> (count: Option<usize>)
    ensures
        count is Some <==> rmpv_map_len(bytes@) is Some,
        count matches Some(n) ==> rmpv_map_len(bytes@) == Some(n as nat),
{
    let value = rmpv::decode::read_value(&mut &bytes[..]).ok()?;
    Some(value.as_map()?.len())
}

/// Reads a value with `rmpv::decode::read_value` and takes the entry
/// `index` of it as a map (`Value::as_map`): the key by `Value::as_str` and
/// by its `Display`, the value encoded with `rmpv::encode::write_value`.
#[verifier::external_body]
fn rmpv_entry(bytes: &[u8], index: usize) -> (entry: Option<(MapKey, Vec<u8>)>)
    ensures
        entry_view(entry) == rmpv_map_entry(bytes@, index as nat),
{
    let value = rmpv::decode::read_value(&mut &bytes[..]).ok()?;
    let (key, element) = value.as_map()?.get(index)?;
    let mut encoded = Vec::new();
    rmpv::encode::write_value(&mut encoded, element).ok()?;
    Some((MapKey { as_str: key.as_str().map(String::from), text: key.to_string() }, encoded))
}

/// The plain values of a map entry.
pub open spec fn pair_view(entry: (MapKey, Vec<u8>)) -> (Option<Seq<char>>, Seq<char>, Seq<u8>) {
    (
        match entry.0.as_str {
            Some(s) => Some(s@),
            None => None,
        },
        entry.0.text@,
        entry.1@,
    )
}

/// Reads a value with `rmpv::decode::read_value` and encodes each element
/// of it as an array (`Value::as_array`) with `rmpv::encode::write_value`.
#[verifier::external_body]
pub(crate) fn rmpv_items(bytes: &[u8]) -> (items: Option<Vec<Vec<u8>>>)
    ensures
        match items {
            Some(v) => rmpv_array_items(bytes@) == Some(v@.map_values(|e: Vec<u8>| e@)),
            None => rmpv_array_items(bytes@) is None,
        },
{
    let value = rmpv::decode::read_value(&mut &bytes[..]).ok()?;
    let encode = |element: &rmpv::Value| {
        let mut encoded = Vec::new();
        rmpv::encode::write_value(&mut encoded, element).ok().map(|()| encoded)
    };
    value.as_array()?.iter().map(encode).collect()
}

/// Reads a value with `rmpv::decode::read_value` and takes the entries of it
/// as a map (`Value::as_map`): each key by `Value::as_str` and by its
/// `Display`, each value encoded with `rmpv::encode::write_value`.
#[verifier::external_body]
pub(crate) fn rmpv_entries(bytes: &[u8]) -> (entries: Option<Vec<(MapKey, Vec<u8>)>>)
    ensures
        match entries {
            Some(v) => rmpv_map_entries(bytes@) == Some(v@.map_values(|e: (MapKey, Vec<u8>)| pair_view(e))),
            None => rmpv_map_entries(bytes@) is None,
        },
{
    let value = rmpv::decode::read_value(&mut &bytes[..]).ok()?;
    let convert = |(key, element): &(rmpv::Value, rmpv::Value)| {
        let mut encoded = Vec::new();
        rmpv::encode::write_value(&mut encoded, element).ok()?;
        Some((MapKey { as_str: key.as_str().map(String::from), text: key.to_string() }, encoded))
    };
    value.as_map()?.iter().map(convert).collect()
}

/// The name a key is compared by: the string itself, or the text of a key
/// that is no string.
pub open spec fn key_name(key: (Option<Seq<char>>, Seq<char>, Seq<u8>)) -> Seq<char> {
    match key.0 {
        Some(s) => s,
        None => key.1,
    }
}

/// Two entries of a map have keys with the same name.
pub open spec fn has_duplicate_names(entries: Seq<(Option<Seq<char>>, Seq<char>, Seq<u8>)>) -> bool {
    exists|i: int, j: int|
        0 <= i < j < entries.len() && key_name(#[trigger] entries[i]) == key_name(#[trigger] entries[j])
}

/// How deep the walk for duplicate keys goes. `rmpv::decode::read_value`
/// gives up on values nested this deep, so every value it reads is walked
/// whole.
pub const MAX_NESTING: usize = 1024;

/// Some map in the MessagePack value encoded at the front of `bytes` has two
/// keys with the same name: the value itself when it is a map, or a value of
/// it, or an element when it is an array, at most `depth` levels down.
pub open spec fn nested_duplicate_keys(bytes: Seq<u8>, depth: nat) -> bool
    decreases depth,
{
    if depth == 0 {
        false
    } else {
        match rmpv_map_entries(bytes) {
            Some(entries) => has_duplicate_names(entries) || exists|i: int|
                0 <= i < entries.len() && nested_duplicate_keys(#[trigger] entries[i].2, (depth - 1) as nat),
            None => match rmpv_array_items(bytes) {
                Some(items) => exists|i: int|
                    0 <= i < items.len() && nested_duplicate_keys(#[trigger] items[i], (depth - 1) as nat),
                None => false,
            },
        }
    }
}

pub(crate) fn key_name_of(key: &MapKey) -> (name: &str)
    ensures
        name@ == (match key.as_str {
            Some(s) => s@,
            None => key.text@,
        }),
{
    match &key.as_str {
        Some(s) => s.as_str(),
        None => key.text.as_str(),
    }
}

/// Whether two entries of a map have keys with the same name.
fn any_duplicate_names(entries: &Vec<(MapKey, Vec<u8>)>) -> (found: bool)
    ensures
        found == has_duplicate_names(entries@.map_values(|e: (MapKey, Vec<u8>)| pair_view(e))),
{
    let ghost all = entries@.map_values(|e: (MapKey, Vec<u8>)| pair_view(e));
    let mut j: usize = 0;
    while j < entries.len()
        invariant
            all == entries@.map_values(|e: (MapKey, Vec<u8>)| pair_view(e)),
            j <= entries.len(),
            forall|i: int, jj: int| 0 <= i < jj < j ==> key_name(#[trigger] all[i]) != key_name(#[trigger] all[jj]),
        decreases entries.len() - j,
    {
        let mut i: usize = 0;
        while i < j
            invariant
                all == entries@.map_values(|e: (MapKey, Vec<u8>)| pair_view(e)),
                i <= j < entries.len(),
                forall|ii: int| 0 <= ii < i ==> key_name(#[trigger] all[ii]) != key_name(all[j as int]),
            decreases j - i,
        {
            if crate::text::str_eq(key_name_of(&entries[i].0), key_name_of(&entries[j].0)) {
                assert(key_name(all[i as int]) == key_name(all[j as int]));
                return true;
            }
            i += 1;
        }
        j += 1;
    }
    false
}

/// Whether some map in the value encoded at the front of `bytes` has two
/// keys with the same name, at most `depth` levels down.
fn nested_duplicates(bytes: &[u8], depth: usize) -> (found: bool)
    ensures
        found == nested_duplicate_keys(bytes@, depth as nat),
    decreases depth,
{
    if depth == 0 {
        return false;
    }
    match rmpv_entries(bytes) {
        Some(entries) => {
            let ghost all = entries@.map_values(|e: (MapKey, Vec<u8>)| pair_view(e));
            if any_duplicate_names(&entries) {
                return true;
            }
            let mut i: usize = 0;
            while i < entries.len()
                invariant
                    all == entries@.map_values(|e: (MapKey, Vec<u8>)| pair_view(e)),
                    rmpv_map_entries(bytes@) == Some(all),
                    !has_duplicate_names(all),
                    i <= entries.len(),
                    depth > 0,
                    forall|k: int| 0 <= k < i ==> !nested_duplicate_keys(#[trigger] all[k].2, (depth - 1) as nat),
                decreases entries.len() - i,
            {
                if nested_duplicates(entries[i].1.as_slice(), depth - 1) {
                    assert(all[i as int].2 == entries@[i as int].1@);
                    assert(nested_duplicate_keys(all[i as int].2, (depth - 1) as nat));
                    assert(rmpv_map_entries(bytes@) == Some(all));
                    return true;
                }
                assert(all[i as int].2 == entries@[i as int].1@);
                i += 1;
            }
            false
        },
        None => match rmpv_items(bytes) {
            Some(items) => {
                let ghost all = items@.map_values(|e: Vec<u8>| e@);
                let mut i: usize = 0;
                while i < items.len()
                    invariant
                        all == items@.map_values(|e: Vec<u8>| e@),
                        rmpv_map_entries(bytes@) is None,
                        rmpv_array_items(bytes@) == Some(all),
                        i <= items.len(),
                        depth > 0,
                        forall|k: int| 0 <= k < i ==> !nested_duplicate_keys(#[trigger] all[k], (depth - 1) as nat),
                    decreases items.len() - i,
                {
                    if nested_duplicates(items[i].as_slice(), depth - 1) {
                        assert(all[i as int] == items@[i as int]@);
                        assert(nested_duplicate_keys(all[i as int], (depth - 1) as nat));
                        assert(rmpv_array_items(bytes@) == Some(all));
                        assert(rmpv_array_items(bytes@)->0[i as int] == all[i as int]);
                        assert(nested_duplicate_keys(bytes@, depth as nat));
                        return true;
                    }
                    assert(all[i as int] == items@[i as int]@);
                    i += 1;
                }
                false
            },
            None => false,
        },
    }
}

/// The number of bytes of the UTF-8 encoding of a text, as `str::len`
/// gives it.
pub open spec fn utf8_len(text: Seq<char>) -> usize {
    vstd::utf8::encode_utf8(text).len() as usize
}

/// What `decode` makes of `bytes`: the encoding of the value read and its
/// text, or `None` when no value can be read or its text is shorter (in
/// bytes) than what is left unread after it.
pub open spec fn spec_decode(bytes: Seq<u8>) -> Option<(Seq<u8>, Seq<char>)> {
    match rmpv_read_value(bytes) {
        None => None,
        Some((rest, text)) => if utf8_len(text) < rest {
            None
        } else {
            Some((bytes.take(bytes.len() - rest), text))
        },
    }
}

/// A MessagePack value: its encoding and its text.
#[derive(Debug, PartialEq, Eq)]
pub struct MessagePackValue {
    encoded: Vec<u8>,
    text: String,
}

/// The view of a MessagePack value: its encoding and its text.
pub struct MessagePackView {
    pub encoded: Seq<u8>,
    pub text: Seq<char>,
}

impl View for MessagePackValue {
    type V = MessagePackView;

    closed spec fn view(&self) -> MessagePackView {
        MessagePackView { encoded: self.encoded@, text: self.text@ }
    }
}

/// The view of the first value encoded in `bytes`, when one can be read.
pub open spec fn spec_read(bytes: Seq<u8>) -> Option<MessagePackView> {
    match rmpv_read_value(bytes) {
        Some((rest, text)) => Some(MessagePackView { encoded: bytes.take(bytes.len() - rest), text }),
        None => None,
    }
}

fn prefix(bytes: &[u8], len: usize) -> (front: Vec<u8>)
    requires
        len <= bytes@.len(),
    ensures
        front@ == bytes@.take(len as int),
{
    let mut front: Vec<u8> = Vec::new();
    let mut i: usize = 0;
    while i < len
        invariant
            i <= len <= bytes@.len(),
            front@ == bytes@.take(i as int),
        decreases len - i,
    {
        front.push(bytes[i]);
        proof {
            assert(bytes@.take(i + 1) =~= bytes@.take(i as int).push(bytes@[i as int]));
        }
        i += 1;
    }
    front
}

impl MessagePackValue {
    /// Reads the first value encoded in `bytes`.
    pub fn read(bytes: &[u8]) -> (value: Option<MessagePackValue>)
        ensures
            value is Some <==> spec_read(bytes@) is Some,
            value matches Some(v) ==> spec_read(bytes@) == Some(v@),
    {
        match rmpv_read(bytes) {
            Some((rest, text)) => Some(MessagePackValue { encoded: prefix(bytes, bytes.len() - rest), text }),
            None => None,
        }
    }

    /// The value's text.
    pub fn as_str(&self) -> (text: &str)
        ensures
            text@ == self@.text,
    {
        self.text.as_str()
    }

    /// The value's encoding.
    pub fn encoded(&self) -> (bytes: &[u8])
        ensures
            bytes@ == self@.encoded,
    {
        self.encoded.as_slice()
    }

    /// The element `index` of an array.
    pub fn element(&self, index: usize) -> (element: Option<MessagePackValue>)
        ensures
            element is Some <==> (rmpv_array_element(self@.encoded, index as nat) matches Some(e) && spec_read(
                e,
            ) is Some),
            element matches Some(e) ==> spec_read(rmpv_array_element(self@.encoded, index as nat)->0) == Some(e@),
    {
        match rmpv_element(self.encoded.as_slice(), index) {
            Some(bytes) => MessagePackValue::read(bytes.as_slice()),
            None => None,
        }
    }

    /// The number of entries of a map.
    pub fn entry_count(&self) -> (count: Option<usize>)
        ensures
            count is Some <==> rmpv_map_len(self@.encoded) is Some,
            count matches Some(n) ==> rmpv_map_len(self@.encoded) == Some(n as nat),
    {
        rmpv_entry_count(self.encoded.as_slice())
    }

    /// The entry `index` of a map.
    pub fn entry(&self, index: usize) -> (entry: Option<(MapKey, Vec<u8>)>)
        ensures
            entry_view(entry) == rmpv_map_entry(self@.encoded, index as nat),
    {
        rmpv_entry(self.encoded.as_slice(), index)
    }
}

impl Clone for MessagePackValue {
    fn clone(&self) -> (copy: Self)
        ensures
            copy@ == self@,
    {
        MessagePackValue { encoded: self.encoded.clone(), text: self.text.clone() }
    }
}

/// Tries to read a MessagePack value from a payload. The value's text has to
/// be at least as long as the bytes left after it; otherwise data seems to be
/// missing and the payload is unlikely MessagePack.
pub fn decode(payload: &[u8]) -> (value: Option<MessagePackValue>)
    ensures
        value is Some <==> spec_decode(payload@) is Some,
        value matches Some(v) ==> spec_decode(payload@) == Some((v@.encoded, v@.text)),
{
    match rmpv_read(payload) {
        Some((rest, text)) => {
            if text.as_str().len() < rest {
                None
            } else {
                Some(MessagePackValue { encoded: prefix(payload, payload.len() - rest), text })
            }
        },
        None => None,
    }
}

/// What `decode_messagepack` makes of `bytes`: what `decode` makes of
/// them, unless some map in the value has two keys with the same name.
pub open spec fn spec_decode_messagepack(bytes: Seq<u8>) -> Option<(Seq<u8>, Seq<char>)> {
    match spec_decode(bytes) {
        None => None,
        Some(value) => if nested_duplicate_keys(bytes, MAX_NESTING as nat) {
            None
        } else {
            Some(value)
        },
    }
}

/// Tries to read a MessagePack value from a payload, as `decode` does, and
/// refuses values with a map that has two keys with the same name: they can
/// not be shown as a tree.
pub fn decode_messagepack(payload: &[u8]) -> (value: Option<MessagePackValue>)
    ensures
        value is Some <==> spec_decode_messagepack(payload@) is Some,
        value matches Some(v) ==> spec_decode_messagepack(payload@) == Some((v@.encoded, v@.text)),
{
    let value = decode(payload);
    if value.is_none() {
        return None;
    }
    if nested_duplicates(payload, MAX_NESTING) {
        None
    } else {
        value
    }
}

} // verus!
