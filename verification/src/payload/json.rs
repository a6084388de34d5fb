//! JSON payloads, held as the compact text of their value.
use vstd::prelude::*;

verus! {

/// The compact text (`Display` of `serde_json::Value`) of the JSON value
/// that `text` parses into, or `None` when `text` is no JSON.
pub uninterp spec fn serde_json_compact(text: Seq<char>) -> Option<Seq<char>>;

/// The compact text of the member `key` of the JSON object written in
/// `text`, or `None` when there is no such member (as `Value::get` with a
/// key).
pub uninterp spec fn serde_json_member(text: Seq<char>, key: Seq<char>) -> Option<Seq<char>>;

/// The compact text of the element `index` of the JSON array written in
/// `text`, or `None` when there is no such element (as `Value::get` with an
/// index).
pub uninterp spec fn serde_json_element(text: Seq<char>, index: nat) -> Option<Seq<char>>;

/// The text `serde_json` writes for the JSON value that `text` parses into
/// when asked for its pretty form (`{:#}`), or `None` when `text` is no
/// JSON.
pub uninterp spec fn serde_json_pretty(text: Seq<char>) -> Option<Seq<char>>;

/// The members of the JSON object written in `text`, in the order in which
/// a `serde_json::Map` holds them: each key and its value written compactly.
pub uninterp spec fn serde_json_members(text: Seq<char>) -> Option<Seq<(Seq<char>, Seq<char>)>>;

/// The elements of the JSON array written in `text`, each written
/// compactly.
pub uninterp spec fn serde_json_items(text: Seq<char>) -> Option<Seq<Seq<char>>>;

/// The character sequence an optional string holds.
pub open spec fn opt_view(s: Option<String>) -> Option<Seq<char>> {
    match s {
        Some(s) => Some(s@),
        None => None,
    }
}

/// Parses `text` with `serde_json::from_str` into a `serde_json::Value` and
/// writes that value compactly with its `Display`; `None` when parsing fails.
#[verifier::external_body]
fn serde_json_reformat(text: &str) -> (compact: Option<String>)
    ensures
        opt_view(compact) == serde_json_compact(text@),
{
    serde_json::from_str::<serde_json::Value>(text).ok().map(|value| value.to_string())
}

/// Parses `text` with `serde_json::from_str` into a `serde_json::Value` and
/// writes it in its pretty form, indented over several lines (`{:#}`).
#[verifier::external_body]
fn serde_json_pretty_text(text: &str) -> (pretty: Option<String>)
    ensures
        opt_view(pretty) == serde_json_pretty(text@),
{
    serde_json::from_str::<serde_json::Value>(text).ok().map(|value| format!("{value:#}"))
}

/// Parses `text` with `serde_json::from_str` and looks up the member `key`
/// with `serde_json::Value::get`, written compactly.
#[verifier::external_body]
fn serde_json_get_member(text: &str, key: &str) -> (member: Option<String>)
    ensures
        opt_view(member) == serde_json_member(text@, key@),
{
    let value = serde_json::from_str::<serde_json::Value>(text).ok()?;
    value.get(key).map(|member| member.to_string())
}

/// Parses `text` with `serde_json::from_str` and looks up the element
/// `index` with `serde_json::Value::get`, written compactly.
#[verifier::external_body]
fn serde_json_get_element(text: &str, index: usize) -> (element: Option<String>)
    ensures
        opt_view(element) == serde_json_element(text@, index as nat),
{
    let value = serde_json::from_str::<serde_json::Value>(text).ok()?;
    value.get(index).map(|element| element.to_string())
}

/// Parses `text` with `serde_json::from_str` and lists the members of it as
/// an object (`Value::as_object`): each key, and the value written with its
/// `Display`.
#[verifier::external_body]
pub(crate) fn serde_json_list_members(text: &str) -> (members: Option<Vec<(String, String)>>)
    ensures
        match members {
            Some(v) => serde_json_members(text@) == Some(v@.map_values(|m: (String, String)| (m.0@, m.1@))),
            None => serde_json_members(text@) is None,
        },
{
    let value = serde_json::from_str::<serde_json::Value>(text).ok()?;
    Some(value.as_object()?.iter().map(|(key, member)| (key.clone(), member.to_string())).collect())
}

/// Parses `text` with `serde_json::from_str` and lists the elements of it as
/// an array (`Value::as_array`), each written with its `Display`.
#[verifier::external_body]
pub(crate) fn serde_json_list_items(text: &str) -> (items: Option<Vec<String>>)
    ensures
        match items {
            Some(v) => serde_json_items(text@) == Some(v@.map_values(|e: String| e@)),
            None => serde_json_items(text@) is None,
        },
{
    let value = serde_json::from_str::<serde_json::Value>(text).ok()?;
    Some(value.as_array()?.iter().map(ToString::to_string).collect())
}

/// A JSON value, held as its compact text.
#[derive(Debug, PartialEq, Eq)]
pub struct JsonValue {
    text: String,
}

impl View for JsonValue {
    type V = Seq<char>;

    closed spec fn view(&self) -> Seq<char> {
        self.text@
    }
}

impl JsonValue {
    /// Parses JSON text; `None` when it is no JSON.
    pub fn parse(text: &str) -> (json: Option<JsonValue>)
        ensures
            json is Some <==> serde_json_compact(text@) is Some,
            json matches Some(j) ==> serde_json_compact(text@) == Some(j@),
    {
        match serde_json_reformat(text) {
            Some(compact) => Some(JsonValue { text: compact }),
            None => None,
        }
    }

    /// The compact text of the value.
    /// The value in its pretty form, indented over several lines; the
    /// compact text when `serde_json` does not read it back.
    pub fn to_pretty_string(&self) -> (text: String)
        ensures
            text@ == match serde_json_pretty(self@) {
                Some(pretty) => pretty,
                None => self@,
            },
    {
        match serde_json_pretty_text(self.text.as_str()) {
            Some(pretty) => pretty,
            None => self.text.clone(),
        }
    }

    pub fn as_str(&self) -> (text: &str)
        ensures
            text@ == self@,
    {
        self.text.as_str()
    }

    /// The member `key` of an object.
    pub fn member(&self, key: &str) -> (member: Option<JsonValue>)
        ensures
            member is Some <==> serde_json_member(self@, key@) is Some,
            member matches Some(m) ==> serde_json_member(self@, key@) == Some(m@),
    {
        match serde_json_get_member(self.text.as_str(), key) {
            Some(text) => Some(JsonValue { text }),
            None => None,
        }
    }

    /// The element `index` of an array.
    pub fn element(&self, index: usize) -> (element: Option<JsonValue>)
        ensures
            element is Some <==> serde_json_element(self@, index as nat) is Some,
            element matches Some(e) ==> serde_json_element(self@, index as nat) == Some(e@),
    {
        match serde_json_get_element(self.text.as_str(), index) {
            Some(text) => Some(JsonValue { text }),
            None => None,
        }
    }
}

impl Clone for JsonValue {
    fn clone(&self) -> (copy: Self)
        ensures
            copy@ == self@,
    {
        JsonValue { text: self.text.clone() }
    }
}

} // verus!
