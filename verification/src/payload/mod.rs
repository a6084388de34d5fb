//! MQTT payloads: JSON, MessagePack, text or raw bytes.
use vstd::prelude::*;
use vstd::utf8::{decode_utf8, valid_utf8};

use crate::decimal::{decimal, spec_decimal};

pub use self::json::JsonValue;
pub use self::json_selector::JsonSelector;
pub use self::messagepack::{MessagePackValue, MessagePackView};

pub mod json;
pub mod json_selector;
pub mod messagepack;
pub mod tree;

verus! {

/// `String::from_utf8`: the text when the bytes are valid UTF-8, otherwise
/// the bytes given back (`FromUtf8Error::into_bytes`) and the text of the
/// error (`Display` of `FromUtf8Error::utf8_error`). Nothing is stated of
/// the error's text.
#[verifier::external_body]
pub(crate) fn utf8_decode(bytes: Vec<u8>) -> (text: Result<String, (Vec<u8>, String)>)
    ensures
        text matches Ok(s) ==> valid_utf8(bytes@) && s@ == decode_utf8(bytes@),
        text matches Err((b, _)) ==> !valid_utf8(bytes@) && b@ == bytes@,
{
    String::from_utf8(bytes).map_err(|err| {
        let reason = err.utf8_error().to_string();
        (err.into_bytes(), reason)
    })
}

/// A payload as it is shown: JSON, MessagePack, text or raw bytes.
#[derive(Debug, PartialEq, Eq)]
pub enum Payload {
    /// Might be truncated
    Binary(Vec<u8>),
    Json(JsonValue),
    MessagePack(MessagePackValue),
    /// Might be truncated
    String(String),
}

/// The view of a payload.
pub enum PayloadView {
    Binary(Seq<u8>),
    Json(Seq<char>),
    MessagePack(MessagePackView),
    String(Seq<char>),
}

impl View for Payload {
    type V = PayloadView;

    open spec fn view(&self) -> PayloadView {
        match self {
            Payload::Binary(b) => PayloadView::Binary(b@),
            Payload::Json(j) => PayloadView::Json(j@),
            Payload::MessagePack(m) => PayloadView::MessagePack(m@),
            Payload::String(s) => PayloadView::String(s@),
        }
    }
}

/// How a whole payload is read: valid UTF-8 is JSON when it parses as JSON
/// and text otherwise; other bytes are MessagePack when they decode as such
/// and raw bytes otherwise.
pub open spec fn spec_unlimited(bytes: Seq<u8>) -> PayloadView {
    if valid_utf8(bytes) {
        let text = decode_utf8(bytes);
        match json::serde_json_compact(text) {
            Some(j) => PayloadView::Json(j),
            None => PayloadView::String(text),
        }
    } else {
        match messagepack::spec_decode(bytes) {
            Some((encoded, text)) => PayloadView::MessagePack(MessagePackView { encoded, text }),
            None => PayloadView::Binary(bytes),
        }
    }
}

/// How a payload is read when it may be cut to `limit` bytes: a longer
/// payload is cut and kept as text or raw bytes, without looking for JSON or
/// MessagePack.
pub open spec fn spec_truncated(bytes: Seq<u8>, limit: nat) -> PayloadView {
    if bytes.len() > limit {
        let cut = bytes.take(limit as int);
        if valid_utf8(cut) {
            PayloadView::String(decode_utf8(cut))
        } else {
            PayloadView::Binary(cut)
        }
    } else {
        spec_unlimited(bytes)
    }
}

/// A payload that fits the limit is read as a whole.
pub proof fn lemma_short_payload_is_not_cut(bytes: Seq<u8>, limit: nat)
    requires
        bytes.len() <= limit,
    ensures
        spec_truncated(bytes, limit) == spec_unlimited(bytes),
{
}

/// A payload that is cut keeps exactly `limit` bytes, as text or raw bytes.
pub proof fn lemma_cut_payload_keeps_limit(bytes: Seq<u8>, limit: nat)
    requires
        bytes.len() > limit,
    ensures
        match spec_truncated(bytes, limit) {
            PayloadView::String(text) => valid_utf8(bytes.take(limit as int)) && text == decode_utf8(
                bytes.take(limit as int),
            ),
            PayloadView::Binary(kept) => kept.len() == limit,
            _ => false,
        },
{
}

/// The bytes written in decimal and separated by `, `.
pub open spec fn spec_joined_bytes(bytes: Seq<u8>) -> Seq<char>
    decreases bytes.len(),
{
    if bytes.len() == 0 {
        Seq::empty()
    } else if bytes.len() == 1 {
        spec_decimal(bytes[0] as nat)
    } else {
        spec_joined_bytes(bytes.drop_last()) + seq![',', ' '] + spec_decimal(bytes.last() as nat)
    }
}

/// The bytes as a list, as `Debug` writes a byte slice.
pub open spec fn spec_bytes_text(bytes: Seq<u8>) -> Seq<char> {
    seq!['['] + spec_joined_bytes(bytes) + seq![']']
}

/// The bytes as a list with one byte per line, as the alternate `Debug`
/// writes a byte slice.
pub open spec fn spec_pretty_bytes(bytes: Seq<u8>) -> Seq<char> {
    if bytes.len() == 0 {
        seq!['[', ']']
    } else {
        spec_pretty_bytes_lines(bytes) + seq![']']
    }
}

/// The opening bracket and the lines of the bytes, each indented by four
/// spaces and ended by a comma and a line break.
pub open spec fn spec_pretty_bytes_lines(bytes: Seq<u8>) -> Seq<char>
    decreases bytes.len(),
{
    if bytes.len() == 0 {
        seq!['[', '\n']
    } else {
        spec_pretty_bytes_lines(bytes.drop_last()) + seq![' ', ' ', ' ', ' '] + spec_decimal(bytes.last() as nat)
            + seq![',', '\n']
    }
}

/// The text a payload is shown as.
pub open spec fn spec_payload_text(p: PayloadView) -> Seq<char> {
    match p {
        PayloadView::Binary(b) => spec_bytes_text(b),
        PayloadView::Json(j) => j,
        PayloadView::MessagePack(m) => m.text,
        PayloadView::String(s) => s,
    }
}

/// Writes bytes as a list, as `Debug` writes a byte slice.
pub fn bytes_text(bytes: &[u8]) -> (text: String)
    ensures
        text@ == spec_bytes_text(bytes@),
{
    let mut text = String::new();
    proof {
        reveal_strlit("[");
        reveal_strlit(", ");
        reveal_strlit("]");
    }
    text.append("[");
    let mut i: usize = 0;
    while i < bytes.len()
        invariant
            i <= bytes@.len(),
            text@ == seq!['['] + spec_joined_bytes(bytes@.take(i as int)),
        decreases bytes.len() - i,
    {
        proof {
            reveal_strlit(", ");
            assert(bytes@.take(i + 1).drop_last() =~= bytes@.take(i as int));
            if i == 0 {
                assert(bytes@.take(0).len() == 0);
            }
        }
        if i > 0 {
            text.append(", ");
        }
        let digits = decimal(bytes[i] as usize);
        text.append(digits.as_str());
        proof {
            if i == 0 {
                assert(spec_joined_bytes(bytes@.take(0)) =~= Seq::<char>::empty());
                assert(text@ =~= seq!['['] + spec_joined_bytes(bytes@.take(1)));
            } else {
                assert(text@ =~= seq!['['] + spec_joined_bytes(bytes@.take(i + 1)));
            }
        }
        i += 1;
    }
    proof {
        reveal_strlit("]");
        assert(bytes@.take(bytes@.len() as int) =~= bytes@);
    }
    text.append("]");
    text
}

/// Writes bytes as a list with one byte per line, as the alternate `Debug`
/// writes a byte slice.
pub fn pretty_bytes(bytes: &[u8]) -> (text: String)
    ensures
        text@ == spec_pretty_bytes(bytes@),
{
    if bytes.len() == 0 {
        proof {
            reveal_strlit("[]");
        }
        return String::from_str("[]");
    }
    let mut text = String::new();
    proof {
        reveal_strlit("[\n");
    }
    text.append("[\n");
    let mut i: usize = 0;
    while i < bytes.len()
        invariant
            i <= bytes@.len(),
            text@ == spec_pretty_bytes_lines(bytes@.take(i as int)),
        decreases bytes.len() - i,
    {
        proof {
            reveal_strlit("    ");
            reveal_strlit(",\n");
            assert(bytes@.take(i + 1).drop_last() =~= bytes@.take(i as int));
            if i == 0 {
                assert(bytes@.take(0) =~= Seq::<u8>::empty());
            }
        }
        text.append("    ");
        text.append(decimal(bytes[i] as usize).as_str());
        text.append(",\n");
        i += 1;
    }
    proof {
        reveal_strlit("]");
        assert(bytes@.take(i as int) =~= bytes@);
    }
    text.append("]");
    text
}

impl Payload {
    /// Reads a payload, cutting it to `limit` bytes when it is longer.
    /// Longer payloads are not inspected for JSON or MessagePack.
    pub fn truncated(payload: Vec<u8>, limit: usize) -> (p: Payload)
        ensures
            p@ == spec_truncated(payload@, limit as nat),
    {
        if payload.len() > limit {
            let mut payload = payload;
            payload.truncate(limit);
            match utf8_decode(payload) {
                Ok(text) => Payload::String(text),
                Err((bytes, _)) => Payload::Binary(bytes),
            }
        } else {
            Payload::unlimited(payload)
        }
    }

    /// Reads a whole payload.
    pub fn unlimited(payload: Vec<u8>) -> (p: Payload)
        ensures
            p@ == spec_unlimited(payload@),
    {
        match utf8_decode(payload) {
            Ok(text) => match JsonValue::parse(text.as_str()) {
                Some(json) => Payload::Json(json),
                None => Payload::String(text),
            },
            Err((bytes, _)) => match messagepack::decode(bytes.as_slice()) {
                Some(value) => Payload::MessagePack(value),
                None => Payload::Binary(bytes),
            },
        }
    }

    /// The text a payload is shown as in its pretty form: JSON indented,
    /// raw bytes one per line, MessagePack and text as they are.
    pub fn to_pretty_string(&self) -> (text: String)
        ensures
            text@ == match self@ {
                PayloadView::Binary(bytes) => spec_pretty_bytes(bytes),
                PayloadView::Json(json) => match json::serde_json_pretty(json) {
                    Some(pretty) => pretty,
                    None => json,
                },
                PayloadView::MessagePack(value) => value.text,
                PayloadView::String(text) => text,
            },
    {
        match self {
            Payload::Binary(bytes) => pretty_bytes(bytes.as_slice()),
            Payload::Json(json) => json.to_pretty_string(),
            Payload::MessagePack(value) => String::from_str(value.as_str()),
            Payload::String(text) => text.clone(),
        }
    }

    /// The text the payload is shown as: JSON compactly, MessagePack by its
    /// text, text as it is and raw bytes as a list of numbers.
    pub fn to_string(&self) -> (text: String)
        ensures
            text@ == spec_payload_text(self@),
    {
        match self {
            Payload::Binary(bytes) => bytes_text(bytes.as_slice()),
            Payload::Json(json) => String::from_str(json.as_str()),
            Payload::MessagePack(value) => String::from_str(value.as_str()),
            Payload::String(text) => text.clone(),
        }
    }
}

} // verus!
