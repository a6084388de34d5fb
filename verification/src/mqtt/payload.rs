//! Payloads as the first interactive view and the log read them: JSON,
//! MessagePack, text, or bytes that are no UTF-8.
use vstd::prelude::*;
use vstd::utf8::{decode_utf8, valid_utf8};

use crate::decimal::{decimal, pad_left, pad_left_str, spec_decimal};
use crate::payload::json::{serde_json_compact, JsonValue};
use crate::payload::messagepack::{MessagePackValue, MessagePackView};
use crate::payload::utf8_decode;

pub use crate::payload::messagepack::{decode_messagepack, spec_decode_messagepack};

verus! {

/// A payload as read.
#[derive(Debug, PartialEq, Eq)]
pub enum Payload {
    Json(JsonValue),
    MessagePack(MessagePackValue),
    /// The bytes are no UTF-8; holds the reason.
    NotUtf8(String),
    String(String),
}

/// The view of a payload.
pub enum LinePayloadView {
    Json(Seq<char>),
    MessagePack(MessagePackView),
    NotUtf8(Seq<char>),
    String(Seq<char>),
}

impl View for Payload {
    type V = LinePayloadView;

    open spec fn view(&self) -> LinePayloadView {
        match self {
            Payload::Json(j) => LinePayloadView::Json(j@),
            Payload::MessagePack(m) => LinePayloadView::MessagePack(m@),
            Payload::NotUtf8(e) => LinePayloadView::NotUtf8(e@),
            Payload::String(s) => LinePayloadView::String(s@),
        }
    }
}

/// How a payload is read: valid UTF-8 is JSON when it parses as JSON and
/// text otherwise; other bytes are MessagePack when they decode as such.
pub open spec fn spec_new(bytes: Seq<u8>, payload: LinePayloadView) -> bool {
    if valid_utf8(bytes) {
        let text = decode_utf8(bytes);
        payload == match serde_json_compact(text) {
            Some(j) => LinePayloadView::Json(j),
            None => LinePayloadView::String(text),
        }
    } else {
        match spec_decode_messagepack(bytes) {
            Some((encoded, text)) => payload == LinePayloadView::MessagePack(
                MessagePackView { encoded, text },
            ),
            None => payload is NotUtf8,
        }
    }
}

/// The one line a payload is shown in, after its size.
pub open spec fn spec_oneline(payload: LinePayloadView, size: nat) -> Seq<char> {
    let head = "Payload("@ + pad_left(spec_decimal(size), 3);
    match payload {
        LinePayloadView::Json(j) => head + "): "@ + j,
        LinePayloadView::MessagePack(m) => head + "): "@ + m.text,
        LinePayloadView::NotUtf8(reason) => head + ") is not valid UTF-8: "@ + reason,
        LinePayloadView::String(s) => head + "): "@ + s,
    }
}

impl Payload {
    /// Reads a payload.
    pub fn new(payload: Vec<u8>) -> (p: Payload)
        ensures
            spec_new(payload@, p@),
    {
        match utf8_decode(payload) {
            Ok(text) => match JsonValue::parse(text.as_str()) {
                Some(json) => Payload::Json(json),
                None => Payload::String(text),
            },
            Err((bytes, reason)) => match decode_messagepack(bytes.as_slice()) {
                Some(value) => Payload::MessagePack(value),
                None => Payload::NotUtf8(reason),
            },
        }
    }

    /// The payload in one line, with its size in bytes right-aligned in
    /// three columns.
    pub fn format_oneline(&self, size: usize) -> (line: String)
        ensures
            line@ == spec_oneline(self@, size as nat),
    {
        let mut line = String::from_str("Payload(");
        line.append(pad_left_str(decimal(size).as_str(), 3).as_str());
        match self {
            Payload::Json(json) => {
                line.append("): ");
                line.append(json.as_str());
            },
            Payload::MessagePack(messagepack) => {
                line.append("): ");
                line.append(messagepack.as_str());
            },
            Payload::NotUtf8(reason) => {
                line.append(") is not valid UTF-8: ");
                line.append(reason.as_str());
            },
            Payload::String(text) => {
                line.append("): ");
                line.append(text.as_str());
            },
        }
        line
    }
}

} // verus!
