//! The footer line: the keys that work in the element in focus, and on the
//! right the version and the broker, as far as there is room.
use vstd::prelude::*;

use crate::cli::Broker;
use crate::interactive::ui::ElementInFocus;

verus! {

/// The name and version of the program.
pub fn version_text() -> (text: &'static str)
    ensures
        text@ == "mqttui 0.22.1"@,
{
    "mqttui 0.22.1"
}

/// The number of bytes of a text in UTF-8, as `str::len` reports it.
pub open spec fn byte_len(text: Seq<char>) -> usize {
    vstd::utf8::encode_utf8(text).len() as usize
}

/// The texts of the footer.
pub struct Footer {
    broker: String,
    full_info: String,
}

impl Footer {
    /// The broker as shown.
    pub closed spec fn spec_broker(&self) -> Seq<char> {
        self.broker@
    }

    /// The version and the broker.
    pub closed spec fn spec_full_info(&self) -> Seq<char> {
        self.full_info@
    }

    /// The footer texts for a broker.
    pub fn new(broker: &Broker) -> (footer: Self)
        ensures
            footer.spec_broker() == broker.spec_text(),
            footer.spec_full_info() == "mqttui 0.22.1"@ + " @ "@ + broker.spec_text(),
    {
        let text = broker.to_string();
        let mut full_info = String::from_str(version_text());
        full_info.append(" @ ");
        full_info.append(text.as_str());
        Footer { broker: text, full_info }
    }

    /// The text shown on the right of a footer `area_width` columns wide whose
    /// key hints take `line_width` columns: the longest of version and
    /// broker, broker, version that leaves a column free, or nothing.
    pub open spec fn spec_right_text(&self, area_width: u16, line_width: usize) -> Option<Seq<char>> {
        let remaining = area_width - line_width;
        if remaining > byte_len(self.spec_full_info()) {
            Some(self.spec_full_info())
        } else if remaining > byte_len(self.spec_broker()) {
            Some(self.spec_broker())
        } else if remaining > byte_len("mqttui 0.22.1"@) {
            Some("mqttui 0.22.1"@)
        } else {
            None
        }
    }

    /// The text shown on the right of the footer.
    pub fn right_text(&self, area_width: u16, line_width: usize) -> (text: Option<String>)
        requires
            line_width <= area_width,
        ensures
            match text {
                Some(t) => self.spec_right_text(area_width, line_width) == Some(t@),
                None => self.spec_right_text(area_width, line_width) is None,
            },
            text matches Some(t) ==> byte_len(t@) < area_width - line_width,
    {
        let remaining = area_width as usize - line_width;
        let version = version_text();
        let full_len = self.full_info.as_str().len();
        let broker_len = self.broker.as_str().len();
        let version_len = version.len();
        if remaining > full_len {
            Some(self.full_info.clone())
        } else if remaining > broker_len {
            Some(self.broker.clone())
        } else if remaining > version_len {
            Some(String::from_str(version))
        } else {
            None
        }
    }
}

/// How a part of the footer line is styled.
#[derive(Clone, Copy, Debug, PartialEq, Eq)]
pub enum SpanStyle {
    /// A key, highlighted.
    Key,
    /// What the key before it does.
    Text,
    /// The label in front of the search text, highlighted.
    SearchLabel,
    /// Unstyled text.
    Plain,
}

/// A part of the footer line.
#[derive(Clone, Debug, PartialEq, Eq)]
pub struct FooterSpan {
    pub style: SpanStyle,
    pub text: String,
}

/// A key and what it does.
pub open spec fn key_hint(key: Seq<char>, text: Seq<char>) -> Seq<(SpanStyle, Seq<char>)> {
    seq![(SpanStyle::Key, key), (SpanStyle::Text, text)]
}

/// The parts of the footer line for the element in focus.
pub open spec fn footer_spans(
    focus: ElementInFocus,
    has_selected_topic: bool,
    can_switch_to_payload: bool,
    can_switch_to_history_table: bool,
    search: Seq<char>,
) -> Seq<(SpanStyle, Seq<char>)> {
    match focus {
        ElementInFocus::TopicOverview => key_hint(" q "@, " Quit "@) + key_hint(" / "@, " Search "@)
            + (if has_selected_topic {
            key_hint(" Del "@, " Clean retained "@)
        } else {
            seq![]
        }) + (if can_switch_to_payload {
            key_hint(" Tab "@, " Switch to Payload "@)
        } else if can_switch_to_history_table {
            key_hint(" Tab "@, " Switch to History "@)
        } else {
            seq![]
        }),
        ElementInFocus::TopicSearch => key_hint(" ↑ "@, " Before "@) + key_hint(" ↓ "@, " Next "@)
            + key_hint(" Enter "@, " Open All "@) + key_hint(" Esc "@, " Clear "@) + seq![
            (SpanStyle::SearchLabel, " Search: "@),
            (SpanStyle::Plain, " "@),
            (SpanStyle::Plain, search),
        ],
        ElementInFocus::Payload => key_hint(" q "@, " Quit "@) + (if can_switch_to_history_table {
            key_hint(" Tab "@, " Switch to History "@)
        } else {
            key_hint(" Tab "@, " Switch to Topics "@)
        }),
        ElementInFocus::HistoryTable => key_hint(" q "@, " Quit "@) + key_hint(
            " Tab "@,
            " Switch to Topics "@,
        ),
        ElementInFocus::CleanRetainedPopup(_) => key_hint(" Enter "@, " Clean topic tree "@)
            + key_hint(" Any "@, " Abort "@),
    }
}

/// The style and characters of the parts of a line.
pub open spec fn span_views(spans: Seq<FooterSpan>) -> Seq<(SpanStyle, Seq<char>)> {
    spans.map_values(|span: FooterSpan| (span.style, span.text@))
}

fn push_span(spans: &mut Vec<FooterSpan>, style: SpanStyle, text: &str)
    ensures
        span_views(final(spans)@) == span_views(old(spans)@).push((style, text@)),
{
    spans.push(FooterSpan { style, text: String::from_str(text) });
    proof {
        assert(span_views(final(spans)@) =~= span_views(old(spans)@).push((style, text@)));
    }
}

fn push_hint(spans: &mut Vec<FooterSpan>, key: &str, text: &str)
    ensures
        span_views(final(spans)@) == span_views(old(spans)@) + key_hint(key@, text@),
{
    push_span(spans, SpanStyle::Key, key);
    push_span(spans, SpanStyle::Text, text);
    proof {
        assert(span_views(final(spans)@) =~= span_views(old(spans)@) + key_hint(key@, text@));
    }
}

/// The parts of the footer line: the keys that work in the element in focus
/// and what they do; while searching also the search text.
pub fn footer_line(
    focus: &ElementInFocus,
    has_selected_topic: bool,
    can_switch_to_payload: bool,
    can_switch_to_history_table: bool,
    search: &str,
) -> (spans: Vec<FooterSpan>)
    ensures
        span_views(spans@) == footer_spans(
            *focus,
            has_selected_topic,
            can_switch_to_payload,
            can_switch_to_history_table,
            search@,
        ),
{
    let mut spans: Vec<FooterSpan> = Vec::new();
    proof {
        assert(span_views(spans@) =~= seq![]);
    }
    match focus {
        ElementInFocus::TopicOverview => {
            push_hint(&mut spans, " q ", " Quit ");
            push_hint(&mut spans, " / ", " Search ");
            if has_selected_topic {
                push_hint(&mut spans, " Del ", " Clean retained ");
            }
            if can_switch_to_payload {
                push_hint(&mut spans, " Tab ", " Switch to Payload ");
            } else if can_switch_to_history_table {
                push_hint(&mut spans, " Tab ", " Switch to History ");
            }
        },
        ElementInFocus::TopicSearch => {
            push_hint(&mut spans, " ↑ ", " Before ");
            push_hint(&mut spans, " ↓ ", " Next ");
            push_hint(&mut spans, " Enter ", " Open All ");
            push_hint(&mut spans, " Esc ", " Clear ");
            push_span(&mut spans, SpanStyle::SearchLabel, " Search: ");
            push_span(&mut spans, SpanStyle::Plain, " ");
            push_span(&mut spans, SpanStyle::Plain, search);
        },
        ElementInFocus::Payload => {
            push_hint(&mut spans, " q ", " Quit ");
            if can_switch_to_history_table {
                push_hint(&mut spans, " Tab ", " Switch to History ");
            } else {
                push_hint(&mut spans, " Tab ", " Switch to Topics ");
            }
        },
        ElementInFocus::HistoryTable => {
            push_hint(&mut spans, " q ", " Quit ");
            push_hint(&mut spans, " Tab ", " Switch to Topics ");
        },
        ElementInFocus::CleanRetainedPopup(_) => {
            push_hint(&mut spans, " Enter ", " Clean topic tree ");
            push_hint(&mut spans, " Any ", " Abort ");
        },
    }
    proof {
        assert(span_views(spans@) =~= footer_spans(
            *focus,
            has_selected_topic,
            can_switch_to_payload,
            can_switch_to_history_table,
            search@,
        ));
    }
    spans
}

} // verus!
