//! The header of the first interactive view: program, version and broker,
//! a connection error and the selected topic.
use vstd::prelude::*;

use crate::cli::Broker;

verus! {

/// The title line of the header.
pub struct InfoHeader {
    pub title: String,
}

/// The text of a line, when there is one.
pub open spec fn optional_line(prefix: Seq<char>, text: Option<&str>) -> Seq<Seq<char>> {
    match text {
        Some(t) => seq![prefix + t@],
        None => Seq::empty(),
    }
}

/// The characters of lines.
pub open spec fn line_views(lines: Seq<String>) -> Seq<Seq<char>> {
    lines.map_values(|line: String| line@)
}

fn push_line(lines: &mut Vec<String>, prefix: &str, text: &str)
    ensures
        line_views(final(lines)@) == line_views(old(lines)@).push(prefix@ + text@),
{
    let mut line = String::from_str(prefix);
    line.append(text);
    lines.push(line);
    proof {
        assert(line_views(final(lines)@) =~= line_views(old(lines)@).push(prefix@ + text@));
    }
}

impl InfoHeader {
    /// The header for a broker: `MQTT TUI`, the version and the broker as
    /// `Debug` shows it.
    pub fn new(broker: &Broker) -> (header: Self)
        ensures
            header.title@ == "MQTT TUI 0.22.1 @ "@ + broker.spec_debug_text(),
    {
        let mut title = String::from_str("MQTT TUI 0.22.1 @ ");
        title.append(broker.debug_text().as_str());
        InfoHeader { title }
    }

    /// The lines shown: the title, the connection error if there is one, and
    /// the selected topic if there is one.
    pub fn lines(&self, connection_error: Option<&str>, selected_topic: Option<&str>) -> (lines: Vec<String>)
        ensures
            line_views(lines@) == seq![self.title@] + optional_line("MQTT Connection Error: "@, connection_error)
                + optional_line(""@, selected_topic),
    {
        let mut lines: Vec<String> = Vec::new();
        push_line(&mut lines, "", self.title.as_str());
        proof {
            reveal_strlit("");
            assert(""@ + self.title@ =~= self.title@);
        }
        if let Some(error) = connection_error {
            push_line(&mut lines, "MQTT Connection Error: ", error);
        }
        if let Some(topic) = selected_topic {
            push_line(&mut lines, "", topic);
        }
        proof {
            assert(line_views(lines@) =~= seq![self.title@] + optional_line(
                "MQTT Connection Error: "@,
                connection_error,
            ) + optional_line(""@, selected_topic));
        }
        lines
    }
}

/// The lines of the bordered header of the first interactive view: the
/// broker, the subscribed topic, the connection error and the selected
/// topic.
pub fn header_lines(
    broker: &Broker,
    subscribe_topic: &str,
    connection_error: Option<&str>,
    selected_topic: Option<&str>,
) -> (lines: Vec<String>)
    ensures
        line_views(lines@) == seq!["MQTT Broker: "@ + broker.spec_text(), "Subscribed Topic: "@ + subscribe_topic@]
            + optional_line("MQTT Connection Error: "@, connection_error) + optional_line(
            "Selected Topic: "@,
            selected_topic,
        ),
{
    let mut lines: Vec<String> = Vec::new();
    push_line(&mut lines, "MQTT Broker: ", broker.to_string().as_str());
    push_line(&mut lines, "Subscribed Topic: ", subscribe_topic);
    if let Some(error) = connection_error {
        push_line(&mut lines, "MQTT Connection Error: ", error);
    }
    if let Some(topic) = selected_topic {
        push_line(&mut lines, "Selected Topic: ", topic);
    }
    proof {
        assert(line_views(lines@) =~= seq!["MQTT Broker: "@ + broker.spec_text(), "Subscribed Topic: "@ + subscribe_topic@]
            + optional_line("MQTT Connection Error: "@, connection_error) + optional_line(
            "Selected Topic: "@,
            selected_topic,
        ));
    }
    lines
}

/// The title of the bordered header of the first interactive view.
pub fn header_title() -> (title: &'static str)
    ensures
        title@ == "MQTT TUI 0.22.1"@,
{
    "MQTT TUI 0.22.1"
}

} // verus!
