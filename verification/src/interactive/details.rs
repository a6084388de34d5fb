//! The history table next to the payload of the selected topic.
use vstd::prelude::*;

use crate::decimal::{decimal, spec_decimal};
use crate::interactive::keys::TableCommand;
use crate::interactive::ui::{sat_sub, Position, Rect};
use crate::mqtt::HistoryEntry;
use crate::payload::json_selector::{spec_get_json, spec_get_messagepack};
use crate::payload::{bytes_text, spec_bytes_text, JsonSelector, Payload, PayloadView};

verus! {

/// `a + b`, or `usize::MAX` when that does not fit.
pub open spec fn saturating_add(a: usize, b: usize) -> usize {
    if a + b > usize::MAX {
        usize::MAX
    } else {
        (a + b) as usize
    }
}

/// `a - b`, or 0 when `b` is bigger.
pub open spec fn saturating_sub(a: usize, b: usize) -> usize {
    if a < b {
        0
    } else {
        (a - b) as usize
    }
}

/// Which way the mouse wheel turned.
#[derive(Clone, Copy, Debug, PartialEq, Eq)]
pub enum ScrollDirection {
    Up,
    Down,
}

/// The selected row and the scroll offset of the history table.
///
/// The selection may point past the last row: the table shows the last row
/// then.
#[derive(Clone, Copy, Debug, PartialEq, Eq, Default)]
pub struct TableSelection {
    pub selected: Option<usize>,
    pub offset: usize,
}

impl TableSelection {
    /// The table after a command.
    pub open spec fn after(self, command: TableCommand) -> TableSelection {
        match command {
            TableCommand::Unselect => TableSelection { selected: None, ..self },
            TableCommand::Next => TableSelection {
                selected: Some(
                    match self.selected {
                        Some(row) => saturating_add(row, 1),
                        None => 0,
                    },
                ),
                ..self
            },
            TableCommand::Previous => TableSelection {
                selected: Some(
                    match self.selected {
                        Some(row) => saturating_sub(row, 1),
                        None => usize::MAX,
                    },
                ),
                ..self
            },
            TableCommand::First => TableSelection { selected: Some(0), ..self },
            TableCommand::Last => TableSelection { selected: Some(usize::MAX), ..self },
            TableCommand::ScrollUp(rows) => TableSelection {
                offset: saturating_sub(self.offset, rows),
                ..self
            },
            TableCommand::ScrollDown(rows) => TableSelection {
                offset: saturating_add(self.offset, rows),
                ..self
            },
        }
    }

    /// Runs a command. Returns whether the view has to be drawn again: when
    /// the table changed, and always after scrolling down.
    pub fn run(&mut self, command: TableCommand) -> (redraw: bool)
        ensures
            *final(self) == old(self).after(command),
            redraw == (command is ScrollDown || *final(self) != *old(self)),
    {
        match command {
            TableCommand::Unselect => {
                let changed = self.selected.is_some();
                self.selected = None;
                changed
            },
            TableCommand::Next => {
                let next = match self.selected {
                    Some(row) => row.saturating_add(1),
                    None => 0,
                };
                let changed = !matches!(self.selected, Some(row) if row == next);
                self.selected = Some(next);
                changed
            },
            TableCommand::Previous => {
                let previous = match self.selected {
                    Some(row) => row.saturating_sub(1),
                    None => usize::MAX,
                };
                let changed = !matches!(self.selected, Some(row) if row == previous);
                self.selected = Some(previous);
                changed
            },
            TableCommand::First => {
                let changed = !matches!(self.selected, Some(row) if row == 0);
                self.selected = Some(0);
                changed
            },
            TableCommand::Last => {
                let changed = !matches!(self.selected, Some(row) if row == usize::MAX);
                self.selected = Some(usize::MAX);
                changed
            },
            TableCommand::ScrollUp(rows) => {
                let before = self.offset;
                self.offset = self.offset.saturating_sub(rows);
                before != self.offset
            },
            TableCommand::ScrollDown(rows) => {
                self.offset = self.offset.saturating_add(rows);
                true
            },
        }
    }

    /// Scrolls by one row. Returns whether the offset changed.
    pub fn scroll(&mut self, direction: ScrollDirection) -> (changed: bool)
        ensures
            final(self).selected == old(self).selected,
            final(self).offset == (match direction {
                ScrollDirection::Down => saturating_add(old(self).offset, 1),
                ScrollDirection::Up => saturating_sub(old(self).offset, 1),
            }),
            changed == (final(self).offset != old(self).offset),
    {
        let before = self.offset;
        match direction {
            ScrollDirection::Down => self.offset = self.offset.saturating_add(1),
            ScrollDirection::Up => self.offset = self.offset.saturating_sub(1),
        }
        self.offset != before
    }
}

/// The row of the table a click hits, counted from the first shown row:
/// below the border and the header.
pub open spec fn visible_row(area: Rect, position: Position) -> u16 {
    sat_sub(sat_sub(position.y, area.y), 2)
}

/// The history table of the selected topic.
#[derive(Clone, Copy, Debug, PartialEq, Eq, Default)]
pub struct Details {
    pub table_state: TableSelection,
    /// Where the table was drawn last.
    pub last_table_area: Rect,
}

impl Details {
    /// The entry of a history of `len` entries that the table shows as
    /// selected.
    pub open spec fn shown_index(self, len: usize) -> usize {
        match self.table_state.selected {
            Some(row) if row < saturating_sub(len, 1) => row,
            _ => saturating_sub(len, 1),
        }
    }

    /// The entry of the history shown as selected: the selected row, but at
    /// most the last one; the last one when none is selected.
    pub fn selected_history_index(&self, topic_history_length: usize) -> (index: usize)
        ensures
            index == self.shown_index(topic_history_length),
    {
        let selected = match self.table_state.selected {
            Some(row) => row,
            None => usize::MAX,
        };
        let last = topic_history_length.saturating_sub(1);
        if selected < last {
            selected
        } else {
            last
        }
    }

    /// The spec of [`Self::table_index_of_click`].
    pub open spec fn click_index(self, position: Position) -> Option<usize> {
        if self.last_table_area.spec_contains(position) {
            Some((visible_row(self.last_table_area, position) + self.table_state.offset) as usize)
        } else {
            None
        }
    }

    /// Whether a click on `position` leads to an index that fits in `usize`.
    pub open spec fn click_fits(self, position: Position) -> bool {
        self.last_table_area.spec_contains(position) ==> visible_row(self.last_table_area, position)
            + self.table_state.offset <= usize::MAX
    }

    /// The index of the entry a click hits, when it hits the table.
    pub fn table_index_of_click(&self, position: Position) -> (index: Option<usize>)
        requires
            self.click_fits(position),
        ensures
            index == self.click_index(position),
    {
        let area = self.last_table_area;
        if !area.contains(position) {
            return None;
        }
        let visible_index = position.y.saturating_sub(area.y).saturating_sub(2);
        Some((visible_index as usize) + self.table_state.offset)
    }

    /// Handles a click: when it hits the table, selects the entry it hits and
    /// returns `true`.
    pub fn table_click(&mut self, position: Position) -> (hit: bool)
        requires
            old(self).click_fits(position),
        ensures
            hit == old(self).click_index(position) is Some,
            final(self).last_table_area == old(self).last_table_area,
            final(self).table_state.offset == old(self).table_state.offset,
            final(self).table_state.selected == (if hit {
                old(self).click_index(position)
            } else {
                old(self).table_state.selected
            }),
    {
        match self.table_index_of_click(position) {
            Some(index) => {
                self.table_state.selected = Some(index);
                true
            },
            None => false,
        }
    }
}

/// The entry shown as selected always exists in a history that is not
/// empty.
pub proof fn lemma_shown_index_in_bounds(details: Details, len: usize)
    requires
        len > 0,
    ensures
        details.shown_index(len) < len,
{
}

/// Selecting the next row and then the previous one gives back the row
/// selected before, unless the selection was at the very end.
pub proof fn lemma_next_then_previous(table: TableSelection)
    requires
        table.selected matches Some(row) && row < usize::MAX,
    ensures
        table.after(TableCommand::Next).after(TableCommand::Previous) == table,
{
}

/// Scrolling down one row and up again gives back the offset, unless it was
/// at the very end.
pub proof fn lemma_scroll_down_then_up(table: TableSelection, rows: usize)
    requires
        table.offset + rows <= usize::MAX,
    ensures
        table.after(TableCommand::ScrollDown(rows)).after(TableCommand::ScrollUp(rows)) == table,
{
}

/// The value column of the history table for an entry: of binary data the
/// byte at the selected address (or all bytes), of JSON and MessagePack the
/// part the payload view selects (or all of it), text as it is.
pub open spec fn spec_history_value(
    payload: PayloadView,
    binary_address: Option<usize>,
    selector: Seq<JsonSelector>,
) -> Seq<char> {
    match payload {
        PayloadView::Binary(data) => match binary_address {
            Some(address) if address < data.len() => spec_decimal(data[address as int] as nat),
            _ => spec_bytes_text(data),
        },
        PayloadView::Json(json) => match spec_get_json(json, selector) {
            Some(part) => part,
            None => json,
        },
        PayloadView::MessagePack(value) => match spec_get_messagepack(value, selector) {
            Some(part) => part.text,
            None => value.text,
        },
        PayloadView::String(text) => text,
    }
}

/// The value column shows the part of a JSON or MessagePack payload that the
/// selector picks whenever it picks one, the same text as the column of that
/// part shown on its own; only when the selector picks nothing does it show
/// the whole value. With no selector it shows the whole value. Of binary
/// data it shows the selected byte in decimal when the address lies inside
/// the data.
pub proof fn lemma_history_value_shows_selection(
    payload: PayloadView,
    binary_address: Option<usize>,
    selector: Seq<JsonSelector>,
)
    ensures
        payload matches PayloadView::MessagePack(value) ==> match spec_get_messagepack(value, selector) {
            Some(part) => spec_history_value(payload, binary_address, selector) == part.text
                && spec_history_value(payload, binary_address, selector) == spec_history_value(
                PayloadView::MessagePack(part),
                None,
                Seq::empty(),
            ),
            None => spec_history_value(payload, binary_address, selector) == value.text,
        },
        payload matches PayloadView::Json(json) ==> match spec_get_json(json, selector) {
            Some(part) => spec_history_value(payload, binary_address, selector) == part
                && spec_history_value(payload, binary_address, selector) == spec_history_value(
                PayloadView::Json(part),
                None,
                Seq::empty(),
            ),
            None => spec_history_value(payload, binary_address, selector) == json,
        },
        payload matches PayloadView::MessagePack(value) ==> spec_history_value(payload, binary_address, Seq::empty())
            == value.text,
        payload matches PayloadView::Json(json) ==> spec_history_value(payload, binary_address, Seq::empty()) == json,
        payload matches PayloadView::String(text) ==> spec_history_value(payload, binary_address, selector) == text,
        forall|a: usize|
            payload is Binary && binary_address == Some(a) && a < payload->Binary_0.len() ==> spec_history_value(
                payload,
                binary_address,
                selector,
            ) == spec_decimal(payload->Binary_0[a as int] as nat),
        payload is Binary && !(binary_address matches Some(a) && a < payload->Binary_0.len()) ==> spec_history_value(
            payload,
            binary_address,
            selector,
        ) == spec_bytes_text(payload->Binary_0),
{
}

/// The value column of the history table for an entry.
pub fn history_value(entry: &HistoryEntry, binary_address: Option<usize>, selector: &[JsonSelector]) -> (text:
    String)
    ensures
        text@ == spec_history_value(entry.payload@, binary_address, selector@),
{
    match &entry.payload {
        Payload::Binary(data) => match binary_address {
            Some(address) if address < data.len() => decimal(data[address] as usize),
            _ => bytes_text(data.as_slice()),
        },
        Payload::Json(json) => match JsonSelector::get_json(json, selector) {
            Some(part) => String::from_str(part.as_str()),
            None => String::from_str(json.as_str()),
        },
        Payload::MessagePack(value) => match JsonSelector::get_messagepack(value, selector) {
            Some(part) => String::from_str(part.as_str()),
            None => String::from_str(value.as_str()),
        },
        Payload::String(text) => text.clone(),
    }
}

} // verus!
