//! What a mouse click or a turn of the wheel does in the interactive view.
use vstd::prelude::*;

use crate::interactive::details::{Details, ScrollDirection};
use crate::interactive::keys::{BinaryCommand, PayloadKind, TreeCommand};
use crate::interactive::ui::{ElementInFocus, Position, Rect};

verus! {

/// What turning the mouse wheel asks for.
#[derive(Clone, Copy, Debug, PartialEq, Eq)]
pub enum ScrollAction {
    /// Scroll the topic overview.
    Overview(TreeCommand),
    /// Scroll the binary payload.
    Binary(BinaryCommand),
    /// Scroll the JSON or MessagePack payload.
    PayloadTree(TreeCommand),
    /// Scroll the history table.
    Table(ScrollDirection),
    /// Nothing to scroll there.
    Ignore,
}

/// The areas the view was last drawn in.
#[derive(Clone, Copy, Debug, PartialEq, Eq)]
pub struct ViewAreas {
    pub overview: Rect,
    pub payload: Rect,
    pub table: Rect,
}

/// The tree command that scrolls by one row.
pub open spec fn scroll_tree(direction: ScrollDirection) -> TreeCommand {
    match direction {
        ScrollDirection::Up => TreeCommand::ScrollUp(1),
        ScrollDirection::Down => TreeCommand::ScrollDown(1),
    }
}

/// The binary view command that scrolls by one row.
pub open spec fn scroll_binary(direction: ScrollDirection) -> BinaryCommand {
    match direction {
        ScrollDirection::Up => BinaryCommand::ScrollUp(1),
        ScrollDirection::Down => BinaryCommand::ScrollDown(1),
    }
}

/// What the wheel scrolls: the element under the mouse.
pub open spec fn scroll_target(
    direction: ScrollDirection,
    position: Position,
    areas: ViewAreas,
    payload: PayloadKind,
) -> ScrollAction {
    if areas.overview.spec_contains(position) {
        ScrollAction::Overview(scroll_tree(direction))
    } else if areas.payload.spec_contains(position) {
        match payload {
            PayloadKind::Binary => ScrollAction::Binary(scroll_binary(direction)),
            PayloadKind::Json | PayloadKind::MessagePack => ScrollAction::PayloadTree(
                scroll_tree(direction),
            ),
            PayloadKind::String | PayloadKind::Missing => ScrollAction::Ignore,
        }
    } else if areas.table.spec_contains(position) {
        ScrollAction::Table(direction)
    } else {
        ScrollAction::Ignore
    }
}

/// Decides what turning the wheel at `position` scrolls.
pub fn on_scroll(
    direction: ScrollDirection,
    position: Position,
    areas: &ViewAreas,
    payload: PayloadKind,
) -> (action: ScrollAction)
    ensures
        action == scroll_target(direction, position, *areas, payload),
{
    let tree = match direction {
        ScrollDirection::Up => TreeCommand::ScrollUp(1),
        ScrollDirection::Down => TreeCommand::ScrollDown(1),
    };
    if areas.overview.contains(position) {
        ScrollAction::Overview(tree)
    } else if areas.payload.contains(position) {
        match payload {
            PayloadKind::Binary => ScrollAction::Binary(
                match direction {
                    ScrollDirection::Up => BinaryCommand::ScrollUp(1),
                    ScrollDirection::Down => BinaryCommand::ScrollDown(1),
                },
            ),
            PayloadKind::Json | PayloadKind::MessagePack => ScrollAction::PayloadTree(tree),
            PayloadKind::String | PayloadKind::Missing => ScrollAction::Ignore,
        }
    } else if areas.table.contains(position) {
        ScrollAction::Table(direction)
    } else {
        ScrollAction::Ignore
    }
}

/// What a click asks for.
#[derive(Clone, Copy, Debug, PartialEq, Eq)]
pub enum ClickAction {
    /// Select the visible row of the topic overview, or toggle it when it is
    /// selected already.
    Overview(usize),
    /// The click hit the payload area while no payload is shown: draw again.
    Redraw,
    /// Select the address of the binary payload.
    BinaryAddress(usize),
    /// Select the visible row of the payload tree, or toggle it when it is
    /// selected already.
    PayloadTree(usize),
    /// The entry of the history table was selected.
    Table(usize),
    /// The click hit nothing that reacts.
    Ignore,
}

/// Where a click lands, from the rows and the address the widgets report for
/// it: the element in focus afterwards and the action.
pub open spec fn click_outcome(
    focus: ElementInFocus,
    overview_row: Option<usize>,
    payload_row: Option<usize>,
    payload: PayloadKind,
    binary_address: Option<usize>,
    table_index: Option<usize>,
) -> (ElementInFocus, ClickAction) {
    let table = match table_index {
        Some(index) => (ElementInFocus::HistoryTable, ClickAction::Table(index)),
        None => (focus, ClickAction::Ignore),
    };
    match overview_row {
        Some(row) => (ElementInFocus::TopicOverview, ClickAction::Overview(row)),
        None => match payload_row {
            None => table,
            Some(row) => match payload {
                PayloadKind::Missing => (focus, ClickAction::Redraw),
                PayloadKind::Binary => match binary_address {
                    Some(address) => (ElementInFocus::Payload, ClickAction::BinaryAddress(address)),
                    None => table,
                },
                PayloadKind::Json | PayloadKind::MessagePack => (
                    ElementInFocus::Payload,
                    ClickAction::PayloadTree(row),
                ),
                PayloadKind::String => (focus, ClickAction::Ignore),
            },
        },
    }
}

/// Handles a click at `position`. `overview_row` and `payload_row` are the
/// visible rows of the topic overview and the payload view that the click
/// hits, `binary_address` the address of the binary payload it hits. When the
/// click reaches the history table, its entry gets selected.
pub fn on_click(
    focus: &ElementInFocus,
    position: Position,
    overview_row: Option<usize>,
    payload_row: Option<usize>,
    payload: PayloadKind,
    binary_address: Option<usize>,
    details: &mut Details,
) -> (outcome: (ElementInFocus, ClickAction))
    requires
        old(details).click_fits(position),
    ensures
        outcome == click_outcome(
            *focus,
            overview_row,
            payload_row,
            payload,
            binary_address,
            old(details).click_index(position),
        ),
        outcome.1 is Table ==> final(details).table_state.selected == Some(outcome.1->Table_0),
        !(outcome.1 is Table) ==> *final(details) == *old(details),
        final(details).table_state.offset == old(details).table_state.offset,
        final(details).last_table_area == old(details).last_table_area,
{
    let stay = match focus {
        ElementInFocus::TopicOverview => ElementInFocus::TopicOverview,
        ElementInFocus::TopicSearch => ElementInFocus::TopicSearch,
        ElementInFocus::Payload => ElementInFocus::Payload,
        ElementInFocus::HistoryTable => ElementInFocus::HistoryTable,
        ElementInFocus::CleanRetainedPopup(topic) => ElementInFocus::CleanRetainedPopup(topic.clone()),
    };
    if let Some(row) = overview_row {
        return (ElementInFocus::TopicOverview, ClickAction::Overview(row));
    }
    if let Some(row) = payload_row {
        match payload {
            PayloadKind::Missing => return (stay, ClickAction::Redraw),
            PayloadKind::Binary => {
                if let Some(address) = binary_address {
                    return (ElementInFocus::Payload, ClickAction::BinaryAddress(address));
                }
            },
            PayloadKind::Json | PayloadKind::MessagePack => {
                return (ElementInFocus::Payload, ClickAction::PayloadTree(row));
            },
            PayloadKind::String => return (stay, ClickAction::Ignore),
        }
    }
    match details.table_index_of_click(position) {
        Some(index) => {
            details.table_state.selected = Some(index);
            (ElementInFocus::HistoryTable, ClickAction::Table(index))
        },
        None => (stay, ClickAction::Ignore),
    }
}

} // verus!
