//! Areas of the terminal and which element has the focus.
use vstd::prelude::*;

verus! {

/// A rectangle of terminal cells.
#[derive(Clone, Copy, Debug, PartialEq, Eq, Default)]
pub struct Rect {
    pub x: u16,
    pub y: u16,
    pub width: u16,
    pub height: u16,
}

/// A terminal cell.
#[derive(Clone, Copy, Debug, PartialEq, Eq)]
pub struct Position {
    pub x: u16,
    pub y: u16,
}

/// `a + b`, or `u16::MAX` when that does not fit.
pub open spec fn sat_add(a: u16, b: u16) -> u16 {
    if a + b > u16::MAX {
        u16::MAX
    } else {
        (a + b) as u16
    }
}

/// `a - b`, or 0 when `b` is bigger.
pub open spec fn sat_sub(a: u16, b: u16) -> u16 {
    if a < b {
        0
    } else {
        (a - b) as u16
    }
}

impl Rect {
    /// The first column right of the rectangle.
    pub open spec fn spec_right(self) -> u16 {
        sat_add(self.x, self.width)
    }

    /// The first row below the rectangle.
    pub open spec fn spec_bottom(self) -> u16 {
        sat_add(self.y, self.height)
    }

    /// Whether the cell lies in the rectangle.
    pub open spec fn spec_contains(self, position: Position) -> bool {
        &&& self.x <= position.x < self.spec_right()
        &&& self.y <= position.y < self.spec_bottom()
    }

    /// Whether the cell lies in the rectangle.
    pub fn contains(&self, position: Position) -> (inside: bool)
        ensures
            inside == self.spec_contains(position),
    {
        let right = self.x.saturating_add(self.width);
        let bottom = self.y.saturating_add(self.height);
        self.x <= position.x && position.x < right && self.y <= position.y && position.y < bottom
    }
}

/// The element of the interactive view that has the focus.
#[derive(Clone, Debug, PartialEq, Eq)]
pub enum ElementInFocus {
    TopicOverview,
    TopicSearch,
    Payload,
    HistoryTable,
    CleanRetainedPopup(String),
}

/// The colors of focused and unfocused elements.
#[derive(Clone, Copy, Debug, PartialEq, Eq)]
pub enum Color {
    LightGreen,
    Gray,
}

/// The color that shows whether an element has the focus.
pub fn focus_color(has_focus: bool) -> (color: Color)
    ensures
        color == (if has_focus {
            Color::LightGreen
        } else {
            Color::Gray
        }),
{
    if has_focus {
        Color::LightGreen
    } else {
        Color::Gray
    }
}

/// Splits an area into a top part of `height_first` rows and the rest below
/// it.
pub fn split_area_vertically(area: Rect, height_first: u16) -> (parts: (Rect, Rect))
    ensures
        parts.0 == (Rect { height: height_first, ..area }),
        parts.1 == (Rect {
            height: sat_sub(area.height, height_first),
            y: sat_add(area.y, height_first),
            ..area
        }),
{
    let first = Rect { height: height_first, ..area };
    let second = Rect {
        height: area.height.saturating_sub(height_first),
        y: area.y.saturating_add(height_first),
        ..area
    };
    (first, second)
}

} // verus!
