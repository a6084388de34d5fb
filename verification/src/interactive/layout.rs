//! Where the parts of the interactive view are drawn.
use vstd::prelude::*;

use crate::interactive::ui::{sat_add, sat_sub, split_area_vertically, Rect};

verus! {

/// Rows of the header line with the selected topic.
pub const HEADER_HEIGHT: u16 = 1;

/// Rows of the footer line with the key hints.
pub const FOOTER_HEIGHT: u16 = 1;

/// Rows of the box that shows a connection error.
pub const ERROR_HEIGHT: u16 = 4;

/// The areas of the whole view.
#[derive(Clone, Copy, Debug, PartialEq, Eq)]
pub struct AppAreas {
    /// The first row: the selected topic.
    pub header: Rect,
    /// The last row: the key hints.
    pub footer: Rect,
    /// Above the footer: the connection error, empty without one.
    pub error: Rect,
    /// Everything between header and error: topics and details.
    pub main: Rect,
}

/// `a * b`, or `u16::MAX` when that does not fit.
fn saturating_mul(a: u16, b: u16) -> (product: u16)
    ensures
        product == (if a * b > u16::MAX {
            u16::MAX
        } else {
            (a * b) as u16
        }),
{
    assert((a as u32) * (b as u32) <= 0xffff * 0xffff) by (nonlinear_arith)
        requires
            a <= 0xffff,
            b <= 0xffff,
    ;
    let wide = (a as u32) * (b as u32);
    if wide > u16::MAX as u32 {
        u16::MAX
    } else {
        wide as u16
    }
}

/// Splits the terminal into header, footer, error box and main area.
pub fn app_areas(area: Rect, connection_error: bool) -> (areas: AppAreas)
    requires
        area.height >= 1,
    ensures
        areas.header == (Rect { height: HEADER_HEIGHT, y: 0, ..area }),
        areas.footer == (Rect { height: FOOTER_HEIGHT, y: (area.height - 1) as u16, ..area }),
        areas.error == (Rect {
            height: if connection_error {
                ERROR_HEIGHT
            } else {
                0
            },
            y: sat_sub(
                sat_sub(area.height, FOOTER_HEIGHT),
                if connection_error {
                    ERROR_HEIGHT
                } else {
                    0
                },
            ),
            ..area
        }),
        areas.main == (Rect {
            height: sat_sub(
                sat_sub(area.height, (HEADER_HEIGHT + FOOTER_HEIGHT) as u16),
                if connection_error {
                    ERROR_HEIGHT
                } else {
                    0
                },
            ),
            y: HEADER_HEIGHT,
            ..area
        }),
{
    let height = area.height;
    let header = Rect { height: HEADER_HEIGHT, y: 0, ..area };
    let footer = Rect { height: FOOTER_HEIGHT, y: height - 1, ..area };
    let error_height = if connection_error {
        ERROR_HEIGHT
    } else {
        0
    };
    let error = Rect {
        height: error_height,
        y: height.saturating_sub(FOOTER_HEIGHT).saturating_sub(error_height),
        ..area
    };
    let main = Rect {
        height: height.saturating_sub(HEADER_HEIGHT + FOOTER_HEIGHT).saturating_sub(error_height),
        y: HEADER_HEIGHT,
        ..area
    };
    AppAreas { header, footer, error, main }
}

/// Splits the main area when a topic with history is selected: a third of
/// the width for the topics on the left, the rest for its details.
pub fn split_main_area(main: Rect) -> (parts: (Rect, Rect))
    ensures
        parts.0 == (Rect { width: main.width / 3, x: 0, ..main }),
        parts.1 == (Rect { width: (main.width - main.width / 3) as u16, x: main.width / 3, ..main }),
{
    let x = main.width / 3;
    let details = Rect { width: main.width - x, x, ..main };
    let overview = Rect { width: x, x: 0, ..main };
    (overview, details)
}

/// Splits the details area into the payload on top and the rest below: the
/// payload takes the rows its content needs and its border, but at most a
/// third of the area, or two thirds while it has the focus.
pub fn payload_areas(area: Rect, has_focus: bool, content_height: usize) -> (parts: (Rect, Rect))
    ensures
        ({
            let max_height: u16 = if has_focus {
                (if 2 * area.height > u16::MAX {
                    u16::MAX
                } else {
                    (2 * area.height) as u16
                }) / 3
            } else {
                area.height / 3
            };
            let wanted: int = if content_height + 2 > usize::MAX {
                usize::MAX as int
            } else {
                content_height + 2
            };
            let height: u16 = if max_height < wanted {
                max_height
            } else {
                wanted as u16
            };
            &&& parts.0 == (Rect { height, ..area })
            &&& parts.1 == (Rect {
                height: sat_sub(area.height, height),
                y: sat_add(area.y, height),
                ..area
            })
        }),
{
    let max_payload_height = if has_focus {
        saturating_mul(area.height, 2) / 3
    } else {
        area.height / 3
    };
    let wanted = content_height.saturating_add(2);
    let payload_height: u16 = if (max_payload_height as usize) < wanted {
        max_payload_height
    } else {
        wanted as u16
    };
    split_area_vertically(area, payload_height)
}

/// The area of the popup that asks before cleaning retained topics: centered,
/// six rows high (or the whole height when less), wide enough for the text
/// and a margin of 14 but leaving 4 columns free.
pub fn popup_area(area: Rect, text_width: usize) -> (popup: Rect)
    ensures
        ({
            let height: u16 = if area.height < 6 {
                area.height
            } else {
                6
            };
            let max_width = sat_sub(area.width, 4);
            let wanted: int = if text_width + 14 > usize::MAX {
                usize::MAX as int
            } else {
                text_width + 14
            };
            let width: u16 = if wanted < max_width {
                wanted as u16
            } else {
                max_width
            };
            popup == Rect {
                x: sat_sub(area.width, width) / 2,
                y: sat_sub(area.height, height) / 2,
                width,
                height,
            }
        }),
{
    let height = if area.height < 6 {
        area.height
    } else {
        6
    };
    let max_width = area.width.saturating_sub(4);
    let wanted = text_width.saturating_add(14);
    let width: u16 = if wanted < max_width as usize {
        wanted as u16
    } else {
        max_width
    };
    Rect {
        x: area.width.saturating_sub(width) / 2,
        y: area.height.saturating_sub(height) / 2,
        width,
        height,
    }
}

/// The area of the clean retained popup of the first interactive view:
/// six rows high, four fifths of the width but at least 60 columns, leaving 4
/// columns free, centered.
pub fn popup_area_fixed(r: Rect) -> (popup: Rect)
    requires
        r.height >= 6,
    ensures
        ({
            let four_fifths: u16 = (if 4 * r.width > u16::MAX {
                u16::MAX
            } else {
                (4 * r.width) as u16
            }) / 5;
            let at_least: u16 = if four_fifths < 60 {
                60
            } else {
                four_fifths
            };
            let width: u16 = if at_least < sat_sub(r.width, 4) {
                at_least
            } else {
                sat_sub(r.width, 4)
            };
            popup == Rect {
                x: ((r.width - width) / 2) as u16,
                y: ((r.height - 6) / 2) as u16,
                width,
                height: 6,
            }
        }),
{
    let height: u16 = 6;
    let four_fifths = saturating_mul(r.width, 4) / 5;
    let at_least = if four_fifths < 60 {
        60
    } else {
        four_fifths
    };
    let limit = r.width.saturating_sub(4);
    let width = if at_least < limit {
        at_least
    } else {
        limit
    };
    let x = (r.width - width) / 2;
    let y = (r.height - height) / 2;
    Rect { x, y, width, height }
}

} // verus!
