//! The selection of a binary payload, shown as rows of bytes.
use vstd::prelude::*;

use crate::interactive::details::{saturating_add, saturating_sub};
use crate::interactive::keys::BinaryCommand;
use crate::interactive::ui::{Position, Rect};

verus! {

/// Bytes shown per row.
pub const BYTES_PER_ROW: usize = 16;

/// The selected address and the first row shown of a binary payload.
#[derive(Clone, Copy, Debug, PartialEq, Eq, Default)]
pub struct BinaryView {
    pub address: Option<usize>,
    pub first_row: usize,
}

/// The address a command moves the selection to, in a payload of `length`
/// bytes. Without a selection, down, right and home select the first byte,
/// up and left the last one, and end the last one of the first row.
pub open spec fn moved(address: Option<usize>, command: BinaryCommand, length: usize) -> Option<usize> {
    let last = saturating_sub(length, 1);
    match command {
        BinaryCommand::Unselect => None,
        BinaryCommand::SelectAddress(a) => Some(if a < last { a } else { last }),
        BinaryCommand::ScrollUp(_) | BinaryCommand::ScrollDown(_) => address,
        _ => match address {
            None => Some(
                match command {
                    BinaryCommand::Up | BinaryCommand::Left => last,
                    BinaryCommand::LastInRow => if BYTES_PER_ROW - 1 < last {
                        (BYTES_PER_ROW - 1) as usize
                    } else {
                        last
                    },
                    _ => 0,
                },
            ),
            Some(a) => Some(
                match command {
                    BinaryCommand::Down => {
                        let down = saturating_add(a, BYTES_PER_ROW);
                        if down < last { down } else { last }
                    },
                    BinaryCommand::Up => saturating_sub(a, BYTES_PER_ROW),
                    BinaryCommand::Left => saturating_sub(a, 1),
                    BinaryCommand::Right => {
                        let right = saturating_add(a, 1);
                        if right < last { right } else { last }
                    },
                    BinaryCommand::FirstInRow => (a - a % BYTES_PER_ROW) as usize,
                    _ => {
                        let end = a - a % BYTES_PER_ROW + BYTES_PER_ROW - 1;
                        if end < last { end as usize } else { last }
                    },
                },
            ),
        },
    }
}

impl BinaryView {
    /// The view after a command on a payload of `length` bytes.
    pub open spec fn after(self, command: BinaryCommand, length: usize) -> BinaryView {
        BinaryView {
            address: moved(self.address, command, length),
            first_row: match command {
                BinaryCommand::ScrollUp(rows) => saturating_sub(self.first_row, rows),
                BinaryCommand::ScrollDown(rows) => saturating_add(self.first_row, rows),
                _ => self.first_row,
            },
        }
    }

    /// Runs a command on a payload of `length` bytes; returns whether the
    /// view changed.
    pub fn run(&mut self, command: BinaryCommand, length: usize) -> (changed: bool)
        ensures
            *final(self) == old(self).after(command, length),
            changed == (*final(self) != *old(self)),
    {
        let before = *self;
        let last = length.saturating_sub(1);
        match command {
            BinaryCommand::Unselect => self.address = None,
            BinaryCommand::SelectAddress(a) => self.address = Some(if a < last { a } else { last }),
            BinaryCommand::ScrollUp(rows) => self.first_row = self.first_row.saturating_sub(rows),
            BinaryCommand::ScrollDown(rows) => self.first_row = self.first_row.saturating_add(rows),
            _ => {
                self.address = Some(
                    match self.address {
                        None => match command {
                            BinaryCommand::Up | BinaryCommand::Left => last,
                            BinaryCommand::LastInRow => if BYTES_PER_ROW - 1 < last {
                                BYTES_PER_ROW - 1
                            } else {
                                last
                            },
                            _ => 0,
                        },
                        Some(a) => match command {
                            BinaryCommand::Down => {
                                let down = a.saturating_add(BYTES_PER_ROW);
                                if down < last { down } else { last }
                            },
                            BinaryCommand::Up => a.saturating_sub(BYTES_PER_ROW),
                            BinaryCommand::Left => a.saturating_sub(1),
                            BinaryCommand::Right => {
                                let right = a.saturating_add(1);
                                if right < last { right } else { last }
                            },
                            BinaryCommand::FirstInRow => a - a % BYTES_PER_ROW,
                            _ => {
                                let start = a - a % BYTES_PER_ROW;
                                if start < last && last - start > BYTES_PER_ROW - 1 {
                                    start + (BYTES_PER_ROW - 1)
                                } else {
                                    last
                                }
                            },
                        },
                    },
                );
            },
        }
        !(self.address == before.address && self.first_row == before.first_row)
    }

    /// The address shown at `position` of the view drawn in `area` (inside
    /// its border on top and on the left, three columns per byte), if any.
    pub open spec fn spec_clicked_address(self, area: Rect, position: Position, length: usize) -> Option<usize> {
        if !area.spec_contains(position) || position.y < area.y + 1 || position.x < area.x + 1 {
            None
        } else {
            let row = position.y - (area.y + 1) + self.first_row;
            let column = (position.x - (area.x + 1)) / 3;
            let address = row * BYTES_PER_ROW + column;
            if column < BYTES_PER_ROW && address < length {
                Some(address as usize)
            } else {
                None
            }
        }
    }

    /// The address shown where a click hits.
    pub fn clicked_address(&self, area: Rect, position: Position, length: usize) -> (address: Option<usize>)
        ensures
            address == self.spec_clicked_address(area, position, length),
    {
        if !area.contains(position) || position.y < area.y || position.y - area.y < 1 || position.x < area.x
            || position.x - area.x < 1 {
            return None;
        }
        let row_in_view = (position.y - area.y - 1) as usize;
        let column = ((position.x - area.x - 1) / 3) as usize;
        if column >= BYTES_PER_ROW {
            return None;
        }
        if self.first_row > usize::MAX - row_in_view {
            return None;
        }
        let row = self.first_row + row_in_view;
        if row > (usize::MAX - column) / BYTES_PER_ROW {
            assert(row * 16 + column > usize::MAX) by (nonlinear_arith)
                requires
                    row > (usize::MAX - column) / 16,
                    column < 16,
            ;
            return None;
        }
        assert(row * 16 + column <= usize::MAX) by (nonlinear_arith)
            requires
                row <= (usize::MAX - column) / 16,
                column < 16,
        ;
        let address = row * BYTES_PER_ROW + column;
        if address < length {
            Some(address)
        } else {
            None
        }
    }
}

} // verus!
