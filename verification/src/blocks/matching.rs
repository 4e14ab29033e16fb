//! What a search for matches looks at, and in which directions.

use vstd::prelude::*;

use crate::blocks::column::Column;

verus! {

/// Fewest gems in a line that make a match.
pub const MIN_CONSECUTIVE_GEMS_TO_MATCH: u8 = 3;

/// Where a search for matches starts from: the gems of a column that has just
/// come to rest, or every gem of the pile.
#[derive(Copy, Clone)]
pub enum MatchingStructure<'a> {
    Column(&'a Column),
    Pile,
}

/// A step on the board: `dx` along a row, `dy` down a column.
#[derive(Copy, Clone)]
pub struct Direction {
    pub dx: i8,
    pub dy: i8,
}

/// Step along a row of search direction `d` (horizontal, vertical, slash,
/// backslash).
pub open spec fn dir_dx(d: int) -> int {
    if d == 1 {
        0
    } else {
        1
    }
}

/// Step down a column of search direction `d` (horizontal, vertical, slash,
/// backslash).
pub open spec fn dir_dy(d: int) -> int {
    if d == 0 {
        0
    } else if d == 3 {
        -1
    } else {
        1
    }
}

impl Direction {
    /// Search direction `d`: horizontal, vertical, slash or backslash.
    pub fn from_index(d: usize) -> (direction: Direction)
        requires
            d < 4,
        ensures
            direction.dx == dir_dx(d as int),
            direction.dy == dir_dy(d as int),
    {
        match d {
            0 => Direction { dx: 1, dy: 0 },
            1 => Direction { dx: 0, dy: 1 },
            2 => Direction { dx: 1, dy: 1 },
            _ => Direction { dx: 1, dy: -1 },
        }
    }

    /// The opposite direction.
    pub fn neg(self) -> (direction: Direction)
        requires
            self.dx > i8::MIN,
            self.dy > i8::MIN,
        ensures
            direction.dx == -self.dx,
            direction.dy == -self.dy,
    {
        Direction { dx: -self.dx, dy: -self.dy }
    }
}

} // verus!
