//! Squares of the Xiangqi board and moves between them.
//!
//! The board is 9 files ('a' to 'i', x = 0 to 8) by 10 ranks ('0' to
//! '9', y = 0 to 9). Red sits at the low ranks. A move on the wire is
//! four ASCII characters: file and rank of the source, then of the
//! destination; decoding is case-insensitive on the files.

use vstd::prelude::*;

verus! {

/// Number of files on the board.
pub const BOARD_WIDTH: i8 = 9;

/// Number of ranks on the board.
pub const BOARD_HEIGHT: i8 = 10;

/// One square of the board.
#[derive(Clone, Copy, PartialEq, Eq, Structural, Debug)]
pub struct Location {
    pub x: i8,
    pub y: i8,
}

/// A move from one square to another.
#[derive(Clone, Copy, PartialEq, Eq, Structural, Debug)]
pub struct Move {
    pub from: Location,
    pub to: Location,
}

/// A move or location string did not have the expected form.
#[derive(Clone, Copy, PartialEq, Eq, Structural, Debug)]
pub struct ParseError;

impl Location {
    /// True when the square lies on the board.
    pub open spec fn is_valid(&self) -> bool {
        0 <= self.x < BOARD_WIDTH && 0 <= self.y < BOARD_HEIGHT
    }

    /// The corner square a0.
    pub fn new() -> (r: Location)
        ensures
            r == (Location { x: 0, y: 0 }),
    {
        Location { x: 0, y: 0 }
    }

    /// The square at file `x`, rank `y`, if it lies on the board.
    pub fn from_xy(x: i8, y: i8) -> (r: Option<Location>)
        ensures
            r == spec_from_xy(x as int, y as int),
    {
        if 0 <= x && x < BOARD_WIDTH && 0 <= y && y < BOARD_HEIGHT {
            Some(Location { x, y })
        } else {
            None
        }
    }

    /// The square whose row-major index is `index`, if any.
    pub fn from_index(index: usize) -> (r: Option<Location>)
        ensures
            index < BOARD_WIDTH * BOARD_HEIGHT ==> r == Some(
                Location {
                    x: (index as int % BOARD_WIDTH as int) as i8,
                    y: (index as int / BOARD_WIDTH as int) as i8,
                },
            ),
            index >= BOARD_WIDTH * BOARD_HEIGHT ==> r is None,
    {
        if index > i8::MAX as usize {
            return None;
        }
        let x = index as i8 % BOARD_WIDTH;
        let y = index as i8 / BOARD_WIDTH;
        Location::from_xy(x, y)
    }

    /// Step `value` files sideways, staying within the files.
    pub fn shift_x(&self, value: i8) -> (r: Option<Location>)
        ensures
            0 <= self.x + value < BOARD_WIDTH ==> r == Some(
                Location { x: (self.x + value) as i8, y: self.y },
            ),
            !(0 <= self.x + value < BOARD_WIDTH) ==> r is None,
    {
        let new_x: i16 = self.x as i16 + value as i16;
        if 0 <= new_x && new_x < BOARD_WIDTH as i16 {
            Some(Location { x: new_x as i8, y: self.y })
        } else {
            None
        }
    }

    /// Step `value` ranks forward, staying within the ranks.
    pub fn shift_y(&self, value: i8) -> (r: Option<Location>)
        ensures
            0 <= self.y + value < BOARD_HEIGHT ==> r == Some(
                Location { x: self.x, y: (self.y + value) as i8 },
            ),
            !(0 <= self.y + value < BOARD_HEIGHT) ==> r is None,
    {
        let new_y: i16 = self.y as i16 + value as i16;
        if 0 <= new_y && new_y < BOARD_HEIGHT as i16 {
            Some(Location { x: self.x, y: new_y as i8 })
        } else {
            None
        }
    }

    /// Step in both directions, staying on the board.
    pub fn shift_xy(&self, x: i8, y: i8) -> (r: Option<Location>)
        ensures
            r == spec_from_xy(self.x + x, self.y + y),
    {
        match self.shift_x(x) {
            Some(shifted) => shifted.shift_y(y),
            None => None,
        }
    }

    /// Row-major index of the square.
    pub fn index(&self) -> (r: usize)
        requires
            self.is_valid(),
        ensures
            r == self.x + self.y * BOARD_WIDTH,
    {
        (self.x + self.y * BOARD_WIDTH) as usize
    }

    /// The file, 0 to 8.
    pub fn x(&self) -> (r: i8)
        ensures
            r == self.x,
    {
        self.x
    }

    /// The rank, 0 to 9.
    pub fn y(&self) -> (r: i8)
        ensures
            r == self.y,
    {
        self.y
    }

    /// The square as seen from the given side: red keeps the board as
    /// is, black sees the ranks mirrored.
    pub fn normalize(&self, red: bool) -> (r: Location)
        requires
            self.is_valid(),
        ensures
            red ==> r == *self,
            !red ==> r == (Location { x: self.x, y: (BOARD_HEIGHT - 1 - self.y) as i8 }),
    {
        if red {
            *self
        } else {
            Location { x: self.x, y: BOARD_HEIGHT - self.y - 1 }
        }
    }
}

impl Move {
    /// True when both endpoints lie on the board.
    pub open spec fn is_valid(&self) -> bool {
        self.from.is_valid() && self.to.is_valid()
    }
}

/// What `Location::from_xy` returns: the square when it is on the board.
pub open spec fn spec_from_xy(x: int, y: int) -> Option<Location> {
    if 0 <= x < BOARD_WIDTH && 0 <= y < BOARD_HEIGHT {
        Some(Location { x: x as i8, y: y as i8 })
    } else {
        None
    }
}

} // verus!
