//! The two states a cell can be in.

use crate::errors::ParseUniverseError;
use vstd::prelude::*;
use vstd::std_specs::convert::FromSpecImpl;
use vstd::std_specs::convert::TryFromSpecImpl;

verus! {

/// One cell of a universe.
#[derive(Debug, Clone, Copy, PartialEq, Eq, Structural)]
pub enum Cell {
    Dead,
    Alive,
}

/// Draws a boolean with `rand::random`, which samples the thread-local
/// generator. The value depends on chance, so nothing is claimed of it.
#[verifier::external_body]
fn random_bool() -> bool {
    rand::random::<bool>()
}

impl Cell {
    /// What the cell adds to a count of live neighbours.
    pub open spec fn weight(self) -> nat {
        match self {
            Cell::Dead => 0,
            Cell::Alive => 1,
        }
    }

    /// The character that stands for the cell in text.
    pub open spec fn glyph(self) -> char {
        match self {
            Cell::Dead => '.',
            Cell::Alive => '#',
        }
    }

    /// The cell that a character stands for, if any.
    pub open spec fn from_glyph(glyph: char) -> Result<Cell, ParseUniverseError> {
        if glyph == '.' {
            Ok(Cell::Dead)
        } else if glyph == '#' {
            Ok(Cell::Alive)
        } else {
            Err(ParseUniverseError::InvalidCell(glyph))
        }
    }

    /// The cell that a boolean stands for: a live one for `true`, a dead one
    /// for `false`.
    pub open spec fn of_bool(alive: bool) -> Cell {
        if alive {
            Cell::Alive
        } else {
            Cell::Dead
        }
    }

    /// A cell that is dead or alive by the toss of a coin.
    pub fn new_random() -> Cell {
        Cell::from(random_bool())
    }

    /// The cell as a number: 0 for a dead cell, 1 for a live one.
    pub fn as_u8(self) -> (value: u8)
        ensures
            value == self.weight(),
    {
        match self {
            Cell::Dead => 0,
            Cell::Alive => 1,
        }
    }

    /// The character that stands for the cell in text: `.` for a dead cell,
    /// `#` for a live one.
    pub fn to_char(self) -> (glyph: char)
        ensures
            glyph == self.glyph(),
    {
        match self {
            Cell::Dead => '.',
            Cell::Alive => '#',
        }
    }
}

impl From<bool> for Cell {
    /// `true` is a live cell, `false` a dead one.
    fn from(value: bool) -> (cell: Self) {
        if value {
            Cell::Alive
        } else {
            Cell::Dead
        }
    }
}

impl FromSpecImpl<bool> for Cell {
    open spec fn obeys_from_spec() -> bool {
        true
    }

    open spec fn from_spec(value: bool) -> Self {
        Cell::of_bool(value)
    }
}

impl TryFrom<char> for Cell {
    type Error = ParseUniverseError;

    /// Reads `.` as a dead cell and `#` as a live one; any other character
    /// is rejected and handed back in the error.
    fn try_from(value: char) -> (cell: Result<Self, Self::Error>) {
        match value {
            '.' => Ok(Cell::Dead),
            '#' => Ok(Cell::Alive),
            c => Err(ParseUniverseError::InvalidCell(c)),
        }
    }
}

impl TryFromSpecImpl<char> for Cell {
    open spec fn obeys_try_from_spec() -> bool {
        true
    }

    open spec fn try_from_spec(value: char) -> Result<Self, Self::Error> {
        Cell::from_glyph(value)
    }
}

/// A cell read back from its own character is the same cell.
pub proof fn lemma_glyph_round_trip(cell: Cell)
    ensures
        Cell::from_glyph(cell.glyph()) == Ok::<Cell, ParseUniverseError>(cell),
{
}

} // verus!
