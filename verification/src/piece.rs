//! The marks that fill a cell and the two sides that place them.

use vstd::prelude::*;

verus! {

/// One of the two sides at the table.
#[derive(Clone, Copy, Debug, PartialEq, Eq, Structural)]
pub enum Turn {
    Player,
    Computer,
}

/// The content of a cell.  `Crosses` is the maximizing mark, `Naughts` the
/// minimizing one.
#[derive(Clone, Copy, Debug, PartialEq, Eq, Structural)]
pub enum Piece {
    Naughts,
    Crosses,
    Empty,
}

impl Turn {
    /// The other side.
    pub open spec fn spec_opponent(self) -> Turn {
        match self {
            Turn::Player => Turn::Computer,
            Turn::Computer => Turn::Player,
        }
    }

    /// The other side.
    #[verifier::when_used_as_spec(spec_opponent)]
    pub fn opponent(self) -> (other: Turn)
        ensures
            other == self.spec_opponent(),
    {
        match self {
            Turn::Player => Turn::Computer,
            Turn::Computer => Turn::Player,
        }
    }
}

impl Piece {
    /// What a mark adds to every line through its cell: `+1` for a cross,
    /// `-1` for a naught, nothing for an empty cell.
    pub open spec fn spec_value(self) -> int {
        match self {
            Piece::Crosses => 1,
            Piece::Naughts => -1,
            Piece::Empty => 0,
        }
    }

    /// What a mark adds to every line through its cell.
    pub fn value(self) -> (v: isize)
        ensures
            v == self.spec_value(),
    {
        match self {
            Piece::Crosses => 1,
            Piece::Naughts => -1,
            Piece::Empty => 0,
        }
    }
}

} // verus!
