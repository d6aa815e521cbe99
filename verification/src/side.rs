//! The two players of a checkers game.

use vstd::prelude::*;

verus! {

/// A player's colour. White moves toward decreasing rows, Black toward
/// increasing rows; row 0 is Black's home edge, row 7 is White's home edge.
#[derive(Debug, Clone, Copy, PartialEq, Eq, Structural, Hash)]
pub enum Side {
    Black,
    White,
}

impl Side {
    /// The opposing player.
    pub fn opposite(&self) -> (r: Side)
        ensures
            r == self.spec_opposite(),
    {
        match self {
            Side::White => Side::Black,
            Side::Black => Side::White,
        }
    }

    pub open spec fn spec_opposite(self) -> Side {
        match self {
            Side::White => Side::Black,
            Side::Black => Side::White,
        }
    }
}

impl Default for Side {
    /// White makes the first move of a game.
    fn default() -> (r: Self)
        ensures
            r == Side::White,
    {
        Side::White
    }
}

} // verus!
