//! The rank of a checker piece.

use vstd::prelude::*;

verus! {

/// A checker's rank: a plain man, or a king promoted on the opponent's home
/// row.
#[derive(Debug, Clone, Copy, PartialEq, Eq, Structural, Hash)]
pub enum Piece {
    Man,
    King,
}

impl Piece {
    pub fn is_man(&self) -> (r: bool)
        ensures
            r == (*self == Piece::Man),
    {
        matches!(self, Piece::Man)
    }

    pub fn is_king(&self) -> (r: bool)
        ensures
            r == (*self == Piece::King),
    {
        matches!(self, Piece::King)
    }
}

impl Default for Piece {
    /// Every piece starts the game as a man.
    fn default() -> (r: Self)
        ensures
            r == Piece::Man,
    {
        Piece::Man
    }
}

} // verus!
