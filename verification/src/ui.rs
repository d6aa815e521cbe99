//! Interaction state the interface tracks between user events.

use vstd::prelude::*;

use crate::piece::Piece;
use crate::position::Position;

verus! {

/// What the player is doing on the board: nothing, or moving a picked-up
/// piece from its starting cell.
#[derive(Debug)]
pub enum State {
    Idle,
    MovingPiece { initial_position: Position, piece: Piece },
}

impl Default for State {
    /// Before any interaction, nothing is picked up.
    fn default() -> (r: Self)
        ensures
            r is Idle,
    {
        State::Idle
    }
}

/// What a creation dialog is creating.
#[derive(Debug, Clone, Copy, PartialEq, Eq, Structural)]
pub enum ModalType {
    BranchCreation,
    CommitCreation,
}

/// A dialog asking the user to name a new branch or commit.
#[derive(Debug)]
pub struct CreationModal {
    /// What the user has typed so far.
    pub input_value: String,
    /// What the dialog will create.
    pub modal_type: ModalType,
}

impl CreationModal {
    pub fn new(modal_type: ModalType) -> (r: Self)
        ensures
            r.input_value@ == Seq::<char>::empty(),
            r.modal_type == modal_type,
    {
        CreationModal { input_value: String::new(), modal_type }
    }

    /// Empties the typed text, keeping the dialog's kind.
    pub fn clear(&mut self)
        ensures
            final(self).input_value@ == Seq::<char>::empty(),
            final(self).modal_type == old(self).modal_type,
    {
        self.input_value = String::new();
    }
}

} // verus!
