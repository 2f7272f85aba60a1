//! The two small closed enumerations of the game: what a cell holds and how a
//! board is classified.

use vstd::prelude::*;

verus! {

/// What one cell of the board holds.
#[derive(Clone, Copy, Debug, PartialEq, Eq, Structural)]
pub enum Cell {
    /// Nobody has played here yet.
    Empty,
    /// A mark of the maximizing side.
    X,
    /// A mark of the minimizing side.
    O,
}

/// Classification of a board, computed afresh from the cells each time.
#[derive(Clone, Copy, Debug, PartialEq, Eq, Structural)]
pub enum GameStatus {
    /// No line is complete and at least one cell is empty.
    Play,
    /// Some line holds three identical marks.
    Over,
    /// Every cell is taken and no line is complete.
    Tie,
}

impl GameStatus {
    /// The word for this status.
    pub open spec fn word(self) -> Seq<char> {
        match self {
            GameStatus::Play => seq!['P', 'l', 'a', 'y'],
            GameStatus::Over => seq!['O', 'v', 'e', 'r'],
            GameStatus::Tie => seq!['T', 'i', 'e'],
        }
    }

    /// This status as a word: "Play", "Over" or "Tie".
    pub fn name(&self) -> (text: &'static str)
        ensures
            text@ == self.word(),
    {
        proof {
            reveal_strlit("Play");
            reveal_strlit("Over");
            reveal_strlit("Tie");
        }
        match self {
            GameStatus::Play => "Play",
            GameStatus::Over => "Over",
            GameStatus::Tie => "Tie",
        }
    }
}

} // verus!
