use vstd::prelude::*;

use crate::minimax::MinimaxPlayer;

verus! {

/// The owner of a cell, or the side to move.
#[derive(Debug, Clone, Copy, PartialEq, Eq, Structural)]
pub enum MicaPlayer {
    Nobody,
    White,
    Black,
}

/// Swaps White and Black; `Nobody` has no opponent and stays `Nobody`.
pub open spec fn opponent(p: MicaPlayer) -> MicaPlayer {
    match p {
        MicaPlayer::White => MicaPlayer::Black,
        MicaPlayer::Black => MicaPlayer::White,
        MicaPlayer::Nobody => MicaPlayer::Nobody,
    }
}

/// The signed weight of a player in a line sum.
pub open spec fn weight(p: MicaPlayer) -> int {
    match p {
        MicaPlayer::White => 1,
        MicaPlayer::Black => -1,
        MicaPlayer::Nobody => 0,
    }
}

impl MicaPlayer {
    pub open spec fn is_side(self) -> bool {
        self == MicaPlayer::White || self == MicaPlayer::Black
    }

    /// The signed weight used in line sums.
    pub fn weight(self) -> (r: i8)
        ensures
            r as int == weight(self),
    {
        match self {
            MicaPlayer::White => 1,
            MicaPlayer::Black => -1,
            MicaPlayer::Nobody => 0,
        }
    }
}

impl MinimaxPlayer for MicaPlayer {
    open spec fn next_player(self) -> MicaPlayer {
        opponent(self)
    }

    fn into_next_player(self) -> (r: MicaPlayer) {
        match self {
            MicaPlayer::White => MicaPlayer::Black,
            MicaPlayer::Black => MicaPlayer::White,
            MicaPlayer::Nobody => MicaPlayer::Nobody,
        }
    }

    fn toggle(&mut self) {
        *self = self.into_next_player();
    }
}

} // verus!
