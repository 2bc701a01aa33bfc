use vstd::prelude::*;

verus! {

/// A side of a two-player game that can hand the turn to the other side.
pub trait MinimaxPlayer: Sized {
    /// The side that plays after `self`.
    spec fn next_player(self) -> Self;

    fn into_next_player(self) -> (r: Self)
        ensures
            r == self.next_player(),
    ;

    fn toggle(&mut self)
        ensures
            *final(self) == old(self).next_player(),
    ;
}

/// A game searched by fixed-depth alpha-beta minimax.
pub trait Minimax: Sized {
    type Value;
    type Player: MinimaxPlayer;
    type Move;

    /// The states on which the operations below are defined.
    spec fn well_formed(&self) -> bool;

    /// Whether the game is over.
    fn is_end(&self) -> bool
        requires
            self.well_formed(),
    ;

    /// The static value of the state; higher favours the maximizing side.
    fn eval(&self) -> Self::Value
        requires
            self.well_formed(),
    ;

    /// The legal moves of the side to move.
    fn get_moves(&self) -> Vec<Self::Move>
        requires
            self.well_formed(),
    ;

    /// The value of the state searched `depth` plies deep inside the window `[a, b]`,
    /// and the move that reaches it.
    fn minimax(&mut self, depth: u8, a: i32, b: i32) -> (Self::Value, Option<Self::Move>)
        requires
            old(self).well_formed(),
            a <= b,
    ;
}

} // verus!
