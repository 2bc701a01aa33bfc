use vstd::prelude::*;

pub mod minimax;
pub mod movegen;
pub mod player;
pub mod root;
pub mod search;
pub mod state;
pub mod wire;

pub use minimax::{Minimax, MinimaxPlayer};
pub use player::MicaPlayer;
pub use root::best_root_move;
pub use state::{MicaMove, MicaRequest, MicaState};
pub use wire::{move_actions, Action, Verb};

verus! {

} // verus!
