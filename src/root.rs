use vstd::prelude::*;

use crate::player::MicaPlayer;
use crate::state::MicaMove;

verus! {

/// `v` is at least as good as `w` for `player`: White prefers higher values, Black lower.
pub open spec fn at_least_as_good(player: MicaPlayer, v: int, w: int) -> bool {
    if player == MicaPlayer::White {
        v >= w
    } else {
        v <= w
    }
}

/// Result `j` of `results` is the one to play: no result is better for `player`, and every
/// result as good carries a tag no smaller.
pub open spec fn is_choice(player: MicaPlayer, results: Seq<(usize, i32)>, j: int) -> bool {
    &&& 0 <= j < results.len()
    &&& forall|i: int|
        0 <= i < results.len() ==> at_least_as_good(
            player,
            results[j].1 as int,
            (#[trigger] results[i]).1 as int,
        )
    &&& forall|i: int|
        0 <= i < results.len() && at_least_as_good(player, results[i].1 as int, results[j].1 as int)
            ==> results[j].0 <= (#[trigger] results[i]).0
}

/// Picks the root move to play from the searched values of the root moves. Each result is
/// `(i, v)`: root move `moves[i]` is worth `v`. Results may come in any order; among equally
/// good ones the move listed first wins. `None` when there is no result.
pub fn best_root_move(player: MicaPlayer, moves: &Vec<MicaMove>, results: &Vec<(usize, i32)>) -> (r:
    Option<MicaMove>)
    requires
        forall|i: int| 0 <= i < results@.len() ==> (#[trigger] results@[i]).0 < moves@.len(),
    ensures
        r is None <==> results@.len() == 0,
        r matches Some(m) ==> exists|j: int|
            is_choice(player, results@, j) && m == moves@[results@[j].0 as int],
{
    if results.len() == 0 {
        return None;
    }
    let white = player == MicaPlayer::White;
    let mut best: usize = 0;
    let mut i: usize = 1;
    while i < results.len()
        invariant
            white == (player == MicaPlayer::White),
            0 < i <= results@.len(),
            best < i,
            forall|k: int|
                0 <= k < i ==> at_least_as_good(
                    player,
                    results@[best as int].1 as int,
                    (#[trigger] results@[k]).1 as int,
                ),
            forall|k: int|
                0 <= k < i && at_least_as_good(
                    player,
                    results@[k].1 as int,
                    results@[best as int].1 as int,
                ) ==> results@[best as int].0 <= (#[trigger] results@[k]).0,
        decreases results@.len() - i,
    {
        let (tag, value) = results[i];
        let (best_tag, best_value) = results[best];
        let better = if white {
            value > best_value
        } else {
            value < best_value
        };
        if better || (value == best_value && tag < best_tag) {
            best = i;
        }
        i = i + 1;
    }
    proof {
        assert(is_choice(player, results@, best as int));
    }
    Some(moves[results[best].0])
}

} // verus!
