use vstd::prelude::*;

use crate::minimax::Minimax;
use crate::movegen::{legal_moves, lemma_legal_moves_applicable};
use crate::player::MicaPlayer;
use crate::state::{move_on_board, lemma_apply_can_undo, lemma_apply_wf, lemma_undo_apply, MicaMove, MicaState, Position};

verus! {

/// The position after `m`, with the turn handed to the other side.
pub open spec fn child(s: Position, m: MicaMove) -> Position {
    s.apply(m).toggled()
}

/// The full-width minimax value of `s` searched `depth` plies deep. A position that is
/// over, or whose side to move has no move, is worth its static value.
pub open spec fn minimax_value(s: Position, depth: nat) -> int
    decreases depth, 0nat,
{
    if depth == 0 || s.is_end() {
        s.eval()
    } else {
        let ms = legal_moves(s);
        if ms.len() == 0 {
            s.eval()
        } else {
            children_value(s, (depth - 1) as nat, ms, ms.len() as nat)
        }
    }
}

/// The best value, for the side to move of `s`, among the children reached by the first
/// `k` moves of `ms`, each searched `depth` plies deep: White takes the largest, Black
/// the smallest.
pub open spec fn children_value(s: Position, depth: nat, ms: Seq<MicaMove>, k: nat) -> int
    decreases depth, k,
{
    if k == 0 {
        0
    } else {
        let v = minimax_value(child(s, ms[k - 1]), depth);
        if k == 1 {
            v
        } else {
            let prev = children_value(s, depth, ms, (k - 1) as nat);
            if s.player == MicaPlayer::White {
                if v > prev {
                    v
                } else {
                    prev
                }
            } else {
                if v < prev {
                    v
                } else {
                    prev
                }
            }
        }
    }
}

/// What a search inside the window `[a, b]` may return for a position of value `val`:
/// the value itself when it falls in the window, else a bound on the same side of it.
pub open spec fn window_result(a: int, b: int, val: int, v: int) -> bool {
    &&& a <= v <= b ==> v == val
    &&& v < a ==> val <= v
    &&& v > b ==> val >= v
}

/// Move `j` of `ms` is the first best one for the side to move of `s`: no move leads to a
/// better child, and every earlier move leads to a strictly worse one.
pub open spec fn is_first_best(s: Position, depth: nat, ms: Seq<MicaMove>, j: int) -> bool {
    let best = minimax_value(child(s, ms[j]), depth);
    &&& 0 <= j < ms.len()
    &&& forall|i: int|
        0 <= i < ms.len() ==> {
            let v = minimax_value(child(s, #[trigger] ms[i]), depth);
            if s.player == MicaPlayer::White {
                v <= best
            } else {
                v >= best
            }
        }
    &&& forall|i: int|
        0 <= i < j ==> {
            let v = minimax_value(child(s, #[trigger] ms[i]), depth);
            if s.player == MicaPlayer::White {
                v < best
            } else {
                v > best
            }
        }
}

/// Looking at more moves only improves the best value for the side to move.
pub proof fn lemma_children_value_monotone(s: Position, depth: nat, ms: Seq<MicaMove>, k: nat, n: nat)
    requires
        1 <= k <= n,
    ensures
        s.player == MicaPlayer::White ==> children_value(s, depth, ms, n) >= children_value(
            s,
            depth,
            ms,
            k,
        ),
        s.player != MicaPlayer::White ==> children_value(s, depth, ms, n) <= children_value(
            s,
            depth,
            ms,
            k,
        ),
    decreases n,
{
    if n > k {
        lemma_children_value_monotone(s, depth, ms, k, (n - 1) as nat);
    }
}

impl Minimax for MicaState {
    type Value = i32;

    type Player = MicaPlayer;

    type Move = MicaMove;

    open spec fn well_formed(&self) -> bool {
        self@.wf()
    }

    fn is_end(&self) -> (r: bool)
        ensures
            r == self@.is_end(),
    {
        self.white_to_place() == 0 && self.black_to_place() == 0 && (self.white_on_board() == 2
            || self.black_on_board() == 2)
    }

    fn eval(&self) -> (r: i32)
        ensures
            r as int == self@.eval(),
    {
        self.white_on_board() as i32 - self.black_on_board() as i32
    }

    fn get_moves(&self) -> (r: Vec<MicaMove>)
        ensures
            r@ == legal_moves(self@),
            forall|k: int| 0 <= k < r@.len() ==> move_on_board(#[trigger] r@[k]),
    {
        self.generate()
    }

    fn minimax(&mut self, depth: u8, a: i32, b: i32) -> (r: (i32, Option<MicaMove>))
        ensures
            final(self)@ == old(self)@,
            window_result(a as int, b as int, minimax_value(old(self)@, depth as nat), r.0 as int),
            a == i32::MIN && b == i32::MAX ==> r.0 as int == minimax_value(
                old(self)@,
                depth as nat,
            ),
            r.1 is None <==> (depth == 0 || old(self)@.is_end() || legal_moves(
                old(self)@,
            ).len() == 0),
            r.1 matches Some(m) ==> legal_moves(old(self)@).contains(m),
            a == i32::MIN && b == i32::MAX ==> (r.1 matches Some(m) ==> minimax_value(
                child(old(self)@, m),
                (depth - 1) as nat,
            ) == r.0 as int),
            a == i32::MIN && b == i32::MAX ==> (r.1 matches Some(m) ==> exists|j: int|
                #[trigger] legal_moves(old(self)@)[j] == m && is_first_best(
                    old(self)@,
                    (depth - 1) as nat,
                    legal_moves(old(self)@),
                    j,
                )),
        decreases depth,
    {
        if depth == 0 {
            return (self.eval(), None);
        }
        if self.is_end() {
            return (self.eval(), None);
        }
        let moves = self.get_moves();
        if moves.len() == 0 {
            return (self.eval(), None);
        }
        let ghost s0 = self@;
        let ghost cd = (depth - 1) as nat;
        proof {
            lemma_legal_moves_applicable(s0);
        }
        let maximize = self.side_to_move() == MicaPlayer::White;
        let mut best_value: i32 = if maximize {
            i32::MIN
        } else {
            i32::MAX
        };
        let mut best_move: Option<MicaMove> = None;
        let ghost mut best_index: int = 0;
        let mut lo = a;
        let mut hi = b;
        let mut k: usize = 0;
        let mut cut = false;
        while k < moves.len() && !cut
            invariant
                self@ == s0,
                s0.wf(),
                !s0.is_end(),
                !(depth == 0),
                cd == depth - 1,
                moves@ == legal_moves(s0),
                moves@.len() > 0,
                forall|j: int| 0 <= j < moves@.len() ==> s0.applicable(#[trigger] moves@[j]),
                maximize == (s0.player == MicaPlayer::White),
                k <= moves@.len(),
                a <= b,
                lo <= hi,
                k == 0 ==> best_move is None && lo == a && hi == b && !cut,
                k > 0 ==> best_move == Some(moves@[best_index]) && 0 <= best_index < k,
                maximize && k > 0 && !cut ==> hi == b && lo as int == if a > best_value { a } else { best_value },
                maximize && k > 0 && !cut && best_value >= a ==> children_value(s0, cd, moves@, k as nat) == best_value,
                maximize && k > 0 && !cut && best_value < a ==> children_value(s0, cd, moves@, k as nat) <= best_value,
                maximize && k > 0 && cut ==> best_value > b && minimax_value(s0, depth as nat) >= best_value,
                maximize && k > 0 && !cut ==> best_value <= b,
                !maximize && k > 0 && !cut ==> lo == a && hi as int == if b < best_value { b } else { best_value },
                !maximize && k > 0 && !cut && best_value <= b ==> children_value(s0, cd, moves@, k as nat) == best_value,
                !maximize && k > 0 && !cut && best_value > b ==> children_value(s0, cd, moves@, k as nat) >= best_value,
                !maximize && k > 0 && cut ==> best_value < a && minimax_value(s0, depth as nat) <= best_value,
                !maximize && k > 0 && !cut ==> best_value >= a,
                a == i32::MIN && b == i32::MAX ==> forall|i: int|
                    0 <= i < k ==> {
                        let v = minimax_value(child(s0, #[trigger] moves@[i]), cd);
                        if maximize {
                            v <= best_value
                        } else {
                            v >= best_value
                        }
                    },
                a == i32::MIN && b == i32::MAX ==> forall|i: int|
                    0 <= i < best_index ==> {
                        let v = minimax_value(child(s0, #[trigger] moves@[i]), cd);
                        if maximize {
                            v < best_value
                        } else {
                            v > best_value
                        }
                    },
                a == i32::MIN && b == i32::MAX && k > 0 ==> !cut && minimax_value(
                    child(s0, moves@[best_index]),
                    cd,
                ) == best_value,
            decreases moves@.len() - k,
        {
            let next_move = moves[k];
            proof {
                lemma_apply_wf(s0, next_move);
                lemma_apply_can_undo(s0, next_move);
                lemma_undo_apply(s0, next_move);
            }
            self.apply_move(next_move);
            self.pass_turn();
            let (new_value, _) = self.minimax(depth - 1, lo, hi);
            self.pass_turn();
            assert(self@ == s0.apply(next_move));
            let ghost v_child = minimax_value(child(s0, next_move), cd);
            if best_move.is_none() || (maximize && new_value > best_value) || (!maximize
                && new_value < best_value) {
                best_value = new_value;
                best_move = Some(next_move);
                proof {
                    best_index = k as int;
                }
            }
            self.undo_move(next_move);
            proof {
                lemma_children_value_monotone(s0, cd, moves@, (k + 1) as nat, moves@.len() as nat);
                assert(moves@[k as int] == next_move);
                assert(minimax_value(s0, depth as nat) == children_value(
                    s0,
                    cd,
                    moves@,
                    moves@.len() as nat,
                ));
                if maximize {
                    assert(children_value(s0, cd, moves@, (k + 1) as nat) >= v_child);
                } else {
                    assert(children_value(s0, cd, moves@, (k + 1) as nat) <= v_child);
                }
            }
            if maximize {
                if new_value > hi {
                    cut = true;
                } else if new_value > lo {
                    lo = new_value;
                }
            } else {
                if new_value < lo {
                    cut = true;
                } else if new_value < hi {
                    hi = new_value;
                }
            }
            k = k + 1;
        }
        proof {
            if a == i32::MIN && b == i32::MAX {
                assert(is_first_best(s0, cd, moves@, best_index));
            }
        }
        (best_value, best_move)
    }
}

} // verus!
