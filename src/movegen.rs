use vstd::prelude::*;

use crate::minimax::MinimaxPlayer;
use crate::player::{opponent, weight, MicaPlayer};
use crate::state::{cell_index, idx, is_point, move_on_board, MicaMove, MicaState, Position, CELLS};

verus! {

/// Ring, row and column of flat cell `i`.
pub open spec fn coords(i: int) -> (u8, u8, u8) {
    ((i / 9) as u8, ((i % 9) / 3) as u8, (i % 3) as u8)
}

pub proof fn lemma_coords(i: int)
    requires
        0 <= i < CELLS,
    ensures
        coords(i).0 < 3,
        coords(i).1 < 3,
        coords(i).2 < 3,
        idx(coords(i).0 as int, coords(i).1 as int, coords(i).2 as int) == i,
{
    assert(0 <= i / 9 < 3 && 0 <= (i % 9) / 3 < 3 && 0 <= i % 3 < 3) by (nonlinear_arith)
        requires
            0 <= i < 27,
    ;
    assert(9 * (i / 9) + 3 * ((i % 9) / 3) + i % 3 == i) by (nonlinear_arith)
        requires
            0 <= i < 27,
    ;
}

/// All three cells are owned by `p`.
pub open spec fn line_full(b: Seq<MicaPlayer>, c0: int, c1: int, c2: int, p: MicaPlayer) -> bool {
    b[c0] == p && b[c1] == p && b[c2] == p
}

/// `p` owns a whole line through (x, y, z): its row, its column, or its cross-ring line.
pub open spec fn mill_at(b: Seq<MicaPlayer>, x: int, y: int, z: int, p: MicaPlayer) -> bool {
    line_full(b, idx(x, y, 0), idx(x, y, 1), idx(x, y, 2), p) || line_full(
        b,
        idx(x, 0, z),
        idx(x, 1, z),
        idx(x, 2, z),
        p,
    ) || line_full(b, idx(0, y, z), idx(1, y, z), idx(2, y, z), p)
}

/// The stone at (x, y, z) belongs to a completed mill of either side.
pub open spec fn in_mill(b: Seq<MicaPlayer>, x: int, y: int, z: int) -> bool {
    mill_at(b, x, y, z, MicaPlayer::White) || mill_at(b, x, y, z, MicaPlayer::Black)
}

pub open spec fn abs(v: int) -> int {
    if v < 0 {
        -v
    } else {
        v
    }
}

pub open spec fn sum3(b: Seq<MicaPlayer>, c0: int, c1: int, c2: int) -> int {
    weight(b[c0]) + weight(b[c1]) + weight(b[c2])
}

/// Some line through (x, y, z) has a signed sum of absolute value `t`.
pub open spec fn line_check(b: Seq<MicaPlayer>, x: int, y: int, z: int, t: int) -> bool {
    abs(sum3(b, idx(x, y, 0), idx(x, y, 1), idx(x, y, 2))) == t || abs(
        sum3(b, idx(x, 0, z), idx(x, 1, z), idx(x, 2, z)),
    ) == t || abs(sum3(b, idx(0, y, z), idx(1, y, z), idx(2, y, z))) == t
}

/// The board after the mover `p` lands on `t`, having left `f` when `f` is a cell.
pub open spec fn after(b: Seq<MicaPlayer>, f: int, t: int, p: MicaPlayer) -> Seq<MicaPlayer> {
    if 0 <= f < CELLS {
        b.update(f, MicaPlayer::Nobody).update(t, p)
    } else {
        b.update(t, p)
    }
}

/// Whether an opponent stone at flat cell `i` may be removed: it is not part of a mill.
pub open spec fn removable(s: Position, i: int) -> bool {
    let (x, y, z) = coords(i);
    s.board[i] == opponent(s.player) && !in_mill(s.board, x as int, y as int, z as int)
}

/// The removable opponent stones among the first `n` cells, in scan order.
pub open spec fn removable_prefix(s: Position, n: int) -> Seq<(u8, u8, u8)>
    decreases n,
{
    if n <= 0 {
        Seq::empty()
    } else {
        removable_prefix(s, n - 1) + if removable(s, n - 1) {
            seq![coords(n - 1)]
        } else {
            Seq::empty()
        }
    }
}

/// The removable opponent stones, in scan order.
pub open spec fn removables(s: Position) -> Seq<(u8, u8, u8)> {
    removable_prefix(s, CELLS as int)
}

pub open spec fn empty_point(s: Position, x: int, y: int, z: int) -> bool {
    is_point(x, y, z) && s.cell(x, y, z) == MicaPlayer::Nobody
}

pub open spec fn one_if(c: bool, t: (u8, u8, u8)) -> Seq<(u8, u8, u8)> {
    if c {
        seq![t]
    } else {
        Seq::empty()
    }
}

/// The empty points a stone at (x, y, z) may slide to: left, right, up, down, and at
/// the midpoints of a ring's sides the next ring inwards and outwards.
pub open spec fn neighbours(s: Position, x: int, y: int, z: int) -> Seq<(u8, u8, u8)> {
    let mid = (y == 1 && (z == 0 || z == 2)) || (z == 1 && (y == 0 || y == 2));
    one_if(z > 0 && empty_point(s, x, y, z - 1), (x as u8, y as u8, (z - 1) as u8)) + one_if(
        z < 2 && empty_point(s, x, y, z + 1),
        (x as u8, y as u8, (z + 1) as u8),
    ) + one_if(y > 0 && empty_point(s, x, y - 1, z), (x as u8, (y - 1) as u8, z as u8)) + one_if(
        y < 2 && empty_point(s, x, y + 1, z),
        (x as u8, (y + 1) as u8, z as u8),
    ) + one_if(mid && x > 0 && empty_point(s, x - 1, y, z), ((x - 1) as u8, y as u8, z as u8))
        + one_if(mid && x < 2 && empty_point(s, x + 1, y, z), ((x + 1) as u8, y as u8, z as u8))
}

/// The placements on (x, y, z) that remove each stone of `rs`.
pub open spec fn place_removals(x: u8, y: u8, z: u8, rs: Seq<(u8, u8, u8)>) -> Seq<MicaMove> {
    rs.map_values(
        |r: (u8, u8, u8)|
            MicaMove::SetRemove { x, y, z, remove_x: r.0, remove_y: r.1, remove_z: r.2 },
    )
}

/// The slides from f to t that remove each stone of `rs`.
pub open spec fn slide_removals(f: (u8, u8, u8), t: (u8, u8, u8), rs: Seq<(u8, u8, u8)>) -> Seq<
    MicaMove,
> {
    rs.map_values(
        |r: (u8, u8, u8)|
            MicaMove::MoveRemove {
                from_x: f.0,
                from_y: f.1,
                from_z: f.2,
                to_x: t.0,
                to_y: t.1,
                to_z: t.2,
                remove_x: r.0,
                remove_y: r.1,
                remove_z: r.2,
            },
    )
}

/// The moves that slide the stone at f to t: one per removable stone when the slide
/// closes a mill, else the plain slide.
pub open spec fn slide_moves(s: Position, f: (u8, u8, u8), t: (u8, u8, u8)) -> Seq<MicaMove> {
    let fi = idx(f.0 as int, f.1 as int, f.2 as int);
    let ti = idx(t.0 as int, t.1 as int, t.2 as int);
    if mill_at(after(s.board, fi, ti, s.player), t.0 as int, t.1 as int, t.2 as int, s.player) {
        slide_removals(f, t, removables(s))
    } else {
        seq![
            MicaMove::Move {
                from_x: f.0,
                from_y: f.1,
                from_z: f.2,
                to_x: t.0,
                to_y: t.1,
                to_z: t.2,
            },
        ]
    }
}

/// The slides from f to the first `k` destinations of `ts`.
pub open spec fn slides_prefix(s: Position, f: (u8, u8, u8), ts: Seq<(u8, u8, u8)>, k: int) -> Seq<
    MicaMove,
>
    decreases k,
{
    if k <= 0 {
        Seq::empty()
    } else {
        slides_prefix(s, f, ts, k - 1) + slide_moves(s, f, ts[k - 1])
    }
}

/// The moves that start at flat cell `i`.
pub open spec fn moves_at(s: Position, i: int) -> Seq<MicaMove> {
    let (x, y, z) = coords(i);
    let p = s.player;
    if y == 1 && z == 1 {
        Seq::empty()
    } else if s.is_setting_phase() {
        if s.board[i] != MicaPlayer::Nobody {
            Seq::empty()
        } else if mill_at(after(s.board, -1, i, p), x as int, y as int, z as int, p) {
            place_removals(x, y, z, removables(s))
        } else {
            seq![MicaMove::Place { x, y, z }]
        }
    } else if s.board[i] != p {
        Seq::empty()
    } else {
        let ts = neighbours(s, x as int, y as int, z as int);
        slides_prefix(s, (x, y, z), ts, ts.len() as int)
    }
}

/// The moves that start at the first `n` cells, in scan order.
pub open spec fn moves_prefix(s: Position, n: int) -> Seq<MicaMove>
    decreases n,
{
    if n <= 0 {
        Seq::empty()
    } else {
        moves_prefix(s, n - 1) + moves_at(s, n - 1)
    }
}

/// The legal moves of the side to move, in scan order (ring, row, column ascending).
pub open spec fn legal_moves(s: Position) -> Seq<MicaMove> {
    moves_prefix(s, CELLS as int)
}

} // verus!

verus! {

/// A line sums to plus or minus three exactly when one side owns all of it.
pub proof fn lemma_full_line_sum(b: Seq<MicaPlayer>, c0: int, c1: int, c2: int)
    ensures
        abs(sum3(b, c0, c1, c2)) == 3 <==> (line_full(b, c0, c1, c2, MicaPlayer::White)
            || line_full(b, c0, c1, c2, MicaPlayer::Black)),
{
}

impl MicaState {
    fn line_sum(&self, c0: usize, c1: usize, c2: usize) -> (r: i8)
        requires
            c0 < self@.board.len(),
            c1 < self@.board.len(),
            c2 < self@.board.len(),
        ensures
            r as int == abs(sum3(self@.board, c0 as int, c1 as int, c2 as int)),
    {
        let sum = self.cell(c0).weight() + self.cell(c1).weight() + self.cell(c2).weight();
        if sum < 0 {
            -sum
        } else {
            sum
        }
    }

    /// Whether some line through (x, y, z) sums to `target` in absolute value.
    fn line_check(&self, x: u8, y: u8, z: u8, target: i8) -> (r: bool)
        requires
            self@.wf(),
            x < 3,
            y < 3,
            z < 3,
        ensures
            r == line_check(self@.board, x as int, y as int, z as int, target as int),
    {
        // the row through the point
        if self.line_sum(cell_index(x, y, 0), cell_index(x, y, 1), cell_index(x, y, 2))
            == target {
            return true;
        }
        // the column through the point
        if self.line_sum(cell_index(x, 0, z), cell_index(x, 1, z), cell_index(x, 2, z))
            == target {
            return true;
        }
        // the line across the three rings
        self.line_sum(cell_index(0, y, z), cell_index(1, y, z), cell_index(2, y, z)) == target
    }

    /// Whether the stone at (x, y, z) is part of a completed mill.
    fn is_in_line(&self, x: u8, y: u8, z: u8) -> (r: bool)
        requires
            self@.wf(),
            x < 3,
            y < 3,
            z < 3,
        ensures
            r == in_mill(self@.board, x as int, y as int, z as int),
    {
        let ghost b = self@.board;
        proof {
            let (xi, yi, zi) = (x as int, y as int, z as int);
            lemma_full_line_sum(b, idx(xi, yi, 0), idx(xi, yi, 1), idx(xi, yi, 2));
            lemma_full_line_sum(b, idx(xi, 0, zi), idx(xi, 1, zi), idx(xi, 2, zi));
            lemma_full_line_sum(b, idx(0, yi, zi), idx(1, yi, zi), idx(2, yi, zi));
        }
        self.line_check(x, y, z, 3)
    }

    /// Whether cell `c` belongs to the mover once it has left `f` and landed on `t`.
    fn owned_after(&self, c: usize, f: usize, t: usize) -> (r: bool)
        requires
            self@.wf(),
            c < CELLS,
            t < CELLS,
            f < CELLS ==> f != t && self@.board[f as int] == self@.player,
        ensures
            r == (after(self@.board, f as int, t as int, self@.player)[c as int]
                == self@.player),
    {
        if c == t {
            true
        } else if c == f {
            false
        } else {
            self.cell(c) == self.side_to_move()
        }
    }

    /// Whether the mover closes a mill through (x, y, z) by landing there, having left
    /// flat cell `f` (no cell when `f` is past the board).
    fn will_make_line(&self, x: u8, y: u8, z: u8, f: usize) -> (r: bool)
        requires
            self@.wf(),
            x < 3,
            y < 3,
            z < 3,
            f < CELLS ==> f as int != idx(x as int, y as int, z as int) && self@.board[f as int]
                == self@.player,
        ensures
            r == mill_at(
                after(self@.board, f as int, idx(x as int, y as int, z as int), self@.player),
                x as int,
                y as int,
                z as int,
                self@.player,
            ),
    {
        let t = cell_index(x, y, z);
        if self.owned_after(cell_index(x, y, 0), f, t) && self.owned_after(
            cell_index(x, y, 1),
            f,
            t,
        ) && self.owned_after(cell_index(x, y, 2), f, t) {
            return true;
        }
        if self.owned_after(cell_index(x, 0, z), f, t) && self.owned_after(
            cell_index(x, 1, z),
            f,
            t,
        ) && self.owned_after(cell_index(x, 2, z), f, t) {
            return true;
        }
        self.owned_after(cell_index(0, y, z), f, t) && self.owned_after(cell_index(1, y, z), f, t)
            && self.owned_after(cell_index(2, y, z), f, t)
    }

    /// The opponent stones that a mill may remove, in scan order.
    fn get_oponent_stones(&self) -> (r: Vec<(u8, u8, u8)>)
        requires
            self@.wf(),
        ensures
            r@ == removables(self@),
    {
        let mut opponent_stones: Vec<(u8, u8, u8)> = Vec::new();
        let other = self.side_to_move().into_next_player();
        let mut i: usize = 0;
        while i < CELLS
            invariant
                self@.wf(),
                i <= CELLS,
                other == opponent(self@.player),
                opponent_stones@ == removable_prefix(self@, i as int),
            decreases CELLS - i,
        {
            proof {
                lemma_coords(i as int);
            }
            let x = (i / 9) as u8;
            let y = ((i % 9) / 3) as u8;
            let z = (i % 3) as u8;
            if self.cell(i) == other && !self.is_in_line(x, y, z) {
                opponent_stones.push((x, y, z));
            }
            i = i + 1;
        }
        opponent_stones
    }

    fn is_empty_point(&self, x: u8, y: u8, z: u8) -> (r: bool)
        requires
            self@.wf(),
            x < 3,
            y < 3,
            z < 3,
        ensures
            r == empty_point(self@, x as int, y as int, z as int),
    {
        !(y == 1 && z == 1) && self.cell(cell_index(x, y, z)) == MicaPlayer::Nobody
    }

    /// The empty points next to (x, y, z) that a stone there may slide to.
    fn get_neighboaring_empty_spots(&self, x: u8, y: u8, z: u8) -> (r: Vec<(u8, u8, u8)>)
        requires
            self@.wf(),
            x < 3,
            y < 3,
            z < 3,
        ensures
            r@ == neighbours(self@, x as int, y as int, z as int),
    {
        let ghost s = self@;
        let ghost (xi, yi, zi) = (x as int, y as int, z as int);
        let mut spots: Vec<(u8, u8, u8)> = Vec::new();
        // left and right along the row
        if z > 0 && self.is_empty_point(x, y, z - 1) {
            spots.push((x, y, z - 1));
        }
        let ghost s1 = one_if(zi > 0 && empty_point(s, xi, yi, zi - 1), (x, y, (z - 1) as u8));
        assert(spots@ =~= s1);
        if z < 2 && self.is_empty_point(x, y, z + 1) {
            spots.push((x, y, z + 1));
        }
        let ghost s2 = s1 + one_if(zi < 2 && empty_point(s, xi, yi, zi + 1), (x, y, (z + 1) as u8));
        assert(spots@ =~= s2);
        // up and down along the column
        if y > 0 && self.is_empty_point(x, y - 1, z) {
            spots.push((x, y - 1, z));
        }
        let ghost s3 = s2 + one_if(yi > 0 && empty_point(s, xi, yi - 1, zi), (x, (y - 1) as u8, z));
        assert(spots@ =~= s3);
        if y < 2 && self.is_empty_point(x, y + 1, z) {
            spots.push((x, y + 1, z));
        }
        let ghost s4 = s3 + one_if(yi < 2 && empty_point(s, xi, yi + 1, zi), (x, (y + 1) as u8, z));
        assert(spots@ =~= s4);
        // the neighbouring rings, reachable from the midpoints of the sides only
        let mid = (y == 1 && (z == 0 || z == 2)) || (z == 1 && (y == 0 || y == 2));
        if mid && x > 0 && self.is_empty_point(x - 1, y, z) {
            spots.push((x - 1, y, z));
        }
        let ghost s5 = s4 + one_if(
            mid && xi > 0 && empty_point(s, xi - 1, yi, zi),
            ((x - 1) as u8, y, z),
        );
        assert(spots@ =~= s5);
        if mid && x < 2 && self.is_empty_point(x + 1, y, z) {
            spots.push((x + 1, y, z));
        }
        let ghost s6 = s5 + one_if(
            mid && xi < 2 && empty_point(s, xi + 1, yi, zi),
            ((x + 1) as u8, y, z),
        );
        assert(spots@ =~= s6);
        spots
    }
}

/// Appends the placements on (x, y, z) that remove each stone of `rs`.
fn push_place_removals(moves: &mut Vec<MicaMove>, x: u8, y: u8, z: u8, rs: &Vec<(u8, u8, u8)>)
    ensures
        final(moves)@ == old(moves)@ + place_removals(x, y, z, rs@),
{
    let ghost base = moves@;
    let mut j: usize = 0;
    while j < rs.len()
        invariant
            j <= rs@.len(),
            moves@ == base + place_removals(x, y, z, rs@.take(j as int)),
        decreases rs@.len() - j,
    {
        let r = rs[j];
        moves.push(MicaMove::SetRemove { x, y, z, remove_x: r.0, remove_y: r.1, remove_z: r.2 });
        proof {
            assert(rs@.take(j + 1) =~= rs@.take(j as int).push(r));
            assert(place_removals(x, y, z, rs@.take(j + 1)) =~= place_removals(
                x,
                y,
                z,
                rs@.take(j as int),
            ).push(MicaMove::SetRemove { x, y, z, remove_x: r.0, remove_y: r.1, remove_z: r.2 }));
        }
        j = j + 1;
    }
    assert(rs@.take(rs@.len() as int) =~= rs@);
}

/// Appends the slides from f to t that remove each stone of `rs`.
fn push_slide_removals(
    moves: &mut Vec<MicaMove>,
    f: (u8, u8, u8),
    t: (u8, u8, u8),
    rs: &Vec<(u8, u8, u8)>,
)
    ensures
        final(moves)@ == old(moves)@ + slide_removals(f, t, rs@),
{
    let ghost base = moves@;
    let mut j: usize = 0;
    while j < rs.len()
        invariant
            j <= rs@.len(),
            moves@ == base + slide_removals(f, t, rs@.take(j as int)),
        decreases rs@.len() - j,
    {
        let r = rs[j];
        let m = MicaMove::MoveRemove {
            from_x: f.0,
            from_y: f.1,
            from_z: f.2,
            to_x: t.0,
            to_y: t.1,
            to_z: t.2,
            remove_x: r.0,
            remove_y: r.1,
            remove_z: r.2,
        };
        moves.push(m);
        proof {
            assert(rs@.take(j + 1) =~= rs@.take(j as int).push(r));
            assert(slide_removals(f, t, rs@.take(j + 1)) =~= slide_removals(
                f,
                t,
                rs@.take(j as int),
            ).push(m));
        }
        j = j + 1;
    }
    assert(rs@.take(rs@.len() as int) =~= rs@);
}

/// Every destination in `neighbours` is an empty point.
pub proof fn lemma_neighbours_empty(s: Position, x: int, y: int, z: int)
    requires
        0 <= x < 3,
        0 <= y < 3,
        0 <= z < 3,
    ensures
        forall|k: int|
            0 <= k < neighbours(s, x, y, z).len() ==> {
                let t = #[trigger] neighbours(s, x, y, z)[k];
                empty_point(s, t.0 as int, t.1 as int, t.2 as int)
            },
{
}

impl MicaState {
    /// Appends the slides of the mover's stone at flat cell `i`, at (x, y, z).
    fn push_slides_from(
        &self,
        moves: &mut Vec<MicaMove>,
        i: usize,
        x: u8,
        y: u8,
        z: u8,
        removals: &Vec<(u8, u8, u8)>,
    )
        requires
            self@.wf(),
            i < CELLS,
            x < 3,
            y < 3,
            z < 3,
            idx(x as int, y as int, z as int) == i,
            self@.board[i as int] == self@.player,
            removals@ == removables(self@),
        ensures
            final(moves)@ == old(moves)@ + {
                let ts = neighbours(self@, x as int, y as int, z as int);
                slides_prefix(self@, (x, y, z), ts, ts.len() as int)
            },
    {
        let ghost before = moves@;
        let ts = self.get_neighboaring_empty_spots(x, y, z);
        proof {
            lemma_neighbours_empty(self@, x as int, y as int, z as int);
        }
        let mut k: usize = 0;
        while k < ts.len()
            invariant
                self@.wf(),
                i < CELLS,
                x < 3,
                y < 3,
                z < 3,
                idx(x as int, y as int, z as int) == i,
                self@.board[i as int] == self@.player,
                removals@ == removables(self@),
                k <= ts@.len(),
                ts@ == neighbours(self@, x as int, y as int, z as int),
                forall|j: int|
                    0 <= j < ts@.len() ==> {
                        let t = #[trigger] ts@[j];
                        empty_point(self@, t.0 as int, t.1 as int, t.2 as int)
                    },
                moves@ == before + slides_prefix(self@, (x, y, z), ts@, k as int),
            decreases ts@.len() - k,
        {
            let t = ts[k];
            assert(empty_point(self@, t.0 as int, t.1 as int, t.2 as int));
            if self.will_make_line(t.0, t.1, t.2, i) {
                push_slide_removals(moves, (x, y, z), t, removals);
            } else {
                moves.push(
                    MicaMove::Move { from_x: x, from_y: y, from_z: z, to_x: t.0, to_y: t.1, to_z: t.2 },
                );
            }
            assert(moves@ =~= before + slides_prefix(self@, (x, y, z), ts@, k + 1));
            k = k + 1;
        }
    }

    /// Appends the moves that start at flat cell `i`.
    fn push_moves_at(
        &self,
        moves: &mut Vec<MicaMove>,
        i: usize,
        removals: &Vec<(u8, u8, u8)>,
        setting: bool,
        p: MicaPlayer,
    )
        requires
            self@.wf(),
            i < CELLS,
            removals@ == removables(self@),
            setting == self@.is_setting_phase(),
            p == self@.player,
        ensures
            final(moves)@ == old(moves)@ + moves_at(self@, i as int),
    {
        proof {
            lemma_coords(i as int);
        }
        let ghost before = moves@;
        let x = (i / 9) as u8;
        let y = ((i % 9) / 3) as u8;
        let z = (i % 3) as u8;
        if !(y == 1 && z == 1) {
            if setting {
                if self.cell(i) == MicaPlayer::Nobody {
                    if self.will_make_line(x, y, z, CELLS) {
                        push_place_removals(moves, x, y, z, removals);
                    } else {
                        moves.push(MicaMove::Place { x, y, z });
                    }
                }
            } else if self.cell(i) == p {
                self.push_slides_from(moves, i, x, y, z, removals);
            }
        }
        assert(moves@ =~= before + moves_at(self@, i as int));
    }

    /// The legal moves of the side to move, in scan order (ring, row, column ascending).
    /// A placement or slide that closes a mill comes once per removable opponent stone;
    /// when the opponent has no removable stone, no move lands there.
    pub fn generate(&self) -> (r: Vec<MicaMove>)
        requires
            self@.wf(),
        ensures
            r@ == legal_moves(self@),
            forall|k: int| 0 <= k < r@.len() ==> self@.applicable(#[trigger] r@[k]),
            forall|k: int| 0 <= k < r@.len() ==> move_on_board(#[trigger] r@[k]),
    {
        proof {
            lemma_legal_moves_applicable(self@);
        }
        let removals = self.get_oponent_stones();
        let setting = self.is_setting_phase();
        let p = self.side_to_move();
        let mut moves: Vec<MicaMove> = Vec::new();
        let mut i: usize = 0;
        while i < CELLS
            invariant
                self@.wf(),
                i <= CELLS,
                removals@ == removables(self@),
                setting == self@.is_setting_phase(),
                p == self@.player,
                moves@ == moves_prefix(self@, i as int),
            decreases CELLS - i,
        {
            self.push_moves_at(&mut moves, i, &removals, setting, p);
            i = i + 1;
        }
        moves
    }
}


/// Every move of `ms` can be carried out on `s`.
pub open spec fn all_applicable(s: Position, ms: Seq<MicaMove>) -> bool {
    forall|k: int| 0 <= k < ms.len() ==> s.applicable(#[trigger] ms[k])
}

proof fn lemma_all_applicable_concat(s: Position, a: Seq<MicaMove>, b: Seq<MicaMove>)
    requires
        all_applicable(s, a),
        all_applicable(s, b),
    ensures
        all_applicable(s, a + b),
{
    assert forall|k: int| 0 <= k < (a + b).len() implies s.applicable(#[trigger] (a + b)[k]) by {
        if k < a.len() {
            assert((a + b)[k] == a[k]);
        } else {
            assert((a + b)[k] == b[k - a.len()]);
        }
    }
}

/// Every removable stone is an opponent stone on a point of the board.
proof fn lemma_removable_prefix(s: Position, n: int)
    requires
        s.wf(),
        n <= CELLS,
    ensures
        forall|k: int|
            0 <= k < removable_prefix(s, n).len() ==> {
                let r = #[trigger] removable_prefix(s, n)[k];
                s.can_remove(r.0 as int, r.1 as int, r.2 as int)
            },
    decreases n,
{
    if n > 0 {
        lemma_removable_prefix(s, n - 1);
        lemma_coords(n - 1);
        let (x, y, z) = coords(n - 1);
        if y == 1 && z == 1 {
            assert(s.board[idx(x as int, 1, 1)] == MicaPlayer::Nobody);
        }
        let a = removable_prefix(s, n - 1);
        let b = removable_prefix(s, n);
        assert forall|k: int| 0 <= k < b.len() implies {
            let r = #[trigger] b[k];
            s.can_remove(r.0 as int, r.1 as int, r.2 as int)
        } by {
            if k < a.len() {
                assert(b[k] == a[k]);
            }
        }
    }
}

proof fn lemma_slides_applicable(s: Position, i: int, ts: Seq<(u8, u8, u8)>, k: int)
    requires
        s.wf(),
        0 <= i < CELLS,
        is_point(coords(i).0 as int, coords(i).1 as int, coords(i).2 as int),
        s.board[i] == s.player,
        k <= ts.len(),
        forall|j: int|
            0 <= j < ts.len() ==> {
                let t = #[trigger] ts[j];
                empty_point(s, t.0 as int, t.1 as int, t.2 as int)
            },
    ensures
        all_applicable(s, slides_prefix(s, coords(i), ts, k)),
    decreases k,
{
    if k > 0 {
        lemma_slides_applicable(s, i, ts, k - 1);
        lemma_coords(i);
        lemma_removable_prefix(s, CELLS as int);
        let t = ts[k - 1];
        assert(empty_point(s, t.0 as int, t.1 as int, t.2 as int));
        let ms = slide_moves(s, coords(i), t);
        assert forall|j: int| 0 <= j < ms.len() implies s.applicable(#[trigger] ms[j]) by {
            let rs = removables(s);
            if j < rs.len() {
                let r = rs[j];
                assert(s.can_remove(r.0 as int, r.1 as int, r.2 as int));
            }
        }
        lemma_all_applicable_concat(s, slides_prefix(s, coords(i), ts, k - 1), ms);
    }
}

proof fn lemma_moves_at_applicable(s: Position, i: int)
    requires
        s.wf(),
        0 <= i < CELLS,
    ensures
        all_applicable(s, moves_at(s, i)),
{
    lemma_coords(i);
    lemma_removable_prefix(s, CELLS as int);
    let (x, y, z) = coords(i);
    let ms = moves_at(s, i);
    if !(y == 1 && z == 1) {
        if s.is_setting_phase() {
            assert forall|j: int| 0 <= j < ms.len() implies s.applicable(#[trigger] ms[j]) by {
                let rs = removables(s);
                if j < rs.len() {
                    let r = rs[j];
                    assert(s.can_remove(r.0 as int, r.1 as int, r.2 as int));
                }
            }
        } else if s.board[i] == s.player {
            let ts = neighbours(s, x as int, y as int, z as int);
            lemma_neighbours_empty(s, x as int, y as int, z as int);
            lemma_slides_applicable(s, i, ts, ts.len() as int);
        }
    }
}

proof fn lemma_moves_prefix_applicable(s: Position, n: int)
    requires
        s.wf(),
        n <= CELLS,
    ensures
        all_applicable(s, moves_prefix(s, n)),
    decreases n,
{
    if n > 0 {
        lemma_moves_prefix_applicable(s, n - 1);
        lemma_moves_at_applicable(s, n - 1);
        lemma_all_applicable_concat(s, moves_prefix(s, n - 1), moves_at(s, n - 1));
    }
}

/// Every generated move can be carried out; in particular none touches a ring centre.
pub proof fn lemma_legal_moves_applicable(s: Position)
    requires
        s.wf(),
    ensures
        all_applicable(s, legal_moves(s)),
        forall|k: int| 0 <= k < legal_moves(s).len() ==> move_on_board(#[trigger] legal_moves(s)[k]),
{
    lemma_moves_prefix_applicable(s, CELLS as int);
    assert forall|k: int| 0 <= k < legal_moves(s).len() implies move_on_board(
        #[trigger] legal_moves(s)[k],
    ) by {
        assert(s.applicable(legal_moves(s)[k]));
    }
}

} // verus!
