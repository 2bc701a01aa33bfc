use vstd::prelude::*;

use crate::minimax::MinimaxPlayer;
use crate::player::{opponent, MicaPlayer};

verus! {

/// Number of cells of the board array: three rings of three rows of three columns.
pub const CELLS: usize = 27;

/// Stones each side places during the placement phase.
pub const STONES_PER_SIDE: u8 = 9;

/// A move of the side to move. Coordinates are (ring, row, column).
#[derive(Debug, Clone, Copy, PartialEq, Eq, Structural)]
pub enum MicaMove {
    Place { x: u8, y: u8, z: u8 },
    Move { from_x: u8, from_y: u8, from_z: u8, to_x: u8, to_y: u8, to_z: u8 },
    SetRemove { x: u8, y: u8, z: u8, remove_x: u8, remove_y: u8, remove_z: u8 },
    MoveRemove {
        from_x: u8,
        from_y: u8,
        from_z: u8,
        to_x: u8,
        to_y: u8,
        to_z: u8,
        remove_x: u8,
        remove_y: u8,
        remove_z: u8,
    },
}

/// The mathematical content of a game state.
pub struct Position {
    pub board: Seq<MicaPlayer>,
    pub player: MicaPlayer,
    pub white_on_board: int,
    pub black_on_board: int,
    pub white_to_place: int,
    pub black_to_place: int,
}

/// A position snapshot as a client sends it: cells hold 1 for White, -1 for Black and
/// 0 for empty; `player` is 1 for White and anything else for Black.
pub struct MicaRequest {
    pub difficulty: String,
    pub player: i8,
    pub white_remaining: u8,
    pub black_remaining: u8,
    pub white_count: u8,
    pub black_count: u8,
    pub stones: [[[i8; 3]; 3]; 3],
}

/// A game state: the board, the stones on it and still to place, and the side to move.
#[derive(Debug, Clone)]
pub struct MicaState {
    pub current_player: MicaPlayer,
    white_remaining: u8,
    black_remaining: u8,
    white_to_set: u8,
    black_to_set: u8,
    stones: Vec<MicaPlayer>,
}

/// Index of cell (ring x, row y, column z) in the flat board.
pub open spec fn idx(x: int, y: int, z: int) -> int {
    9 * x + 3 * y + z
}

/// Whether (x, y, z) names one of the 24 points of the board (the ring centres are none).
pub open spec fn is_point(x: int, y: int, z: int) -> bool {
    0 <= x < 3 && 0 <= y < 3 && 0 <= z < 3 && !(y == 1 && z == 1)
}

/// Number of cells of `b` owned by `p`.
pub open spec fn count_of(b: Seq<MicaPlayer>, p: MicaPlayer) -> nat
    decreases b.len(),
{
    if b.len() == 0 {
        0
    } else {
        count_of(b.drop_last(), p) + if b.last() == p {
            1nat
        } else {
            0nat
        }
    }
}

pub proof fn lemma_count_bound(b: Seq<MicaPlayer>, p: MicaPlayer)
    ensures
        count_of(b, p) <= b.len(),
    decreases b.len(),
{
    if b.len() > 0 {
        lemma_count_bound(b.drop_last(), p);
    }
}

/// Overwriting one cell changes each count by what left and what came.
pub proof fn lemma_count_update(b: Seq<MicaPlayer>, i: int, v: MicaPlayer, p: MicaPlayer)
    requires
        0 <= i < b.len(),
    ensures
        count_of(b.update(i, v), p) + (if b[i] == p { 1int } else { 0int }) == count_of(b, p)
            + (if v == p { 1int } else { 0int }),
    decreases b.len(),
{
    let u = b.update(i, v);
    if i == b.len() - 1 {
        assert(u.drop_last() =~= b.drop_last());
    } else {
        lemma_count_update(b.drop_last(), i, v, p);
        assert(u.drop_last() =~= b.drop_last().update(i, v));
    }
}

/// A cell owned by `p` makes its count positive.
pub proof fn lemma_count_positive(b: Seq<MicaPlayer>, i: int, p: MicaPlayer)
    requires
        0 <= i < b.len(),
        b[i] == p,
    ensures
        count_of(b, p) >= 1,
{
    let v = if p == MicaPlayer::Nobody {
        MicaPlayer::White
    } else {
        MicaPlayer::Nobody
    };
    lemma_count_update(b, i, v, p);
}

impl Position {
    pub open spec fn cell(self, x: int, y: int, z: int) -> MicaPlayer {
        self.board[idx(x, y, z)]
    }

    pub open spec fn on_board_of(self, p: MicaPlayer) -> int {
        if p == MicaPlayer::White {
            self.white_on_board
        } else {
            self.black_on_board
        }
    }

    pub open spec fn to_place_of(self, p: MicaPlayer) -> int {
        if p == MicaPlayer::White {
            self.white_to_place
        } else {
            self.black_to_place
        }
    }

    /// The invariant of every state the game can reach: 27 cells with empty ring
    /// centres, stone counts that match the board, a side to move.
    pub open spec fn wf(self) -> bool {
        &&& self.board.len() == CELLS
        &&& forall|x: int| 0 <= x < 3 ==> #[trigger] self.board[idx(x, 1, 1)] == MicaPlayer::Nobody
        &&& self.white_on_board == count_of(self.board, MicaPlayer::White)
        &&& self.black_on_board == count_of(self.board, MicaPlayer::Black)
        &&& 0 <= self.white_to_place <= 255
        &&& 0 <= self.black_to_place <= 255
        &&& self.player.is_side()
    }

    /// The placement phase lasts while both sides still have stones to place.
    pub open spec fn is_setting_phase(self) -> bool {
        self.white_to_place > 0 && self.black_to_place > 0
    }

    /// The game is over once placement is done and one side is down to two stones.
    pub open spec fn is_end(self) -> bool {
        self.white_to_place == 0 && self.black_to_place == 0 && (self.white_on_board == 2
            || self.black_on_board == 2)
    }

    /// Stones of White on the board minus stones of Black.
    pub open spec fn eval(self) -> int {
        self.white_on_board - self.black_on_board
    }

    pub open spec fn with_board(self, board: Seq<MicaPlayer>) -> Position {
        Position { board, ..self }
    }

    /// Adds `d` to the on-board count of `p`.
    pub open spec fn add_on_board(self, p: MicaPlayer, d: int) -> Position {
        if p == MicaPlayer::White {
            Position { white_on_board: self.white_on_board + d, ..self }
        } else {
            Position { black_on_board: self.black_on_board + d, ..self }
        }
    }

    /// Adds `d` to the to-place count of `p`.
    pub open spec fn add_to_place(self, p: MicaPlayer, d: int) -> Position {
        if p == MicaPlayer::White {
            Position { white_to_place: self.white_to_place + d, ..self }
        } else {
            Position { black_to_place: self.black_to_place + d, ..self }
        }
    }

    /// The same position with the other side to move.
    pub open spec fn toggled(self) -> Position {
        Position { player: opponent(self.player), ..self }
    }

    /// What a move does to the position, the mover being the side to move.
    pub open spec fn apply(self, m: MicaMove) -> Position {
        let p = self.player;
        let b = self.board;
        match m {
            MicaMove::Place { x, y, z } => self.with_board(
                b.update(idx(x as int, y as int, z as int), p),
            ).add_on_board(p, 1).add_to_place(p, -1),
            MicaMove::Move { from_x, from_y, from_z, to_x, to_y, to_z } => self.with_board(
                b.update(idx(from_x as int, from_y as int, from_z as int), MicaPlayer::Nobody).update(
                    idx(to_x as int, to_y as int, to_z as int),
                    p,
                ),
            ),
            MicaMove::SetRemove { x, y, z, remove_x, remove_y, remove_z } => self.with_board(
                b.update(idx(x as int, y as int, z as int), p).update(
                    idx(remove_x as int, remove_y as int, remove_z as int),
                    MicaPlayer::Nobody,
                ),
            ).add_on_board(p, 1).add_on_board(opponent(p), -1).add_to_place(p, -1),
            MicaMove::MoveRemove {
                from_x,
                from_y,
                from_z,
                to_x,
                to_y,
                to_z,
                remove_x,
                remove_y,
                remove_z,
            } => self.with_board(
                b.update(idx(from_x as int, from_y as int, from_z as int), MicaPlayer::Nobody).update(
                    idx(to_x as int, to_y as int, to_z as int),
                    p,
                ).update(idx(remove_x as int, remove_y as int, remove_z as int), MicaPlayer::Nobody),
            ).add_on_board(opponent(p), -1),
        }
    }

    /// What taking back a move does, the mover being the side to move.
    pub open spec fn undo(self, m: MicaMove) -> Position {
        let p = self.player;
        let b = self.board;
        match m {
            MicaMove::Place { x, y, z } => self.with_board(
                b.update(idx(x as int, y as int, z as int), MicaPlayer::Nobody),
            ).add_on_board(p, -1).add_to_place(p, 1),
            MicaMove::Move { from_x, from_y, from_z, to_x, to_y, to_z } => self.with_board(
                b.update(idx(from_x as int, from_y as int, from_z as int), p).update(
                    idx(to_x as int, to_y as int, to_z as int),
                    MicaPlayer::Nobody,
                ),
            ),
            MicaMove::SetRemove { x, y, z, remove_x, remove_y, remove_z } => self.with_board(
                b.update(idx(x as int, y as int, z as int), MicaPlayer::Nobody).update(
                    idx(remove_x as int, remove_y as int, remove_z as int),
                    opponent(p),
                ),
            ).add_on_board(p, -1).add_on_board(opponent(p), 1).add_to_place(p, 1),
            MicaMove::MoveRemove {
                from_x,
                from_y,
                from_z,
                to_x,
                to_y,
                to_z,
                remove_x,
                remove_y,
                remove_z,
            } => self.with_board(
                b.update(idx(from_x as int, from_y as int, from_z as int), p).update(
                    idx(to_x as int, to_y as int, to_z as int),
                    MicaPlayer::Nobody,
                ).update(idx(remove_x as int, remove_y as int, remove_z as int), opponent(p)),
            ).add_on_board(opponent(p), 1),
        }
    }

    /// A placement on an empty point during the placement phase.
    pub open spec fn can_set(self, x: int, y: int, z: int) -> bool {
        is_point(x, y, z) && self.cell(x, y, z) == MicaPlayer::Nobody && self.is_setting_phase()
    }

    /// A slide of one of the mover's stones onto an empty point.
    pub open spec fn can_slide(self, fx: int, fy: int, fz: int, tx: int, ty: int, tz: int) -> bool {
        is_point(fx, fy, fz) && is_point(tx, ty, tz) && self.cell(fx, fy, fz) == self.player
            && self.cell(tx, ty, tz) == MicaPlayer::Nobody
    }

    /// The removal of an opponent stone.
    pub open spec fn can_remove(self, x: int, y: int, z: int) -> bool {
        is_point(x, y, z) && self.cell(x, y, z) == opponent(self.player)
    }

    /// Whether `m` can be carried out on this position: its points exist, it moves onto
    /// empty points, it moves the mover's own stone and removes an opponent's.
    pub open spec fn applicable(self, m: MicaMove) -> bool {
        match m {
            MicaMove::Place { x, y, z } => self.can_set(x as int, y as int, z as int),
            MicaMove::Move { from_x, from_y, from_z, to_x, to_y, to_z } => self.can_slide(
                from_x as int,
                from_y as int,
                from_z as int,
                to_x as int,
                to_y as int,
                to_z as int,
            ),
            MicaMove::SetRemove { x, y, z, remove_x, remove_y, remove_z } => self.can_set(
                x as int,
                y as int,
                z as int,
            ) && self.can_remove(remove_x as int, remove_y as int, remove_z as int),
            MicaMove::MoveRemove {
                from_x,
                from_y,
                from_z,
                to_x,
                to_y,
                to_z,
                remove_x,
                remove_y,
                remove_z,
            } => self.can_slide(
                from_x as int,
                from_y as int,
                from_z as int,
                to_x as int,
                to_y as int,
                to_z as int,
            ) && self.can_remove(remove_x as int, remove_y as int, remove_z as int),
        }
    }
}

/// The cell values a snapshot may hold.
pub open spec fn decode_cell(v: i8) -> Option<MicaPlayer> {
    if v == 1 {
        Some(MicaPlayer::White)
    } else if v == 0 {
        Some(MicaPlayer::Nobody)
    } else if v == -1 {
        Some(MicaPlayer::Black)
    } else {
        None
    }
}

/// The snapshot's value of flat cell `i`.
pub open spec fn request_cell(r: MicaRequest, i: int) -> i8 {
    r.stones@[i / 9]@[(i % 9) / 3]@[i % 3]
}

/// The board a snapshot describes.
pub open spec fn request_board(r: MicaRequest) -> Seq<MicaPlayer> {
    Seq::new(CELLS as nat, |i: int| decode_cell(request_cell(r, i)).unwrap())
}

/// The position a snapshot describes.
pub open spec fn request_position(r: MicaRequest) -> Position {
    Position {
        board: request_board(r),
        player: if r.player == 1 {
            MicaPlayer::White
        } else {
            MicaPlayer::Black
        },
        white_on_board: r.white_count as int,
        black_on_board: r.black_count as int,
        white_to_place: r.white_remaining as int,
        black_to_place: r.black_remaining as int,
    }
}

/// A snapshot is accepted when every cell holds -1, 0 or 1, the ring centres are empty
/// and the on-board counts match the board.
pub open spec fn request_valid(r: MicaRequest) -> bool {
    &&& forall|i: int| 0 <= i < CELLS ==> (#[trigger] decode_cell(request_cell(r, i))).is_some()
    &&& request_position(r).wf()
}

/// The position a new game starts from: an empty board, nine stones to place each,
/// White to move.
pub open spec fn initial_position() -> Position {
    Position {
        board: Seq::new(CELLS as nat, |i: int| MicaPlayer::Nobody),
        player: MicaPlayer::White,
        white_on_board: 0,
        black_on_board: 0,
        white_to_place: STONES_PER_SIDE as int,
        black_to_place: STONES_PER_SIDE as int,
    }
}

/// Every point of a move lies on the board.
pub open spec fn move_on_board(m: MicaMove) -> bool {
    match m {
        MicaMove::Place { x, y, z } => is_point(x as int, y as int, z as int),
        MicaMove::Move { from_x, from_y, from_z, to_x, to_y, to_z } => is_point(
            from_x as int,
            from_y as int,
            from_z as int,
        ) && is_point(to_x as int, to_y as int, to_z as int),
        MicaMove::SetRemove { x, y, z, remove_x, remove_y, remove_z } => is_point(
            x as int,
            y as int,
            z as int,
        ) && is_point(remove_x as int, remove_y as int, remove_z as int),
        MicaMove::MoveRemove {
            from_x,
            from_y,
            from_z,
            to_x,
            to_y,
            to_z,
            remove_x,
            remove_y,
            remove_z,
        } => is_point(from_x as int, from_y as int, from_z as int) && is_point(
            to_x as int,
            to_y as int,
            to_z as int,
        ) && is_point(remove_x as int, remove_y as int, remove_z as int),
    }
}

impl Position {
    /// What taking back `m` needs so that no counter leaves the range of a byte.
    pub open spec fn can_undo(self, m: MicaMove) -> bool {
        let p = self.player;
        &&& self.board.len() == CELLS
        &&& p.is_side()
        &&& move_on_board(m)
        &&& match m {
            MicaMove::Place { .. } => self.on_board_of(p) >= 1 && self.to_place_of(p) < 255,
            MicaMove::Move { .. } => true,
            MicaMove::SetRemove { .. } => self.on_board_of(p) >= 1 && self.to_place_of(p) < 255
                && self.on_board_of(opponent(p)) < 255,
            MicaMove::MoveRemove { .. } => self.on_board_of(opponent(p)) < 255,
        }
    }
}

pub proof fn lemma_count_empty(n: nat, p: MicaPlayer)
    requires
        p.is_side(),
    ensures
        count_of(Seq::new(n, |i: int| MicaPlayer::Nobody), p) == 0,
    decreases n,
{
    if n > 0 {
        lemma_count_empty((n - 1) as nat, p);
        assert(Seq::new(n, |i: int| MicaPlayer::Nobody).drop_last() =~= Seq::new(
            (n - 1) as nat,
            |i: int| MicaPlayer::Nobody,
        ));
    }
}

/// A move carried out on a well-formed position can be taken back.
pub proof fn lemma_apply_can_undo(s: Position, m: MicaMove)
    requires
        s.wf(),
        s.applicable(m),
    ensures
        s.apply(m).can_undo(m),
{
    lemma_count_bound(s.board, MicaPlayer::White);
    lemma_count_bound(s.board, MicaPlayer::Black);
}

impl View for MicaState {
    type V = Position;

    closed spec fn view(&self) -> Position {
        Position {
            board: self.stones@,
            player: self.current_player,
            white_on_board: self.white_remaining as int,
            black_on_board: self.black_remaining as int,
            white_to_place: self.white_to_set as int,
            black_to_place: self.black_to_set as int,
        }
    }
}

/// Flat index of a board point.
pub(crate) fn cell_index(x: u8, y: u8, z: u8) -> (r: usize)
    requires
        x < 3,
        y < 3,
        z < 3,
    ensures
        r as int == idx(x as int, y as int, z as int),
        r < CELLS,
{
    9 * x as usize + 3 * y as usize + z as usize
}

impl MicaState {
    /// A new game: empty board, nine stones to place each, White to move.
    pub fn new() -> (r: Self)
        ensures
            r@ == initial_position(),
            r@.wf(),
    {
        let mut stones: Vec<MicaPlayer> = Vec::new();
        let mut i: usize = 0;
        while i < CELLS
            invariant
                i <= CELLS,
                stones@ =~= Seq::new(i as nat, |k: int| MicaPlayer::Nobody),
            decreases CELLS - i,
        {
            stones.push(MicaPlayer::Nobody);
            i = i + 1;
        }
        let r = MicaState {
            white_remaining: 0,
            black_remaining: 0,
            white_to_set: STONES_PER_SIDE,
            black_to_set: STONES_PER_SIDE,
            current_player: MicaPlayer::White,
            stones,
        };
        proof {
            lemma_count_empty(CELLS as nat, MicaPlayer::White);
            lemma_count_empty(CELLS as nat, MicaPlayer::Black);
            assert(r@.board =~= initial_position().board);
        }
        r
    }

    /// Decodes a client snapshot; `None` when it is malformed (see `request_valid`).
    pub fn from_request(request: MicaRequest) -> (r: Option<Self>)
        ensures
            r.is_some() <==> request_valid(request),
            r matches Some(s) ==> s@ == request_position(request),
    {
        let mut stones: Vec<MicaPlayer> = Vec::new();
        let mut whites: u8 = 0;
        let mut blacks: u8 = 0;
        let mut i: usize = 0;
        while i < CELLS
            invariant
                i <= CELLS,
                stones@.len() == i,
                forall|k: int| 0 <= k < i ==> (#[trigger] decode_cell(request_cell(request, k))).is_some(),
                forall|k: int| 0 <= k < i ==> stones@[k] == request_board(request)[k],
                whites as nat == count_of(stones@, MicaPlayer::White),
                blacks as nat == count_of(stones@, MicaPlayer::Black),
                whites <= i,
                blacks <= i,
            decreases CELLS - i,
        {
            let v = request.stones[i / 9][(i % 9) / 3][i % 3];
            assert(v == request_cell(request, i as int));
            let cell = if v == 1 {
                MicaPlayer::White
            } else if v == 0 {
                MicaPlayer::Nobody
            } else if v == -1 {
                MicaPlayer::Black
            } else {
                proof {
                    assert(decode_cell(request_cell(request, i as int)).is_none());
                }
                return None;
            };
            proof {
                assert((stones@.push(cell)).drop_last() =~= stones@);
            }
            stones.push(cell);
            if cell == MicaPlayer::White {
                whites = whites + 1;
            } else if cell == MicaPlayer::Black {
                blacks = blacks + 1;
            }
            i = i + 1;
        }
        proof {
            assert(stones@ =~= request_board(request));
        }
        if stones[4] != MicaPlayer::Nobody || stones[13] != MicaPlayer::Nobody || stones[22]
            != MicaPlayer::Nobody {
            proof {
                assert(idx(0, 1, 1) == 4 && idx(1, 1, 1) == 13 && idx(2, 1, 1) == 22);
            }
            return None;
        }
        if whites != request.white_count || blacks != request.black_count {
            return None;
        }
        let r = MicaState {
            white_remaining: request.white_count,
            black_remaining: request.black_count,
            white_to_set: request.white_remaining,
            black_to_set: request.black_remaining,
            current_player: if request.player == 1 {
                MicaPlayer::White
            } else {
                MicaPlayer::Black
            },
            stones,
        };
        proof {
            assert forall|x: int| 0 <= x < 3 implies #[trigger] r@.board[idx(x, 1, 1)]
                == MicaPlayer::Nobody by {
                assert(x == 0 || x == 1 || x == 2);
            }
        }
        Some(r)
    }

    /// The owner of flat cell `i`.
    pub fn cell(&self, i: usize) -> (r: MicaPlayer)
        requires
            i < self@.board.len(),
        ensures
            r == self@.board[i as int],
    {
        self.stones[i]
    }

    /// The side to move.
    pub fn side_to_move(&self) -> (r: MicaPlayer)
        ensures
            r == self@.player,
    {
        self.current_player
    }

    /// White's stones on the board.
    pub fn white_on_board(&self) -> (r: u8)
        ensures
            r as int == self@.white_on_board,
    {
        self.white_remaining
    }

    /// Black's stones on the board.
    pub fn black_on_board(&self) -> (r: u8)
        ensures
            r as int == self@.black_on_board,
    {
        self.black_remaining
    }

    /// White's stones still to place.
    pub fn white_to_place(&self) -> (r: u8)
        ensures
            r as int == self@.white_to_place,
    {
        self.white_to_set
    }

    /// Black's stones still to place.
    pub fn black_to_place(&self) -> (r: u8)
        ensures
            r as int == self@.black_to_place,
    {
        self.black_to_set
    }

    /// Hands the turn to the other side.
    pub fn pass_turn(&mut self)
        ensures
            final(self)@ == old(self)@.toggled(),
    {
        self.current_player.toggle();
    }

    fn increment_player(&mut self)
        requires
            old(self)@.player.is_side(),
            old(self)@.on_board_of(old(self)@.player) < 255,
        ensures
            final(self)@ == old(self)@.add_on_board(old(self)@.player, 1),
    {
        match self.current_player {
            MicaPlayer::White => {
                self.white_remaining += 1;
            },
            MicaPlayer::Black => {
                self.black_remaining += 1;
            },
            MicaPlayer::Nobody => {},
        }
    }

    fn increment_oponent(&mut self)
        requires
            old(self)@.player.is_side(),
            old(self)@.on_board_of(opponent(old(self)@.player)) < 255,
        ensures
            final(self)@ == old(self)@.add_on_board(opponent(old(self)@.player), 1),
    {
        match self.current_player {
            MicaPlayer::White => {
                self.black_remaining += 1;
            },
            MicaPlayer::Black => {
                self.white_remaining += 1;
            },
            MicaPlayer::Nobody => {},
        }
    }

    fn decrement_player(&mut self)
        requires
            old(self)@.player.is_side(),
            old(self)@.on_board_of(old(self)@.player) >= 1,
        ensures
            final(self)@ == old(self)@.add_on_board(old(self)@.player, -1),
    {
        match self.current_player {
            MicaPlayer::White => {
                self.white_remaining -= 1;
            },
            MicaPlayer::Black => {
                self.black_remaining -= 1;
            },
            MicaPlayer::Nobody => {},
        }
    }

    fn decrement_oponent(&mut self)
        requires
            old(self)@.player.is_side(),
            old(self)@.on_board_of(opponent(old(self)@.player)) >= 1,
        ensures
            final(self)@ == old(self)@.add_on_board(opponent(old(self)@.player), -1),
    {
        match self.current_player {
            MicaPlayer::White => {
                self.black_remaining -= 1;
            },
            MicaPlayer::Black => {
                self.white_remaining -= 1;
            },
            MicaPlayer::Nobody => {},
        }
    }

    fn increment_remaining_to_set(&mut self)
        requires
            old(self)@.player.is_side(),
            old(self)@.to_place_of(old(self)@.player) < 255,
        ensures
            final(self)@ == old(self)@.add_to_place(old(self)@.player, 1),
    {
        match self.current_player {
            MicaPlayer::White => {
                self.white_to_set += 1;
            },
            MicaPlayer::Black => {
                self.black_to_set += 1;
            },
            MicaPlayer::Nobody => {},
        }
    }

    fn decrement_remaining_to_set(&mut self)
        requires
            old(self)@.player.is_side(),
            old(self)@.to_place_of(old(self)@.player) >= 1,
        ensures
            final(self)@ == old(self)@.add_to_place(old(self)@.player, -1),
    {
        match self.current_player {
            MicaPlayer::White => {
                self.white_to_set -= 1;
            },
            MicaPlayer::Black => {
                self.black_to_set -= 1;
            },
            MicaPlayer::Nobody => {},
        }
    }

    fn put(&mut self, i: usize, v: MicaPlayer)
        requires
            i < old(self)@.board.len(),
        ensures
            final(self)@ == old(self)@.with_board(old(self)@.board.update(i as int, v)),
    {
        self.stones.set(i, v);
    }

    /// Carries out a move of the side to move.
    pub fn apply_move(&mut self, mica_move: MicaMove)
        requires
            old(self)@.wf(),
            old(self)@.applicable(mica_move),
        ensures
            final(self)@ == old(self)@.apply(mica_move),
            final(self)@.wf(),
    {
        proof {
            lemma_count_bound(self@.board, MicaPlayer::White);
            lemma_count_bound(self@.board, MicaPlayer::Black);
            lemma_apply_wf(self@, mica_move);
        }
        let ghost s0 = self@;
        let p = self.current_player;
        match mica_move {
            MicaMove::Place { x, y, z } => {
                self.put(cell_index(x, y, z), p);
                self.increment_player();
                self.decrement_remaining_to_set();
            },
            MicaMove::Move { from_x, from_y, from_z, to_x, to_y, to_z } => {
                self.put(cell_index(from_x, from_y, from_z), MicaPlayer::Nobody);
                self.put(cell_index(to_x, to_y, to_z), p);
            },
            MicaMove::SetRemove { x, y, z, remove_x, remove_y, remove_z } => {
                let r = cell_index(remove_x, remove_y, remove_z);
                proof {
                    lemma_count_positive(s0.board, r as int, opponent(p));
                }
                self.put(cell_index(x, y, z), p);
                self.put(r, MicaPlayer::Nobody);
                self.increment_player();
                self.decrement_oponent();
                self.decrement_remaining_to_set();
            },
            MicaMove::MoveRemove {
                from_x,
                from_y,
                from_z,
                to_x,
                to_y,
                to_z,
                remove_x,
                remove_y,
                remove_z,
            } => {
                let r = cell_index(remove_x, remove_y, remove_z);
                proof {
                    lemma_count_positive(s0.board, r as int, opponent(p));
                }
                self.put(cell_index(from_x, from_y, from_z), MicaPlayer::Nobody);
                self.put(cell_index(to_x, to_y, to_z), p);
                self.put(r, MicaPlayer::Nobody);
                self.decrement_oponent();
            },
        }
    }

    /// Takes back a move of the side to move.
    pub fn undo_move(&mut self, mica_move: MicaMove)
        requires
            old(self)@.can_undo(mica_move),
        ensures
            final(self)@ == old(self)@.undo(mica_move),
    {
        let p = self.current_player;
        let o = p.into_next_player();
        match mica_move {
            MicaMove::Place { x, y, z } => {
                self.put(cell_index(x, y, z), MicaPlayer::Nobody);
                self.decrement_player();
                self.increment_remaining_to_set();
            },
            MicaMove::Move { from_x, from_y, from_z, to_x, to_y, to_z } => {
                self.put(cell_index(from_x, from_y, from_z), p);
                self.put(cell_index(to_x, to_y, to_z), MicaPlayer::Nobody);
            },
            MicaMove::SetRemove { x, y, z, remove_x, remove_y, remove_z } => {
                self.put(cell_index(x, y, z), MicaPlayer::Nobody);
                self.put(cell_index(remove_x, remove_y, remove_z), o);
                self.decrement_player();
                self.increment_oponent();
                self.increment_remaining_to_set();
            },
            MicaMove::MoveRemove {
                from_x,
                from_y,
                from_z,
                to_x,
                to_y,
                to_z,
                remove_x,
                remove_y,
                remove_z,
            } => {
                self.put(cell_index(from_x, from_y, from_z), p);
                self.put(cell_index(to_x, to_y, to_z), MicaPlayer::Nobody);
                self.put(cell_index(remove_x, remove_y, remove_z), o);
                self.increment_oponent();
            },
        }
    }

    /// Whether both sides still have stones to place.
    pub(crate) fn is_setting_phase(&self) -> (r: bool)
        ensures
            r == self@.is_setting_phase(),
    {
        self.white_to_set > 0 && self.black_to_set > 0
    }
}

/// Taking back a move restores the position it was made from, field by field.
pub proof fn lemma_undo_apply(s: Position, m: MicaMove)
    requires
        s.wf(),
        s.applicable(m),
    ensures
        s.apply(m).undo(m) == s,
{
    let t = s.apply(m).undo(m);
    assert(t.board =~= s.board);
}

/// A move carried out on a well-formed position leaves it well formed.
pub proof fn lemma_apply_wf(s: Position, m: MicaMove)
    requires
        s.wf(),
        s.applicable(m),
    ensures
        s.apply(m).wf(),
{
    let p = s.player;
    let b = s.board;
    match m {
        MicaMove::Place { x, y, z } => {
            let i = idx(x as int, y as int, z as int);
            lemma_count_update(b, i, p, MicaPlayer::White);
            lemma_count_update(b, i, p, MicaPlayer::Black);
        },
        MicaMove::Move { from_x, from_y, from_z, to_x, to_y, to_z } => {
            let f = idx(from_x as int, from_y as int, from_z as int);
            let t = idx(to_x as int, to_y as int, to_z as int);
            let b1 = b.update(f, MicaPlayer::Nobody);
            lemma_count_update(b, f, MicaPlayer::Nobody, MicaPlayer::White);
            lemma_count_update(b, f, MicaPlayer::Nobody, MicaPlayer::Black);
            lemma_count_update(b1, t, p, MicaPlayer::White);
            lemma_count_update(b1, t, p, MicaPlayer::Black);
        },
        MicaMove::SetRemove { x, y, z, remove_x, remove_y, remove_z } => {
            let i = idx(x as int, y as int, z as int);
            let r = idx(remove_x as int, remove_y as int, remove_z as int);
            let b1 = b.update(i, p);
            lemma_count_update(b, i, p, MicaPlayer::White);
            lemma_count_update(b, i, p, MicaPlayer::Black);
            lemma_count_update(b1, r, MicaPlayer::Nobody, MicaPlayer::White);
            lemma_count_update(b1, r, MicaPlayer::Nobody, MicaPlayer::Black);
        },
        MicaMove::MoveRemove {
            from_x,
            from_y,
            from_z,
            to_x,
            to_y,
            to_z,
            remove_x,
            remove_y,
            remove_z,
        } => {
            let f = idx(from_x as int, from_y as int, from_z as int);
            let t = idx(to_x as int, to_y as int, to_z as int);
            let r = idx(remove_x as int, remove_y as int, remove_z as int);
            let b1 = b.update(f, MicaPlayer::Nobody);
            let b2 = b1.update(t, p);
            lemma_count_update(b, f, MicaPlayer::Nobody, MicaPlayer::White);
            lemma_count_update(b, f, MicaPlayer::Nobody, MicaPlayer::Black);
            lemma_count_update(b1, t, p, MicaPlayer::White);
            lemma_count_update(b1, t, p, MicaPlayer::Black);
            lemma_count_update(b2, r, MicaPlayer::Nobody, MicaPlayer::White);
            lemma_count_update(b2, r, MicaPlayer::Nobody, MicaPlayer::Black);
        },
    }
    let a = s.apply(m);
    assert forall|x: int| 0 <= x < 3 implies #[trigger] a.board[idx(x, 1, 1)]
        == MicaPlayer::Nobody by {
        assert(s.board[idx(x, 1, 1)] == MicaPlayer::Nobody);
    }
}

} // verus!
