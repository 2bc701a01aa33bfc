use mica::{MicaMove, MicaPlayer, MicaRequest, MicaState, Minimax, MinimaxPlayer};

fn request(
    player: i8,
    white_to_place: u8,
    black_to_place: u8,
    cells: &[(usize, usize, usize, i8)],
) -> MicaRequest {
    let mut stones = [[[0i8; 3]; 3]; 3];
    let mut whites = 0u8;
    let mut blacks = 0u8;
    for &(x, y, z, v) in cells {
        stones[x][y][z] = v;
        if v == 1 {
            whites += 1;
        } else if v == -1 {
            blacks += 1;
        }
    }
    MicaRequest {
        difficulty: String::from("hard"),
        player,
        white_remaining: white_to_place,
        black_remaining: black_to_place,
        white_count: whites,
        black_count: blacks,
        stones,
    }
}

fn state(
    player: i8,
    white_to_place: u8,
    black_to_place: u8,
    cells: &[(usize, usize, usize, i8)],
) -> MicaState {
    MicaState::from_request(request(player, white_to_place, black_to_place, cells)).unwrap()
}

fn cells_of(s: &MicaState) -> Vec<MicaPlayer> {
    (0..27).map(|i| s.cell(i)).collect()
}

fn same_state(a: &MicaState, b: &MicaState) -> bool {
    cells_of(a) == cells_of(b)
        && a.side_to_move() == b.side_to_move()
        && a.white_on_board() == b.white_on_board()
        && a.black_on_board() == b.black_on_board()
        && a.white_to_place() == b.white_to_place()
        && a.black_to_place() == b.black_to_place()
}

#[test]
fn new_state_is_empty_with_nine_to_place() {
    let s = MicaState::new();
    assert!(cells_of(&s).iter().all(|&c| c == MicaPlayer::Nobody));
    assert_eq!(s.side_to_move(), MicaPlayer::White);
    assert_eq!(s.white_on_board(), 0);
    assert_eq!(s.black_on_board(), 0);
    assert_eq!(s.white_to_place(), 9);
    assert_eq!(s.black_to_place(), 9);
}

#[test]
fn player_toggle_swaps_sides() {
    assert_eq!(MicaPlayer::White.into_next_player(), MicaPlayer::Black);
    assert_eq!(MicaPlayer::Black.into_next_player(), MicaPlayer::White);
    assert_eq!(MicaPlayer::Nobody.into_next_player(), MicaPlayer::Nobody);
    let mut p = MicaPlayer::White;
    p.toggle();
    assert_eq!(p, MicaPlayer::Black);
    p.toggle();
    assert_eq!(p, MicaPlayer::White);
}

#[test]
fn place_updates_cell_and_counters() {
    let mut s = MicaState::new();
    s.apply_move(MicaMove::Place { x: 1, y: 0, z: 2 });
    assert_eq!(s.cell(9 + 2), MicaPlayer::White);
    assert_eq!(s.white_on_board(), 1);
    assert_eq!(s.white_to_place(), 8);
    assert_eq!(s.black_to_place(), 9);
    assert_eq!(s.black_on_board(), 0);
}

#[test]
fn undo_restores_every_kind_of_move() {
    let s = state(1, 5, 5, &[(0, 0, 0, 1), (0, 0, 1, 1), (2, 2, 2, -1), (1, 2, 0, -1)]);
    let moves = [
        MicaMove::Place { x: 1, y: 1, z: 0 },
        MicaMove::SetRemove { x: 0, y: 0, z: 2, remove_x: 2, remove_y: 2, remove_z: 2 },
        MicaMove::Move { from_x: 0, from_y: 0, from_z: 1, to_x: 0, to_y: 1, to_z: 0 },
        MicaMove::MoveRemove {
            from_x: 0,
            from_y: 0,
            from_z: 0,
            to_x: 1,
            to_y: 0,
            to_z: 0,
            remove_x: 1,
            remove_y: 2,
            remove_z: 0,
        },
    ];
    for m in moves {
        let mut t = s.clone();
        t.apply_move(m);
        assert!(!same_state(&s, &t));
        t.undo_move(m);
        assert!(same_state(&s, &t), "{:?}", m);
    }
}

#[test]
fn remove_restores_opponent_stone_on_undo() {
    let mut s = state(-1, 4, 4, &[(0, 0, 0, 1), (1, 0, 1, -1), (1, 2, 1, -1)]);
    let m = MicaMove::SetRemove { x: 1, y: 1, z: 0, remove_x: 0, remove_y: 0, remove_z: 0 };
    s.apply_move(m);
    assert_eq!(s.cell(0), MicaPlayer::Nobody);
    assert_eq!(s.white_on_board(), 0);
    assert_eq!(s.black_on_board(), 3);
    assert_eq!(s.black_to_place(), 3);
    s.undo_move(m);
    assert_eq!(s.cell(0), MicaPlayer::White);
    assert_eq!(s.white_on_board(), 1);
    assert_eq!(s.black_on_board(), 2);
}

#[test]
fn eval_is_white_minus_black() {
    let s = state(1, 3, 3, &[(0, 0, 0, 1), (1, 0, 0, -1), (2, 0, 0, -1), (2, 2, 2, -1)]);
    assert_eq!(s.eval(), 1 - 3);
    let t = state(1, 3, 3, &[(0, 0, 0, 1), (0, 2, 2, 1), (2, 2, 2, -1)]);
    assert_eq!(t.eval(), 1);
    assert_eq!(MicaState::new().eval(), 0);
}

#[test]
fn end_needs_finished_placement_and_two_stones() {
    let two_white = [(0, 0, 0, 1), (0, 2, 2, 1), (1, 0, 0, -1), (1, 2, 2, -1), (2, 0, 0, -1)];
    let s = state(1, 0, 0, &two_white);
    assert!(s.is_end());
    assert!(s.eval() < 0);
    assert!(!state(1, 1, 0, &two_white).is_end());
    assert!(!state(1, 0, 1, &two_white).is_end());
    let three_each = [(0, 0, 0, 1), (0, 2, 2, 1), (0, 2, 0, 1), (1, 0, 0, -1), (1, 2, 2, -1), (2, 0, 0, -1)];
    assert!(!state(1, 0, 0, &three_each).is_end());
    let two_black = [(0, 0, 0, 1), (0, 2, 2, 1), (0, 2, 0, 1), (1, 0, 0, -1), (1, 2, 2, -1)];
    assert!(state(-1, 0, 0, &two_black).is_end());
    assert!(!MicaState::new().is_end());
}

#[test]
fn terminal_state_with_two_white_stones_is_lost_for_white() {
    let s = state(1, 0, 0, &[(0, 0, 0, 1), (2, 1, 0, 1), (1, 0, 0, -1), (1, 2, 2, -1), (2, 2, 1, -1)]);
    assert!(s.is_end());
    assert_eq!(s.eval(), -1);
    let mut t = s.clone();
    assert_eq!(t.minimax(4, i32::MIN, i32::MAX), (-1, None));
}

#[test]
fn request_with_bad_cell_value_is_refused() {
    let mut r = request(1, 9, 9, &[]);
    r.stones[0][0][0] = 2;
    assert!(MicaState::from_request(r).is_none());
}

#[test]
fn request_with_stone_in_ring_centre_is_refused() {
    let r = request(1, 8, 9, &[(1, 1, 1, 1)]);
    assert!(MicaState::from_request(r).is_none());
}

#[test]
fn request_with_wrong_counts_is_refused() {
    let mut r = request(1, 8, 8, &[(0, 0, 0, 1), (2, 0, 0, -1)]);
    r.white_count = 2;
    assert!(MicaState::from_request(r).is_none());
}

#[test]
fn request_decodes_board_counts_and_player() {
    let s = state(-1, 7, 6, &[(0, 0, 0, 1), (2, 2, 1, -1), (1, 1, 2, -1)]);
    assert_eq!(s.cell(0), MicaPlayer::White);
    assert_eq!(s.cell(18 + 6 + 1), MicaPlayer::Black);
    assert_eq!(s.cell(9 + 3 + 2), MicaPlayer::Black);
    assert_eq!(s.side_to_move(), MicaPlayer::Black);
    assert_eq!(s.white_on_board(), 1);
    assert_eq!(s.black_on_board(), 2);
    assert_eq!(s.white_to_place(), 7);
    assert_eq!(s.black_to_place(), 6);
    let w = state(1, 9, 9, &[]);
    assert_eq!(w.side_to_move(), MicaPlayer::White);
}

#[test]
fn pass_turn_switches_side() {
    let mut s = MicaState::new();
    s.pass_turn();
    assert_eq!(s.side_to_move(), MicaPlayer::Black);
    s.pass_turn();
    assert_eq!(s.side_to_move(), MicaPlayer::White);
}
