use mica::{best_root_move, MicaMove, MicaPlayer, MicaRequest, MicaState, Minimax};

fn state(
    player: i8,
    white_to_place: u8,
    black_to_place: u8,
    cells: &[(usize, usize, usize, i8)],
) -> MicaState {
    let mut stones = [[[0i8; 3]; 3]; 3];
    let mut whites = 0u8;
    let mut blacks = 0u8;
    for &(x, y, z, v) in cells {
        stones[x][y][z] = v;
        if v == 1 {
            whites += 1;
        } else if v == -1 {
            blacks += 1;
        }
    }
    MicaState::from_request(MicaRequest {
        difficulty: String::new(),
        player,
        white_remaining: white_to_place,
        black_remaining: black_to_place,
        white_count: whites,
        black_count: blacks,
        stones,
    })
    .unwrap()
}

/// Plain minimax over every move, without pruning.
fn full_width(s: &MicaState, depth: u8) -> i32 {
    if depth == 0 || s.is_end() {
        return s.eval();
    }
    let moves = s.get_moves();
    if moves.is_empty() {
        return s.eval();
    }
    let values = moves.iter().map(|&m| {
        let mut c = s.clone();
        c.apply_move(m);
        c.pass_turn();
        full_width(&c, depth - 1)
    });
    if s.side_to_move() == MicaPlayer::White {
        values.max().unwrap()
    } else {
        values.min().unwrap()
    }
}

fn lands_on(m: &MicaMove) -> (u8, u8, u8) {
    match *m {
        MicaMove::Place { x, y, z } => (x, y, z),
        MicaMove::SetRemove { x, y, z, .. } => (x, y, z),
        MicaMove::Move { to_x, to_y, to_z, .. } => (to_x, to_y, to_z),
        MicaMove::MoveRemove { to_x, to_y, to_z, .. } => (to_x, to_y, to_z),
    }
}

#[test]
fn empty_board_depth_zero_is_worth_nothing() {
    let mut s = MicaState::new();
    assert_eq!(s.minimax(0, i32::MIN, i32::MAX), (0, None));
}

#[test]
fn empty_board_has_one_placement_per_point() {
    let moves = MicaState::new().get_moves();
    assert_eq!(moves.len(), 24);
    assert_eq!(moves[0], MicaMove::Place { x: 0, y: 0, z: 0 });
    assert_eq!(moves[23], MicaMove::Place { x: 2, y: 2, z: 2 });
    assert!(moves.iter().all(|m| matches!(m, MicaMove::Place { .. })));
}

#[test]
fn no_move_touches_a_ring_centre() {
    let boards = [
        state(1, 9, 9, &[]),
        state(-1, 5, 5, &[(0, 0, 0, 1), (0, 0, 1, 1), (1, 0, 1, -1), (2, 1, 0, -1)]),
        state(1, 0, 0, &[(0, 0, 1, 1), (0, 1, 0, 1), (1, 0, 1, 1), (1, 2, 1, -1), (2, 1, 2, -1), (0, 1, 2, -1)]),
    ];
    for s in boards.iter() {
        for m in s.get_moves() {
            let (_, y, z) = lands_on(&m);
            assert!(!(y == 1 && z == 1));
            if let MicaMove::Move { from_y, from_z, .. } | MicaMove::MoveRemove { from_y, from_z, .. } = m {
                assert!(!(from_y == 1 && from_z == 1));
            }
        }
    }
}

#[test]
fn closing_a_mill_removes_each_removable_stone() {
    // White holds (0,0,0) and (0,0,1); placing on (0,0,2) closes the row.
    let s = state(1, 7, 7, &[(0, 0, 0, 1), (0, 0, 1, 1), (1, 2, 2, -1), (2, 1, 0, -1)]);
    let moves = s.get_moves();
    let closing: Vec<MicaMove> = moves.iter().copied().filter(|m| lands_on(m) == (0, 0, 2)).collect();
    assert_eq!(
        closing,
        vec![
            MicaMove::SetRemove { x: 0, y: 0, z: 2, remove_x: 1, remove_y: 2, remove_z: 2 },
            MicaMove::SetRemove { x: 0, y: 0, z: 2, remove_x: 2, remove_y: 1, remove_z: 0 },
        ]
    );
    // a point that closes no mill is a plain placement
    assert!(moves.contains(&MicaMove::Place { x: 0, y: 1, z: 0 }));
}

#[test]
fn closing_a_mill_without_removable_stone_gives_no_move_there() {
    // Black's only stones form a mill, so none may be removed.
    let s = state(1, 7, 6, &[(0, 0, 0, 1), (0, 0, 1, 1), (1, 0, 0, -1), (1, 0, 1, -1), (1, 0, 2, -1)]);
    let moves = s.get_moves();
    assert!(moves.iter().all(|m| lands_on(m) != (0, 0, 2)));
    assert!(moves.contains(&MicaMove::Place { x: 2, y: 2, z: 2 }));
    assert_eq!(moves.len(), 27 - 3 - 5 - 1);
}

#[test]
fn opponent_pair_is_no_mill_for_the_mover() {
    // Black's pair on (1,2,0),(1,2,1) does not make White's placement at (1,2,2) a mill.
    let s = state(1, 8, 7, &[(1, 2, 0, -1), (1, 2, 1, -1), (0, 0, 0, 1)]);
    assert!(s.get_moves().contains(&MicaMove::Place { x: 1, y: 2, z: 2 }));
}

#[test]
fn slides_go_to_adjacent_empty_points() {
    // Movement phase: White's stone at (1,0,1) can go left, right, in and out.
    let s = state(1, 0, 0, &[(1, 0, 1, 1), (0, 0, 0, 1), (0, 2, 2, 1), (2, 2, 2, -1), (2, 2, 0, -1), (0, 2, 0, -1)]);
    let from_mid: Vec<(u8, u8, u8)> = s
        .get_moves()
        .iter()
        .filter_map(|m| match *m {
            MicaMove::Move { from_x: 1, from_y: 0, from_z: 1, to_x, to_y, to_z } => Some((to_x, to_y, to_z)),
            _ => None,
        })
        .collect();
    assert_eq!(from_mid, vec![(1, 0, 0), (1, 0, 2), (0, 0, 1), (2, 0, 1)]);
}

#[test]
fn slide_closing_a_mill_removes_a_stone() {
    // (0,0,1) is empty between White's (0,0,0) and (0,0,2); White's (1,0,1) can slide in.
    let s = state(1, 0, 0, &[(0, 0, 0, 1), (0, 0, 2, 1), (1, 0, 1, 1), (2, 2, 2, -1), (2, 2, 0, -1), (0, 2, 0, -1)]);
    let moves = s.get_moves();
    let closing: Vec<MicaMove> = moves
        .iter()
        .copied()
        .filter(|m| matches!(m, MicaMove::MoveRemove { from_x: 1, from_y: 0, from_z: 1, .. }))
        .collect();
    assert_eq!(closing.len(), 3);
    assert_eq!(
        closing[0],
        MicaMove::MoveRemove {
            from_x: 1,
            from_y: 0,
            from_z: 1,
            to_x: 0,
            to_y: 0,
            to_z: 1,
            remove_x: 0,
            remove_y: 2,
            remove_z: 0,
        }
    );
    // sliding along the row itself does not close it
    assert!(moves.contains(&MicaMove::Move { from_x: 0, from_y: 0, from_z: 0, to_x: 0, to_y: 0, to_z: 1 }));
}

#[test]
fn alpha_beta_matches_full_width_search() {
    let boards = [
        state(1, 2, 2, &[(0, 0, 0, 1), (0, 0, 1, 1), (1, 0, 1, -1), (2, 1, 0, -1), (2, 2, 2, -1)]),
        state(-1, 2, 1, &[(0, 0, 0, 1), (0, 0, 1, 1), (1, 0, 1, -1), (1, 2, 1, -1), (2, 2, 2, 1)]),
        state(1, 0, 0, &[(0, 0, 1, 1), (0, 1, 0, 1), (1, 0, 1, 1), (1, 2, 1, -1), (2, 1, 2, -1), (0, 1, 2, -1)]),
        state(-1, 0, 0, &[(0, 0, 1, 1), (0, 1, 0, 1), (1, 0, 1, 1), (1, 2, 1, -1), (2, 1, 2, -1), (0, 1, 2, -1)]),
    ];
    for s in boards.iter() {
        for depth in 0..4u8 {
            let mut t = s.clone();
            let (value, best) = t.minimax(depth, i32::MIN, i32::MAX);
            assert_eq!(value, full_width(s, depth), "depth {}", depth);
            if let Some(m) = best {
                let mut c = s.clone();
                c.apply_move(m);
                c.pass_turn();
                assert_eq!(full_width(&c, depth - 1), value);
            }
        }
    }
}

#[test]
fn search_leaves_the_state_unchanged() {
    let s = state(1, 2, 2, &[(0, 0, 0, 1), (0, 0, 1, 1), (1, 0, 1, -1), (2, 1, 0, -1), (2, 2, 2, -1)]);
    let mut t = s.clone();
    let _ = t.minimax(3, i32::MIN, i32::MAX);
    assert_eq!((0..27).map(|i| t.cell(i)).collect::<Vec<_>>(), (0..27).map(|i| s.cell(i)).collect::<Vec<_>>());
    assert_eq!(t.side_to_move(), s.side_to_move());
    assert_eq!(t.white_to_place(), 2);
    assert_eq!(t.black_on_board(), 3);
}

#[test]
fn white_takes_the_mill() {
    let mut s = state(1, 2, 2, &[(0, 0, 0, 1), (0, 0, 1, 1), (1, 0, 1, -1), (2, 1, 0, -1), (2, 2, 2, -1)]);
    let (value, best) = s.minimax(1, i32::MIN, i32::MAX);
    assert_eq!(value, 3 - 2);
    assert_eq!(
        best,
        Some(MicaMove::SetRemove { x: 0, y: 0, z: 2, remove_x: 1, remove_y: 0, remove_z: 1 })
    );
}

#[test]
fn narrow_window_bounds_the_value() {
    let s = state(1, 2, 2, &[(0, 0, 0, 1), (0, 0, 1, 1), (1, 0, 1, -1), (2, 1, 0, -1), (2, 2, 2, -1)]);
    let exact = full_width(&s, 2);
    let mut t = s.clone();
    let (v, _) = t.minimax(2, exact + 5, exact + 10);
    assert!(v < exact + 5 && exact <= v);
    let mut u = s.clone();
    let (w, _) = u.minimax(2, exact - 10, exact - 5);
    assert!(w > exact - 5 && exact >= w);
}

#[test]
fn root_choice_prefers_best_value_then_first_move() {
    let moves = vec![
        MicaMove::Place { x: 0, y: 0, z: 0 },
        MicaMove::Place { x: 0, y: 0, z: 1 },
        MicaMove::Place { x: 0, y: 0, z: 2 },
    ];
    let results = vec![(2usize, 3i32), (0, 1), (1, 3)];
    assert_eq!(best_root_move(MicaPlayer::White, &moves, &results), Some(moves[1]));
    assert_eq!(best_root_move(MicaPlayer::Black, &moves, &results), Some(moves[0]));
    assert_eq!(best_root_move(MicaPlayer::White, &moves, &vec![]), None);
    let reversed = vec![(1usize, 3i32), (0, 1), (2, 3)];
    assert_eq!(best_root_move(MicaPlayer::White, &moves, &reversed), Some(moves[1]));
}
