use connect_four::board::Board;
use connect_four::board::GameOutcome;
use connect_four::board::Space;

#[test]
fn empty_board_reads_empty() {
    let b = Board::new();
    for r in 0..6 {
        for c in 0..7 {
            assert_eq!(b.get(r, c), Some(Space::EMPTY));
        }
    }
    assert!(!b.is_full());
    assert_eq!(b.legal_columns(), vec![0, 1, 2, 3, 4, 5, 6]);
    assert_eq!(b.get_longest_sequence(Space::X), 0);
    assert_eq!(b.get_longest_sequence(Space::O), 0);
}

#[test]
fn get_out_of_range_is_none() {
    let b = Board::new();
    assert_eq!(b.get(-1, 0), None);
    assert_eq!(b.get(0, -1), None);
    assert_eq!(b.get(6, 0), None);
    assert_eq!(b.get(0, 7), None);
}

#[test]
fn gravity_stacks_pieces_bottom_up() {
    let mut b = Board::new();
    assert_eq!(b.insert(3, Space::X), Ok(GameOutcome::Continue));
    assert_eq!(b.insert(3, Space::O), Ok(GameOutcome::Continue));
    assert_eq!(b.insert(3, Space::X), Ok(GameOutcome::Continue));
    assert_eq!(b.get(0, 3), Some(Space::X));
    assert_eq!(b.get(1, 3), Some(Space::O));
    assert_eq!(b.get(2, 3), Some(Space::X));
    assert_eq!(b.get(3, 3), Some(Space::EMPTY));
    // no empty cell below an occupied one, anywhere
    for c in 0..7 {
        for r in 1..6 {
            if b.get(r, c) != Some(Space::EMPTY) {
                assert_ne!(b.get(r - 1, c), Some(Space::EMPTY));
            }
        }
    }
}

#[test]
fn insert_out_of_range_is_rejected() {
    let mut b = Board::new();
    assert!(b.insert(-1, Space::X).is_err());
    assert!(b.insert(7, Space::X).is_err());
    // the board is untouched
    for c in 0..7 {
        assert_eq!(b.get(0, c), Some(Space::EMPTY));
    }
}

#[test]
fn insert_into_full_column_is_rejected() {
    let mut b = Board::new();
    let fill = [Space::X, Space::X, Space::O, Space::O, Space::X, Space::X];
    for s in fill {
        assert_eq!(b.insert(0, s), Ok(GameOutcome::Continue));
    }
    assert!(b.insert(0, Space::X).is_err());
    assert!(b.insert(0, Space::O).is_err());
    assert_eq!(b.legal_columns(), vec![1, 2, 3, 4, 5, 6]);
}

#[test]
fn vertical_win_on_fourth_piece() {
    let mut b = Board::new();
    assert_eq!(b.insert(2, Space::X), Ok(GameOutcome::Continue));
    assert_eq!(b.insert(2, Space::X), Ok(GameOutcome::Continue));
    assert_eq!(b.insert(2, Space::X), Ok(GameOutcome::Continue));
    assert_eq!(b.insert(2, Space::X), Ok(GameOutcome::Win(Space::X)));
}

#[test]
fn horizontal_win_on_fourth_piece() {
    let mut b = Board::new();
    for c in [0, 1, 2] {
        assert_eq!(b.insert(c, Space::X), Ok(GameOutcome::Continue));
    }
    assert_eq!(b.insert(3, Space::X), Ok(GameOutcome::Win(Space::X)));
}

#[test]
fn horizontal_win_completed_in_the_middle() {
    let mut b = Board::new();
    for c in [0, 1, 3] {
        assert_eq!(b.insert(c, Space::O), Ok(GameOutcome::Continue));
    }
    assert_eq!(b.insert(2, Space::O), Ok(GameOutcome::Win(Space::O)));
}

#[test]
fn diagonal_up_right_win() {
    let mut b = Board::new();
    assert_eq!(b.insert(0, Space::X), Ok(GameOutcome::Continue));
    assert_eq!(b.insert(1, Space::O), Ok(GameOutcome::Continue));
    assert_eq!(b.insert(1, Space::X), Ok(GameOutcome::Continue));
    assert_eq!(b.insert(2, Space::O), Ok(GameOutcome::Continue));
    assert_eq!(b.insert(2, Space::O), Ok(GameOutcome::Continue));
    assert_eq!(b.insert(2, Space::X), Ok(GameOutcome::Continue));
    assert_eq!(b.insert(3, Space::O), Ok(GameOutcome::Continue));
    assert_eq!(b.insert(3, Space::O), Ok(GameOutcome::Continue));
    assert_eq!(b.insert(3, Space::O), Ok(GameOutcome::Continue));
    assert_eq!(b.insert(3, Space::X), Ok(GameOutcome::Win(Space::X)));
}

#[test]
fn diagonal_up_left_win() {
    let mut b = Board::new();
    assert_eq!(b.insert(6, Space::X), Ok(GameOutcome::Continue));
    assert_eq!(b.insert(5, Space::O), Ok(GameOutcome::Continue));
    assert_eq!(b.insert(5, Space::X), Ok(GameOutcome::Continue));
    assert_eq!(b.insert(4, Space::O), Ok(GameOutcome::Continue));
    assert_eq!(b.insert(4, Space::O), Ok(GameOutcome::Continue));
    assert_eq!(b.insert(4, Space::X), Ok(GameOutcome::Continue));
    assert_eq!(b.insert(3, Space::O), Ok(GameOutcome::Continue));
    assert_eq!(b.insert(3, Space::O), Ok(GameOutcome::Continue));
    assert_eq!(b.insert(3, Space::O), Ok(GameOutcome::Continue));
    assert_eq!(b.insert(3, Space::X), Ok(GameOutcome::Win(Space::X)));
}

#[test]
fn three_in_a_row_is_not_a_win() {
    let mut b = Board::new();
    assert_eq!(b.insert(0, Space::X), Ok(GameOutcome::Continue));
    assert_eq!(b.insert(1, Space::X), Ok(GameOutcome::Continue));
    assert_eq!(b.insert(2, Space::X), Ok(GameOutcome::Continue));
}

#[test]
fn interrupted_row_is_not_a_win() {
    let mut b = Board::new();
    assert_eq!(b.insert(0, Space::X), Ok(GameOutcome::Continue));
    assert_eq!(b.insert(1, Space::X), Ok(GameOutcome::Continue));
    assert_eq!(b.insert(2, Space::O), Ok(GameOutcome::Continue));
    assert_eq!(b.insert(3, Space::X), Ok(GameOutcome::Continue));
    assert_eq!(b.insert(4, Space::X), Ok(GameOutcome::Continue));
}

#[test]
fn opponent_fourth_piece_only_continues() {
    // X fills columns 0, 1, 2 of the bottom row; O takes column 3, and
    // nobody has won yet.
    let mut b = Board::new();
    for c in [0, 1, 2] {
        assert_eq!(b.insert(c, Space::X), Ok(GameOutcome::Continue));
    }
    assert_eq!(b.insert(3, Space::O), Ok(GameOutcome::Continue));
}

// A full 42-move game, alternating players, whose last move fills the
// board without a win.
const DRAW_GAME: [(i32, Space); 42] = [
    (5, Space::X),
    (4, Space::O),
    (5, Space::X),
    (0, Space::O),
    (6, Space::X),
    (2, Space::O),
    (4, Space::X),
    (5, Space::O),
    (5, Space::X),
    (0, Space::O),
    (4, Space::X),
    (1, Space::O),
    (1, Space::X),
    (0, Space::O),
    (4, Space::X),
    (5, Space::O),
    (6, Space::X),
    (5, Space::O),
    (3, Space::X),
    (1, Space::O),
    (1, Space::X),
    (2, Space::O),
    (2, Space::X),
    (6, Space::O),
    (2, Space::X),
    (6, Space::O),
    (6, Space::X),
    (3, Space::O),
    (6, Space::X),
    (2, Space::O),
    (0, Space::X),
    (3, Space::O),
    (0, Space::X),
    (3, Space::O),
    (3, Space::X),
    (4, Space::O),
    (3, Space::X),
    (1, Space::O),
    (4, Space::X),
    (2, Space::O),
    (1, Space::X),
    (0, Space::O),
];

#[test]
fn filling_move_without_win_is_a_draw_not_continue() {
    let mut b = Board::new();
    for (i, (c, s)) in DRAW_GAME.iter().enumerate() {
        let out = b.insert(*c, *s).unwrap();
        if i + 1 < DRAW_GAME.len() {
            assert_eq!(out, GameOutcome::Continue);
        } else {
            assert_eq!(out, GameOutcome::Draw);
        }
    }
    assert!(b.is_full());
}

#[test]
fn full_board_rejects_every_insert_and_has_no_legal_column() {
    let mut b = Board::new();
    for (c, s) in DRAW_GAME.iter() {
        b.insert(*c, *s).unwrap();
    }
    assert!(b.is_full());
    assert_eq!(b.legal_columns(), Vec::<usize>::new());
    for c in -1..8 {
        assert!(b.insert(c, Space::X).is_err());
        assert!(b.insert(c, Space::O).is_err());
    }
}

#[test]
fn longest_sequence_is_a_high_water_mark() {
    let mut b = Board::new();
    b.insert(0, Space::X).unwrap();
    b.insert(1, Space::X).unwrap();
    assert_eq!(b.get_longest_sequence(Space::X), 2);
    assert_eq!(b.get_longest_sequence(Space::O), 0);
    b.insert(0, Space::O).unwrap();
    b.insert(1, Space::O).unwrap();
    b.insert(2, Space::O).unwrap();
    assert_eq!(b.get_longest_sequence(Space::X), 2);
    assert_eq!(b.get_longest_sequence(Space::O), 2);
    // breaking up the position never lowers the mark
    b.insert(2, Space::X).unwrap();
    assert_eq!(b.get_longest_sequence(Space::O), 2);
}

#[test]
fn get_mut_writes_a_cell_in_place() {
    let mut b = Board::new();
    assert_eq!(b.get_mut(2, 4, Space::O), Some(()));
    assert_eq!(b.get(2, 4), Some(Space::O));
    assert_eq!(b.get_mut(6, 0, Space::X), None);
    assert_eq!(b.get_mut(0, -3, Space::X), None);
}

#[test]
fn duplicate_is_independent() {
    let mut b = Board::new();
    b.insert(3, Space::X).unwrap();
    let mut copy = b.duplicate();
    assert_eq!(copy.get(0, 3), Some(Space::X));
    copy.insert(3, Space::O).unwrap();
    assert_eq!(copy.get(1, 3), Some(Space::O));
    assert_eq!(b.get(1, 3), Some(Space::EMPTY));
}

#[test]
fn opposing_swaps_the_players() {
    assert_eq!(Space::X.opposing(), Space::O);
    assert_eq!(Space::O.opposing(), Space::X);
}
