use connect_four::board::Board;
use connect_four::board::Space;
use connect_four::search::choose_move;
use connect_four::search::heuristic;
use connect_four::search::negamax;
use connect_four::search::Score;

#[test]
fn first_move_on_empty_board_is_the_center() {
    let b = Board::new();
    for limit in 0..4 {
        assert_eq!(choose_move(&b, Space::X, limit), 3);
        assert_eq!(choose_move(&b, Space::O, limit), 3);
    }
}

#[test]
fn choose_move_is_deterministic() {
    let mut b = Board::new();
    b.insert(2, Space::X).unwrap();
    b.insert(4, Space::O).unwrap();
    b.insert(2, Space::X).unwrap();
    for limit in 0..4 {
        let first = choose_move(&b, Space::O, limit);
        let second = choose_move(&b, Space::O, limit);
        assert_eq!(first, second);
    }
}

#[test]
fn immediate_vertical_win_is_taken_at_every_limit() {
    let mut b = Board::new();
    for _ in 0..3 {
        b.insert(0, Space::X).unwrap();
    }
    for limit in 0..4 {
        assert_eq!(choose_move(&b, Space::X, limit), 0);
    }
}

#[test]
fn immediate_horizontal_win_is_taken_at_every_limit() {
    let mut b = Board::new();
    for c in [0, 1, 2] {
        b.insert(c, Space::X).unwrap();
    }
    for limit in 0..4 {
        assert_eq!(choose_move(&b, Space::X, limit), 3);
    }
}

#[test]
fn winning_branch_scores_the_win_sentinel() {
    let mut b = Board::new();
    for _ in 0..3 {
        b.insert(6, Space::O).unwrap();
    }
    let (score, col) = negamax(&b, Space::O, 1);
    assert_eq!(score, Score::Win);
    assert_eq!(col, 6);
}

#[test]
fn opponent_threat_is_blocked_with_lookahead() {
    // O threatens a vertical four in column 0; with at least one ply of
    // lookahead X must answer there.
    let mut b = Board::new();
    for _ in 0..3 {
        b.insert(0, Space::O).unwrap();
    }
    assert_eq!(choose_move(&b, Space::X, 1), 0);
    assert_eq!(choose_move(&b, Space::X, 2), 0);
}

#[test]
fn heuristic_is_the_run_counter_difference() {
    let mut b = Board::new();
    b.insert(0, Space::X).unwrap();
    b.insert(1, Space::X).unwrap();
    assert_eq!(heuristic(&b, Space::X), 2);
    assert_eq!(heuristic(&b, Space::O), -2);
    b.insert(3, Space::O).unwrap();
    assert_eq!(heuristic(&b, Space::X), 1);
}

#[test]
fn search_leaves_the_board_unchanged() {
    let mut b = Board::new();
    b.insert(3, Space::X).unwrap();
    let before: Vec<Option<Space>> = (0..6)
        .flat_map(|r| (0..7).map(move |c| (r, c)))
        .map(|(r, c)| b.get(r, c))
        .collect();
    let _ = choose_move(&b, Space::O, 2);
    let after: Vec<Option<Space>> = (0..6)
        .flat_map(|r| (0..7).map(move |c| (r, c)))
        .map(|(r, c)| b.get(r, c))
        .collect();
    assert_eq!(before, after);
    assert_eq!(b.get_longest_sequence(Space::X), 1);
    assert_eq!(b.get_longest_sequence(Space::O), 0);
}
