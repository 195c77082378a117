//! Move selection for the automated player: bounded full-width negamax.
//!
//! The search explores every legal column of the current board. A move
//! that wins at once scores the forced-win sentinel; otherwise the search
//! recurses with the players swapped and negates the opponent's best
//! score. Once the depth budget runs out, positions are scored by the
//! heuristic (the mover's high-water run length minus the opponent's).
//! Among equally scored columns the one closest to the horizontal center
//! is preferred, the highest such column when the distances tie as well.

use vstd::prelude::*;

use crate::board::Board;
use crate::board::BoardModel;
use crate::board::GameOutcome;
use crate::board::HEIGHT;
use crate::board::MAX_RUN;
use crate::board::Space;
use crate::board::WIDTH;
use crate::board::col_legal;
use crate::board::model_insert;
use crate::board::model_wf;
use crate::board::move_wins;
use crate::board::spec_longest;

verus! {

/// A search score with an explicit total order: a certain loss for the
/// mover, below every heuristic estimate, below a certain win. Keeping the
/// sentinels as tags rather than extreme integers makes negation safe.
#[derive(Clone, Copy, PartialEq, Eq, Structural, Debug)]
pub enum Score {
    /// The mover is certain to lose this position within the search
    /// horizon.
    Loss,
    /// Heuristic estimate of the position, from the mover's side.
    Heur(i32),
    /// The mover is certain to win this position within the search
    /// horizon.
    Win,
}

/// Strict order on scores: `Loss` below every `Heur`, `Heur` ordered by
/// value, `Win` above everything.
pub open spec fn score_lt(a: Score, b: Score) -> bool {
    match (a, b) {
        (Score::Loss, Score::Loss) => false,
        (Score::Loss, _) => true,
        (Score::Heur(x), Score::Heur(y)) => x < y,
        (Score::Heur(_), Score::Win) => true,
        (Score::Heur(_), Score::Loss) => false,
        (Score::Win, _) => false,
    }
}

/// Heuristic payloads the search can produce: bounded by the longest
/// possible run, so negation never overflows.
pub open spec fn score_bounded(sc: Score) -> bool {
    match sc {
        Score::Heur(v) => -(MAX_RUN as int) <= v <= MAX_RUN as int,
        _ => true,
    }
}

/// The mover's score seen from the opponent's side.
pub open spec fn spec_neg(sc: Score) -> Score {
    match sc {
        Score::Loss => Score::Win,
        Score::Win => Score::Loss,
        Score::Heur(v) => Score::Heur((-(v as int)) as i32),
    }
}

/// Distance of column `c` from the central column `WIDTH / 2`.
pub open spec fn center_dist(c: int) -> int {
    if c >= (WIDTH as int) / 2 {
        c - (WIDTH as int) / 2
    } else {
        (WIDTH as int) / 2 - c
    }
}

/// Whether a newly examined candidate `(new_s, new_c)` displaces the
/// current best `(cur_s, cur_c)`: on a strictly better score, or on an
/// equal score at a center distance no larger than the current one.
/// Columns are examined in ascending order, so among full ties the
/// highest column is kept.
pub open spec fn prefer(cur_s: Score, cur_c: int, new_s: Score, new_c: int) -> bool {
    score_lt(cur_s, new_s) || (cur_s == new_s && center_dist(new_c) <= center_dist(cur_c))
}

/// Heuristic value of the position for the mover `s`: the difference of
/// the high-water run counters.
pub open spec fn spec_heuristic(m: BoardModel, s: Space) -> int {
    spec_longest(m, s) - spec_longest(m, s.spec_opposing())
}

/// Score and column of candidate column `c` for mover `s` with `rem`
/// plies of budget left: the bare heuristic once the budget is spent, the
/// win sentinel for an immediately winning move, and otherwise the negated
/// value of the opponent's best continuation.
pub open spec fn entry(m: BoardModel, s: Space, rem: nat, c: int) -> (Score, int)
    decreases rem, 0nat,
{
    if rem == 0 {
        (Score::Heur(spec_heuristic(m, s) as i32), c)
    } else if move_wins(m, c, s) {
        (Score::Win, c)
    } else {
        (spec_neg(spec_negamax(model_insert(m, c, s), s.spec_opposing(), (rem - 1) as nat).0), c)
    }
}

/// Best candidate among the legal columns below `k`, examined in
/// ascending order under the `prefer` replacement rule; `None` when none
/// of them is legal.
pub open spec fn best_upto(m: BoardModel, s: Space, rem: nat, k: nat) -> Option<(Score, int)>
    decreases rem, k + 1,
{
    if k == 0 {
        Option::None
    } else {
        let prev = best_upto(m, s, rem, (k - 1) as nat);
        if col_legal(m.grid, k - 1) {
            let e = entry(m, s, rem, k - 1);
            match prev {
                Option::None => Option::Some(e),
                Option::Some(p) => if prefer(p.0, p.1, e.0, e.1) {
                    Option::Some(e)
                } else {
                    Option::Some(p)
                },
            }
        } else {
            prev
        }
    }
}

/// Value of the search from position `m` for mover `s` with `rem` plies
/// of budget: the best candidate over all legal columns, or a neutral
/// score and column 0 at a position with no legal column (a finished,
/// drawn board).
pub open spec fn spec_negamax(m: BoardModel, s: Space, rem: nat) -> (Score, int)
    decreases rem, (WIDTH + 2) as nat,
{
    match best_upto(m, s, rem, WIDTH as nat) {
        Option::None => (Score::Heur(0), 0),
        Option::Some(e) => e,
    }
}

/// The column `choose_move` returns for board `m`, mover `s` and depth
/// limit `depth_limit`.
pub open spec fn spec_choose_move(m: BoardModel, s: Space, depth_limit: int) -> int {
    spec_negamax(m, s, (depth_limit + 1) as nat).1
}

/// Heuristic value of the position for the mover `s`.
pub fn heuristic(board: &Board, s: Space) -> (v: i32)
    requires
        board.wf(),
        s != Space::EMPTY,
    ensures
        v as int == spec_heuristic(board@, s),
        -(MAX_RUN as int) <= v <= MAX_RUN as int,
{
    board.get_longest_sequence(s) - board.get_longest_sequence(s.opposing())
}

/// The score seen from the opponent's side.
fn neg_score(sc: Score) -> (r: Score)
    requires
        score_bounded(sc),
    ensures
        r == spec_neg(sc),
        score_bounded(r),
{
    match sc {
        Score::Loss => Score::Win,
        Score::Win => Score::Loss,
        Score::Heur(v) => Score::Heur(-v),
    }
}

/// Strict order on scores.
fn score_lt_exec(a: Score, b: Score) -> (r: bool)
    ensures
        r == score_lt(a, b),
{
    match (a, b) {
        (Score::Loss, Score::Loss) => false,
        (Score::Loss, _) => true,
        (Score::Heur(x), Score::Heur(y)) => x < y,
        (Score::Heur(_), Score::Win) => true,
        (Score::Heur(_), Score::Loss) => false,
        (Score::Win, _) => false,
    }
}

/// Distance of column `c` from the central column.
fn center_dist_exec(c: usize) -> (d: usize)
    requires
        c < WIDTH,
    ensures
        d as int == center_dist(c as int),
{
    if c >= WIDTH / 2 {
        c - WIDTH / 2
    } else {
        WIDTH / 2 - c
    }
}

/// Whether the new candidate displaces the current best.
fn replaces(cur_s: Score, cur_c: usize, new_s: Score, new_c: usize) -> (r: bool)
    requires
        cur_c < WIDTH,
        new_c < WIDTH,
    ensures
        r == prefer(cur_s, cur_c as int, new_s, new_c as int),
{
    if score_lt_exec(cur_s, new_s) {
        true
    } else {
        cur_s == new_s && center_dist_exec(new_c) <= center_dist_exec(cur_c)
    }
}

/// Full-width negamax over the legal columns of `board`, with `rem` plies
/// of depth budget. Returns the chosen score and column; the column is a
/// legal one whenever the board has any.
pub fn negamax(board: &Board, s: Space, rem: u32) -> (r: (Score, usize))
    requires
        board.wf(),
        s != Space::EMPTY,
    ensures
        r.0 == spec_negamax(board@, s, rem as nat).0,
        r.1 as int == spec_negamax(board@, s, rem as nat).1,
        score_bounded(r.0),
        r.1 < WIDTH,
        (exists|c0: int| col_legal(board@.grid, c0)) ==> col_legal(board@.grid, r.1 as int),
    decreases rem,
{
    let ghost m = board@;
    let mut best: Option<(Score, usize)> = None;
    let mut c: usize = 0;
    while c < WIDTH
        invariant
            board.wf(),
            s != Space::EMPTY,
            m == board@,
            c <= WIDTH,
            best is None ==> best_upto(m, s, rem as nat, c as nat) is None,
            best is None ==> forall|c2: int| 0 <= c2 < c ==> !col_legal(m.grid, c2),
            best matches Some(b) ==> best_upto(m, s, rem as nat, c as nat) == Option::Some(
                (b.0, b.1 as int),
            ) && b.1 < WIDTH && col_legal(m.grid, b.1 as int) && score_bounded(b.0),
        decreases WIDTH - c,
    {
        let top = board.get((HEIGHT - 1) as i32, c as i32);
        let legal = top == Some(Space::EMPTY);
        if legal {
            let e: (Score, usize) = if rem == 0 {
                (Score::Heur(heuristic(board, s)), c)
            } else {
                let mut child = board.duplicate();
                let out = child.insert(c as i32, s);
                match out {
                    Result::Ok(GameOutcome::Win(_)) => (Score::Win, c),
                    Result::Ok(_) => {
                        let sub = negamax(&child, s.opposing(), rem - 1);
                        (neg_score(sub.0), c)
                    },
                    Result::Err(_) => {
                        proof {
                            assert(false);
                        }
                        (Score::Loss, c)
                    },
                }
            };
            proof {
                assert(e.0 == entry(m, s, rem as nat, c as int).0);
                assert(entry(m, s, rem as nat, c as int).1 == c as int);
            }
            match best {
                None => {
                    best = Some(e);
                },
                Some(b) => {
                    if replaces(b.0, b.1, e.0, e.1) {
                        best = Some(e);
                    }
                },
            }
        }
        c = c + 1;
    }
    match best {
        None => (Score::Heur(0), 0),
        Some(b) => b,
    }
}

/// Shape of the best candidate among columns below `k`: it exists exactly
/// when some such column is legal, it is the entry of its own (legal)
/// column, and no legal column below `k` has a strictly better score.
pub proof fn lemma_best_upto_entry(m: BoardModel, s: Space, rem: nat, k: nat)
    requires
        k <= WIDTH,
    ensures
        best_upto(m, s, rem, k) is None <==> (forall|c: int| 0 <= c < k ==> !col_legal(m.grid, c)),
        best_upto(m, s, rem, k) matches Some(p) ==> 0 <= p.1 < k && col_legal(m.grid, p.1) && p
            == entry(m, s, rem, p.1),
        best_upto(m, s, rem, k) matches Some(p) ==> forall|c: int|
            0 <= c < k && col_legal(m.grid, c) ==> !score_lt(p.0, entry(m, s, rem, c).0),
    decreases k,
{
    if k > 0 {
        lemma_best_upto_entry(m, s, rem, (k - 1) as nat);
        let prev = best_upto(m, s, rem, (k - 1) as nat);
        if col_legal(m.grid, k - 1) {
            let e = entry(m, s, rem, (k - 1) as int);
            match prev {
                Option::None => {},
                Option::Some(p) => {
                    if prefer(p.0, p.1, e.0, e.1) {
                        // The new candidate's score is at least the old
                        // best's, so it is at least every earlier entry's.
                        assert forall|c: int|
                            0 <= c < k && col_legal(m.grid, c) implies !score_lt(
                            e.0,
                            entry(m, s, rem, c).0,
                        ) by {
                            if c < k - 1 {
                                assert(!score_lt(p.0, entry(m, s, rem, c).0));
                            }
                        }
                    }
                },
            }
        }
    }
}

/// Center bias of the selection among columns below `k`: no legal column
/// whose entry scores the same as the best candidate's lies closer to the
/// center than the best candidate does.
pub proof fn lemma_best_upto_center_bias(m: BoardModel, s: Space, rem: nat, k: nat)
    requires
        k <= WIDTH,
    ensures
        best_upto(m, s, rem, k) matches Some(p) ==> forall|c: int|
            0 <= c < k && col_legal(m.grid, c) && entry(m, s, rem, c).0 == p.0 ==> center_dist(p.1)
                <= center_dist(c),
    decreases k,
{
    if k > 0 {
        lemma_best_upto_center_bias(m, s, rem, (k - 1) as nat);
        lemma_best_upto_entry(m, s, rem, (k - 1) as nat);
        let prev = best_upto(m, s, rem, (k - 1) as nat);
        if col_legal(m.grid, k - 1) {
            let e = entry(m, s, rem, (k - 1) as int);
            match prev {
                Option::None => {},
                Option::Some(p) => {
                    if prefer(p.0, p.1, e.0, e.1) {
                        assert forall|c: int|
                            0 <= c < k && col_legal(m.grid, c) && entry(m, s, rem, c).0
                                == e.0 implies center_dist(e.1) <= center_dist(c) by {
                            if c < k - 1 {
                                // An earlier column with the new score: the
                                // old best scored at least as high, so the
                                // new candidate displaced an equal score and
                                // sits no further from the center.
                                assert(!score_lt(p.0, entry(m, s, rem, c).0));
                                assert(p.0 == e.0);
                                assert(center_dist(p.1) <= center_dist(c));
                            }
                        }
                    } else {
                        assert forall|c: int|
                            0 <= c < k && col_legal(m.grid, c) && entry(m, s, rem, c).0
                                == p.0 implies center_dist(p.1) <= center_dist(c) by {
                            if c == k - 1 {
                                assert(center_dist(e.1) > center_dist(p.1));
                            }
                        }
                    }
                },
            }
        }
    }
}

/// Center bias on ties. The chosen column is legal, and among the legal
/// columns whose candidate entries score the same as the chosen one's, it
/// lies closest to the central column. On an empty board every first move
/// scores alike, so this is what sends the opening move to the center.
pub proof fn lemma_center_bias(m: BoardModel, s: Space, depth_limit: int)
    requires
        depth_limit >= 0,
        exists|c0: int| col_legal(m.grid, c0),
    ensures
        col_legal(m.grid, spec_choose_move(m, s, depth_limit)),
        forall|c: int|
            0 <= c < WIDTH && col_legal(m.grid, c) && entry(
                m,
                s,
                (depth_limit + 1) as nat,
                c,
            ).0 == entry(
                m,
                s,
                (depth_limit + 1) as nat,
                spec_choose_move(m, s, depth_limit),
            ).0 ==> center_dist(spec_choose_move(m, s, depth_limit)) <= center_dist(c),
{
    let rem = (depth_limit + 1) as nat;
    lemma_best_upto_entry(m, s, rem, WIDTH as nat);
    lemma_best_upto_center_bias(m, s, rem, WIDTH as nat);
    assert(best_upto(m, s, rem, WIDTH as nat) is Some);
}

/// With the depth budget spent, the search value of any position is a
/// heuristic score, never a sentinel.
pub proof fn lemma_negamax_rem0_heur(m: BoardModel, s: Space)
    ensures
        spec_negamax(m, s, 0).0 matches Score::Heur(_),
{
    lemma_best_upto_entry(m, s, 0, WIDTH as nat);
}

/// Forced-win detection. If some column `w` wins at once for the mover,
/// the chosen column carries the forced-win sentinel at every depth
/// limit: it either wins at once itself or leaves the opponent in a
/// position whose search value is a certain loss. With no lookahead
/// (depth limit 0) only immediately winning moves carry the sentinel, so
/// the chosen column then wins at once.
pub proof fn lemma_forced_win(m: BoardModel, s: Space, depth_limit: int, w: int)
    requires
        model_wf(m),
        s != Space::EMPTY,
        depth_limit >= 0,
        col_legal(m.grid, w),
        move_wins(m, w, s),
    ensures
        spec_negamax(m, s, (depth_limit + 1) as nat).0 == Score::Win,
        col_legal(m.grid, spec_choose_move(m, s, depth_limit)),
        move_wins(m, spec_choose_move(m, s, depth_limit), s) || spec_negamax(
            model_insert(m, spec_choose_move(m, s, depth_limit), s),
            s.spec_opposing(),
            depth_limit as nat,
        ).0 == Score::Loss,
        depth_limit == 0 ==> move_wins(m, spec_choose_move(m, s, 0), s),
{
    let rem = (depth_limit + 1) as nat;
    lemma_best_upto_entry(m, s, rem, WIDTH as nat);
    let p = best_upto(m, s, rem, WIDTH as nat)->Some_0;
    assert(entry(m, s, rem, w).0 == Score::Win);
    assert(!score_lt(p.0, Score::Win));
    assert(p.0 == Score::Win);
    let cm = spec_choose_move(m, s, depth_limit);
    assert(cm == p.1);
    if !move_wins(m, cm, s) {
        assert(spec_neg(spec_negamax(model_insert(m, cm, s), s.spec_opposing(), (rem - 1) as nat).0)
            == Score::Win);
        lemma_negamax_rem0_heur(model_insert(m, cm, s), s.spec_opposing());
    }
}

/// Chooses a column for mover `s` on `board`, searching `depth_limit`
/// plies beyond the immediate moves. The result is pinned to
/// `spec_choose_move`, a function of the board model, the mover and the
/// limit alone: two calls with the same inputs return the same column.
/// The board must have at least one legal column; the chosen column is a
/// legal one.
pub fn choose_move(board: &Board, s: Space, depth_limit: u32) -> (c: usize)
    requires
        board.wf(),
        s != Space::EMPTY,
        exists|c0: int| col_legal(board@.grid, c0),
        depth_limit < u32::MAX,
    ensures
        c as int == spec_choose_move(board@, s, depth_limit as int),
        col_legal(board@.grid, c as int),
        c < WIDTH,
{
    let r = negamax(board, s, depth_limit + 1);
    r.1
}

} // verus!
