//! The negamax search engine with alpha-beta pruning.
//!
//! `value` is the game-theoretic score of a position from the player to
//! move: 0 for a draw, `(43 - moves) / 2` when an immediate win exists,
//! and otherwise the best negated score over all playable columns.
//! `negamax` computes a fail-soft alpha-beta approximation of `value`
//! and is proved exact whenever the window brackets the true score, and
//! a sound bound otherwise.

use crate::model::{lemma_exists_playable, lemma_play_wf, BoardModel};
use crate::position::Position;
use vstd::prelude::*;

verus! {

/// The game-theoretic score of a position for the player to move.
pub open spec fn value(m: BoardModel) -> int
    decreases 42 - m.moves, 8int,
{
    if m.moves >= 42 {
        0
    } else if m.has_winning_move() {
        (43 - m.moves) / 2
    } else {
        best_from(m, 0)
    }
}

/// The best negated child score over the playable columns `i..7`, or
/// -100 when none of them is playable.
pub open spec fn best_from(m: BoardModel, i: int) -> int
    decreases 42 - m.moves, 7 - i,
        when 0 <= i <= 7 && m.moves < 42
{
    if i >= 7 {
        -100
    } else {
        let rest = best_from(m, i + 1);
        if m.playable(i) {
            let s = -value(m.play_at(i));
            if s > rest {
                s
            } else {
                rest
            }
        } else {
            rest
        }
    }
}

/// The lower window bound that an unset bound defaults to.
pub open spec fn opt_alpha(a: Option<i8>) -> int {
    match a {
        Some(x) => x as int,
        None => -127,
    }
}

/// The upper window bound that an unset bound defaults to.
pub open spec fn opt_beta(b: Option<i8>) -> int {
    match b {
        Some(x) => x as int,
        None => 127,
    }
}

/// The effective upper bound of a search: the given bound clamped to the
/// highest score still reachable from a position with no immediate win.
pub open spec fn clamp_beta(m: BoardModel, bv: int) -> int {
    if bv < (41 - m.moves) / 2 {
        bv
    } else {
        (41 - m.moves) / 2
    }
}

/// What `negamax` returns for a position `m`, window defaults `av` and
/// `bv`, and result `r`: the exact score on a full board or under an
/// immediate win; otherwise the fail-soft guarantees — the clamped empty
/// window returns its bound, a score at most `av` fails low to `av`
/// exactly, a score at least the clamped bound fails high to a sound
/// lower bound, and a bracketed score is returned exactly.
pub open spec fn negamax_post(m: BoardModel, av: int, bv: int, r: int) -> bool {
    let v = value(m);
    let bb = clamp_beta(m, bv);
    &&& -127 <= r <= 127
    &&& m.moves == 42 ==> r == 0
    &&& (m.moves < 42 && m.has_winning_move()) ==> r == v && v == (43 - m.moves) / 2
    &&& (m.moves < 42 && !m.has_winning_move()) ==> {
        &&& (av >= bb ==> r == bb)
        &&& (av < bb && v <= av ==> r == av)
        &&& (av < bb && v >= bb ==> bb <= r <= v)
        &&& (av < bb && av < v < bb ==> r == v)
    }
}

/// The score of every position lies within half the remaining capacity
/// of the board, and without an immediate win the mover cannot win
/// before their next turn.
pub proof fn lemma_value_bounds(m: BoardModel)
    requires
        m.wf(),
    ensures
        -((42 - m.moves) / 2) <= value(m) <= (43 - m.moves) / 2,
        m.moves < 42 && !m.has_winning_move() ==> value(m) <= (41 - m.moves) / 2,
    decreases 42 - m.moves, 8int,
{
    if m.moves >= 42 {
    } else if m.has_winning_move() {
    } else {
        lemma_exists_playable(m);
        lemma_best_from_bounds(m, 0);
    }
}

/// Bounds for the best negated child score over columns `i..7`.
pub proof fn lemma_best_from_bounds(m: BoardModel, i: int)
    requires
        m.wf(),
        m.moves < 42,
        0 <= i <= 7,
    ensures
        best_from(m, i) <= (41 - m.moves) / 2,
        (exists|c: int| i <= c < 7 && m.playable(c)) ==> best_from(m, i) >= -((42 - m.moves) / 2),
    decreases 42 - m.moves, 7 - i,
{
    if i >= 7 {
    } else {
        lemma_best_from_bounds(m, i + 1);
        if m.playable(i) {
            lemma_play_wf(m, i);
            lemma_value_bounds(m.play_at(i));
        }
        if exists|c: int| i <= c < 7 && m.playable(c) {
            let c = choose|c: int| i <= c < 7 && m.playable(c);
            if c > i {
                assert(exists|c: int| i + 1 <= c < 7 && m.playable(c));
            }
        }
    }
}

/// The best over columns `i..7` is at least the negated score of any
/// playable column among them.
pub proof fn lemma_best_from_ge(m: BoardModel, i: int, c: int)
    requires
        m.moves < 42,
        0 <= i <= c < 7,
        m.playable(c),
    ensures
        best_from(m, i) >= -value(m.play_at(c)),
    decreases 7 - i,
{
    if i < c {
        lemma_best_from_ge(m, i + 1, c);
    }
}

/// With no playable column in `i..7`, the best is the sentinel.
pub proof fn lemma_best_from_empty(m: BoardModel, i: int)
    requires
        m.moves < 42,
        0 <= i <= 7,
        forall|c: int| i <= c < 7 ==> !m.playable(c),
    ensures
        best_from(m, i) == -100,
    decreases 7 - i,
{
    if i < 7 {
        lemma_best_from_empty(m, i + 1);
    }
}

/// With some playable column in `i..7`, the best is attained at one.
pub proof fn lemma_best_from_witness(m: BoardModel, i: int)
    requires
        m.wf(),
        m.moves < 42,
        0 <= i <= 7,
        exists|c: int| i <= c < 7 && m.playable(c),
    ensures
        exists|c: int|
            i <= c < 7 && m.playable(c) && best_from(m, i) == -value(#[trigger] m.play_at(c)),
    decreases 7 - i,
{
    let cw = choose|c: int| i <= c < 7 && m.playable(c);
    let rest = best_from(m, i + 1);
    if m.playable(i) {
        lemma_play_wf(m, i);
        lemma_value_bounds(m.play_at(i));
        let s = -value(m.play_at(i));
        if exists|c: int| i + 1 <= c < 7 && m.playable(c) {
            lemma_best_from_witness(m, i + 1);
            if s <= rest {
                let cr = choose|c: int|
                    i + 1 <= c < 7 && m.playable(c) && best_from(m, i + 1) == -value(
                        #[trigger] m.play_at(c),
                    );
                assert(i <= cr < 7 && m.playable(cr) && best_from(m, i) == -value(m.play_at(cr)));
            } else {
                assert(i <= i < 7 && m.playable(i) && best_from(m, i) == -value(m.play_at(i)));
            }
        } else {
            lemma_best_from_empty(m, i + 1);
            assert(i <= i < 7 && m.playable(i) && best_from(m, i) == -value(m.play_at(i)));
        }
    } else {
        assert(cw >= i + 1);
        assert(exists|c: int| i + 1 <= c < 7 && m.playable(c));
        lemma_best_from_witness(m, i + 1);
        let cr = choose|c: int|
            i + 1 <= c < 7 && m.playable(c) && best_from(m, i + 1) == -value(
                #[trigger] m.play_at(c),
            );
        assert(i <= cr < 7 && m.playable(cr) && best_from(m, i) == -value(m.play_at(cr)));
    }
}

/// What a recursive search of the child of column `c`, run with the
/// negated and swapped window, tells the parent about the score `-rc`.
pub proof fn lemma_child_score(m: BoardModel, c: int, al: int, bb: int, rc: int)
    requires
        m.wf(),
        m.moves < 42,
        !m.has_winning_move(),
        m.playable(c),
        -127 <= al < bb <= 127,
        negamax_post(m.play_at(c), -bb, -al, rc),
    ensures
        value(m) >= -value(m.play_at(c)),
        -rc >= bb ==> bb <= -rc <= value(m),
        -rc < bb ==> -value(m.play_at(c)) <= -rc && (-rc <= al || -rc == -value(m.play_at(c))),
{
    let cm = m.play_at(c);
    let vc = value(cm);
    let sc = -rc;
    lemma_play_wf(m, c);
    lemma_value_bounds(cm);
    lemma_best_from_ge(m, 0, c);
    assert(value(m) == best_from(m, 0));
    assert(value(m) >= -vc);
    if cm.moves == 42 {
        assert(rc == 0 && vc == 0);
    } else if cm.has_winning_move() {
        assert(rc == vc);
    } else {
        let ceilc = (41 - cm.moves) / 2;
        let bbc = clamp_beta(cm, -al);
        assert(vc <= ceilc);
        if -bb >= bbc {
            assert(bbc == ceilc);
            assert(rc == bbc);
            assert(sc >= bb && sc <= -vc);
        } else {
            if vc <= -bb {
                assert(rc == -bb);
                assert(sc == bb && sc <= value(m));
            } else if vc >= bbc {
                assert(bbc <= rc <= vc);
                if bbc == -al {
                    assert(-vc <= sc <= al);
                } else {
                    assert(bbc == ceilc);
                    assert(vc == ceilc);
                    assert(rc == vc);
                }
            } else {
                assert(rc == vc);
            }
        }
    }
}

/// The fixed center-out column ordering of the search.
pub open spec fn spec_order(j: int) -> int {
    if j == 0 {
        3
    } else if j == 1 {
        2
    } else if j == 2 {
        4
    } else if j == 3 {
        1
    } else if j == 4 {
        5
    } else if j == 5 {
        0
    } else {
        6
    }
}

/// The position in the center-out ordering at which a column is visited.
pub proof fn order_index_of(c: int) -> (j: int)
    requires
        0 <= c < 7,
    ensures
        0 <= j < 7 && spec_order(j) == c,
{
    if c == 0 {
        5
    } else if c == 1 {
        3
    } else if c == 2 {
        1
    } else if c == 3 {
        0
    } else if c == 4 {
        2
    } else if c == 5 {
        4
    } else {
        6
    }
}

/// The column visited at step `i` of the center-out ordering.
fn order_col(i: usize) -> (c: usize)
    requires
        i < 7,
    ensures
        c as int == spec_order(i as int),
        c < 7,
{
    match i {
        0 => 3,
        1 => 2,
        2 => 4,
        3 => 1,
        4 => 5,
        5 => 0,
        _ => 6,
    }
}

impl Position {
    /// Evaluates the position with the negamax algorithm under alpha-beta
    /// pruning. The score counts how many moves before the board fills
    /// the game is decided: the player to move gets positive scores, the
    /// opponent negative ones, and a draw scores 0. With both window
    /// bounds unset the exact score is returned; with a set window the
    /// fail-soft guarantees of `negamax_post` hold.
    pub fn negamax(&self, a: Option<i8>, b: Option<i8>) -> (r: i8)
        requires
            self@.wf(),
            opt_alpha(a) >= -127,
            opt_beta(b) >= -127,
        ensures
            negamax_post(self@, opt_alpha(a), opt_beta(b), r as int),
            a is None && b is None ==> r as int == value(self@),
        decreases 42 - self.num_moves,
    {
        let ghost m = self@;
        let ghost av = opt_alpha(a);
        let ghost bv = opt_beta(b);
        proof {
            lemma_value_bounds(m);
        }
        if self.num_moves == 42 {
            return 0;
        }
        let nm: usize = self.num_moves as usize;

        let mut col0: usize = 0;
        while col0 < 7
            invariant
                self@.wf(),
                m == self@,
                m.moves < 42,
                nm == m.moves,
                col0 <= 7,
                forall|c: int| 0 <= c < col0 ==> !m.winning_move(c),
            decreases 7 - col0,
        {
            if self.can_play(col0) && self.is_winning_move(col0) {
                proof {
                    assert(m.winning_move(col0 as int));
                }
                return ((43 - nm) / 2) as i8;
            }
            col0 += 1;
        }
        proof {
            assert(!m.has_winning_move());
        }

        let mut alpha: i8 = match a {
            Some(x) => x,
            None => -127,
        };
        let max_score: i8 = ((41 - nm) / 2) as i8;
        let beta0: i8 = match b {
            Some(x) => x,
            None => 127,
        };
        let beta: i8 = if beta0 < max_score {
            beta0
        } else {
            max_score
        };
        let ghost bb = beta as int;
        proof {
            assert(bb == clamp_beta(m, bv));
        }
        if alpha >= beta {
            return beta;
        }
        proof {
            lemma_exists_playable(m);
        }

        let mut i: usize = 0;
        while i < 7
            invariant
                self@.wf(),
                m == self@,
                m.moves < 42,
                !m.has_winning_move(),
                i <= 7,
                av == opt_alpha(a),
                bv == opt_beta(b),
                bb == clamp_beta(m, bv),
                beta as int == bb,
                -127 <= av < bb <= 127,
                av <= alpha as int,
                (alpha as int) < bb,
                ((alpha as int) == av || (exists|j: int|
                    0 <= j < i && m.playable(#[trigger] spec_order(j)) && (alpha as int) == -value(
                        m.play_at(spec_order(j)),
                    ))),
                forall|j: int|
                    0 <= j < i && m.playable(#[trigger] spec_order(j)) ==> -value(
                        m.play_at(spec_order(j)),
                    ) <= alpha as int,
            decreases 7 - i,
        {
            let ghost al = alpha as int;
            let col = order_col(i);
            if self.can_play(col) {
                let mut child = self.clone();
                child.play(col);
                let score_neg = child.negamax(Some(-beta), Some(-alpha));
                let score: i8 = -score_neg;
                proof {
                    lemma_child_score(m, col as int, al, bb, score_neg as int);
                }
                if score >= beta {
                    proof {
                        lemma_value_bounds(m);
                        assert(bb <= score as int <= value(m));
                    }
                    return score;
                }
                if score > alpha {
                    proof {
                        assert(score as int == -value(m.play_at(col as int)));
                    }
                    alpha = score;
                }
                proof {
                    assert forall|j: int|
                        0 <= j < i + 1 && m.playable(#[trigger] spec_order(j)) implies -value(
                        m.play_at(spec_order(j)),
                    ) <= alpha as int by {
                        if j < i {
                            assert(-value(m.play_at(spec_order(j))) <= al);
                        } else {
                            assert(spec_order(j) == col as int);
                        }
                    }
                }
            }
            i += 1;
        }
        proof {
            let al = alpha as int;
            let v = value(m);
            lemma_value_bounds(m);
            lemma_exists_playable(m);
            lemma_best_from_witness(m, 0);
            let c0 = choose|c: int|
                0 <= c < 7 && m.playable(c) && best_from(m, 0) == -value(#[trigger] m.play_at(c));
            let j0 = order_index_of(c0);
            assert(-value(m.play_at(spec_order(j0))) <= al);
            assert(v == best_from(m, 0));
            assert(v <= al);
            if al > av {
                let j1 = choose|j: int|
                    0 <= j < 7 && m.playable(#[trigger] spec_order(j)) && al == -value(
                        m.play_at(spec_order(j)),
                    );
                lemma_best_from_ge(m, 0, spec_order(j1));
                assert(v >= al);
            }
        }
        alpha
    }
}

} // verus!
