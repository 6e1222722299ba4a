//! Global laws of the position model and the search.
//!
//! These proof functions state properties that relate several operations:
//! the counting and alternation invariant of every reachable position,
//! and the invariance of the game-theoretic score under left-right
//! mirroring of the board.

use crate::engine::{best_from, lemma_best_from_ge, lemma_best_from_witness, value};
use crate::model::{
    empty_board, lemma_exists_playable, lemma_play_wf, sum_heights, BoardModel,
};
use crate::position::{build_sequence, col_of_char};
use vstd::prelude::*;

verus! {

/// In every reachable position the move count equals the sum of the
/// column heights, and the first player is to move exactly when the
/// move count is even.
pub proof fn lemma_counting_alternation(m: BoardModel)
    requires
        m.wf(),
    ensures
        m.moves == sum_heights(m.heights, 7),
        m.turn == 1 <==> m.moves % 2 == 0,
{
}

/// The left-right mirror image of a position: column `c` trades places
/// with column `6 - c`.
pub open spec fn mirror(m: BoardModel) -> BoardModel {
    BoardModel {
        cells: Seq::new(42, |i: int| m.cells[7 * (i / 7) + (6 - i % 7)]),
        heights: Seq::new(7, |c: int| m.heights[6 - c]),
        moves: m.moves,
        turn: m.turn,
    }
}

/// A cell of the mirror image is the mirrored cell of the original.
pub proof fn lemma_mirror_cell(m: BoardModel, r: int, c: int)
    requires
        0 <= r < 6,
        0 <= c < 7,
    ensures
        mirror(m).cell(r, c) == m.cell(r, 6 - c),
{
    assert((r * 7 + c) / 7 == r);
    assert((r * 7 + c) % 7 == c);
}

/// Mirroring preserves the position invariants.
pub proof fn lemma_mirror_wf(m: BoardModel)
    requires
        m.wf(),
    ensures
        mirror(m).wf(),
{
    let w = mirror(m);
    assert(sum_heights(w.heights, 7) == sum_heights(m.heights, 7)) by {
        reveal_with_fuel(sum_heights, 8);
    }
    assert forall|r: int, c: int| 0 <= r < 6 && 0 <= c < 7 implies #[trigger] w.cell(r, c)
        == m.cell(r, 6 - c) by {
        lemma_mirror_cell(m, r, c);
    }
}

/// Mirroring twice restores the position.
pub proof fn lemma_mirror_involutive(m: BoardModel)
    requires
        m.cells.len() == 42,
        m.heights.len() == 7,
    ensures
        mirror(mirror(m)) == m,
{
    assert forall|r: int, c: int| 0 <= r < 6 && 0 <= c < 7 implies #[trigger] mirror(
        mirror(m),
    ).cell(r, c) == m.cell(r, c) by {
        lemma_mirror_cell(mirror(m), r, c);
        lemma_mirror_cell(m, r, 6 - c);
    }
    assert forall|i: int| 0 <= i < 42 implies #[trigger] mirror(mirror(m)).cells[i]
        == m.cells[i] by {
        let r = i / 7;
        let c = i % 7;
        assert(i == r * 7 + c);
        assert(mirror(mirror(m)).cell(r, c) == m.cell(r, c));
    }
    assert(mirror(mirror(m)).cells =~= m.cells);
    assert(mirror(mirror(m)).heights =~= m.heights);
    assert(mirror(mirror(m)) =~= m);
}

/// Mirroring commutes with playing a move: playing column `c` and
/// mirroring is mirroring and playing column `6 - c`.
pub proof fn lemma_mirror_play(m: BoardModel, c: int)
    requires
        m.wf(),
        m.playable(c),
    ensures
        mirror(m.play_at(c)) == mirror(m).play_at(6 - c),
{
    let h = m.heights[c];
    let lhs = mirror(m.play_at(c));
    let rhs = mirror(m).play_at(6 - c);
    assert(mirror(m).heights[6 - c] == h);
    assert forall|i: int| 0 <= i < 42 implies #[trigger] lhs.cells[i] == rhs.cells[i] by {
        let r = i / 7;
        let cc = i % 7;
        assert(i == r * 7 + cc);
        assert(0 <= r < 6 && 0 <= cc < 7);
        lemma_mirror_cell(m.play_at(c), r, cc);
        lemma_mirror_cell(m, r, cc);
        assert(lhs.cells[i] == m.play_at(c).cell(r, 6 - cc));
        assert(m.play_at(c).cell(r, 6 - cc) == m.play_at(c).cells[r * 7 + (6 - cc)]);
        assert(rhs.cells[i] == mirror(m).cells.update(h * 7 + (6 - c), m.turn)[i]);
        if r == h && cc == 6 - c {
            assert(lhs.cells[i] == m.turn);
            assert(rhs.cells[i] == m.turn);
        } else {
            assert(r * 7 + (6 - cc) != h * 7 + c);
            assert(lhs.cells[i] == m.cell(r, 6 - cc));
            assert(i != h * 7 + (6 - c));
            assert(rhs.cells[i] == mirror(m).cells[i]);
            assert(mirror(m).cell(r, cc) == m.cell(r, 6 - cc));
        }
    }
    assert(lhs.cells =~= rhs.cells);
    assert forall|k: int| 0 <= k < 7 implies #[trigger] lhs.heights[k] == rhs.heights[k] by {
        if k == 6 - c {
            assert(lhs.heights[k] == m.play_at(c).heights[c]);
        }
    }
    assert(lhs.heights =~= rhs.heights);
    assert(lhs =~= rhs);
}

/// Mirroring carries each winning drop to the mirrored column.
pub proof fn lemma_mirror_wins_fwd(m: BoardModel, c: int)
    requires
        m.wf(),
        m.playable(c),
        m.wins_at(c),
    ensures
        mirror(m).wins_at(6 - c),
{
    let w = mirror(m);
    let h = m.heights[c];
    assert(w.heights[6 - c] == h);
    assert forall|r: int, cc: int| 0 <= r < 6 && 0 <= cc < 7 implies #[trigger] w.cell(r, cc)
        == m.cell(r, 6 - cc) by {
        lemma_mirror_cell(m, r, cc);
    }
    if m.vert_win(c) {
        let s = choose|s: int| m.vert_window(c, s);
        assert(w.vert_window(6 - c, s));
    } else if m.horiz_win(c) {
        let s = choose|s: int| m.horiz_window(c, s);
        assert forall|x: int| 3 - s <= x <= 6 - s && x != 6 - c implies #[trigger] w.cell(
            w.heights[6 - c],
            x,
        ) == w.turn by {
            assert(m.cell(m.heights[c], 6 - x) == m.turn);
        }
        assert(w.horiz_window(6 - c, 3 - s));
    } else if m.diag_up_win(c) {
        let d = choose|d: int| m.diag_up_window(c, d);
        assert forall|t: int| -d - 3 <= t <= -d && t != 0 implies #[trigger] w.cell(
            w.heights[6 - c] - t,
            6 - c + t,
        ) == w.turn by {
            assert(m.cell(m.heights[c] + (-t), c + (-t)) == m.turn);
        }
        assert(w.diag_down_window(6 - c, -d - 3));
    } else {
        let d = choose|d: int| m.diag_down_window(c, d);
        assert forall|t: int| -d - 3 <= t <= -d && t != 0 implies #[trigger] w.cell(
            w.heights[6 - c] + t,
            6 - c + t,
        ) == w.turn by {
            assert(m.cell(m.heights[c] - (-t), c + (-t)) == m.turn);
        }
        assert(w.diag_up_window(6 - c, -d - 3));
    }
}

/// A drop wins exactly when the mirrored drop wins in the mirror image.
pub proof fn lemma_mirror_wins(m: BoardModel, c: int)
    requires
        m.wf(),
        m.playable(c),
    ensures
        mirror(m).wins_at(6 - c) == m.wins_at(c),
{
    if m.wins_at(c) {
        lemma_mirror_wins_fwd(m, c);
    }
    if mirror(m).wins_at(6 - c) {
        lemma_mirror_wf(m);
        assert(mirror(m).playable(6 - c));
        lemma_mirror_wins_fwd(mirror(m), 6 - c);
        lemma_mirror_involutive(m);
    }
}

/// The mover has a winning drop exactly when they have one in the
/// mirror image.
pub proof fn lemma_mirror_has_win(m: BoardModel)
    requires
        m.wf(),
    ensures
        mirror(m).has_winning_move() == m.has_winning_move(),
{
    if m.has_winning_move() {
        let c = choose|c: int| m.winning_move(c);
        lemma_mirror_wins(m, c);
        assert(mirror(m).winning_move(6 - c));
    }
    if mirror(m).has_winning_move() {
        let c = choose|c: int| mirror(m).winning_move(c);
        lemma_mirror_wins(m, 6 - c);
        assert(m.winning_move(6 - c));
    }
}

/// The game-theoretic score is invariant under left-right mirroring of
/// the board: every strategy transfers column by column.
pub proof fn lemma_value_mirror(m: BoardModel)
    requires
        m.wf(),
    ensures
        value(mirror(m)) == value(m),
    decreases 42 - m.moves,
{
    let w = mirror(m);
    lemma_mirror_wf(m);
    lemma_mirror_has_win(m);
    if m.moves >= 42 {
    } else if m.has_winning_move() {
    } else {
        lemma_exists_playable(m);
        lemma_exists_playable(w);
        lemma_best_from_witness(m, 0);
        lemma_best_from_witness(w, 0);
        let v = value(m);
        let vm = value(w);
        let c0 = choose|c: int|
            0 <= c < 7 && m.playable(c) && best_from(m, 0) == -value(#[trigger] m.play_at(c));
        lemma_play_wf(m, c0);
        lemma_value_mirror(m.play_at(c0));
        lemma_mirror_play(m, c0);
        assert(w.playable(6 - c0));
        lemma_best_from_ge(w, 0, 6 - c0);
        assert(vm >= -value(w.play_at(6 - c0)));
        assert(vm >= v);
        let c1m = choose|c: int|
            0 <= c < 7 && w.playable(c) && best_from(w, 0) == -value(#[trigger] w.play_at(c));
        let c1 = 6 - c1m;
        assert(m.playable(c1));
        lemma_play_wf(m, c1);
        lemma_value_mirror(m.play_at(c1));
        lemma_mirror_play(m, c1);
        assert(w.play_at(c1m) == mirror(m.play_at(c1)));
        assert(vm == -value(m.play_at(c1)));
        lemma_best_from_ge(m, 0, c1);
        assert(v >= vm);
    }
}

/// A position replayed from a move sequence satisfies the invariants.
pub proof fn lemma_build_wf(s: Seq<char>)
    requires
        build_sequence(s) is Some,
    ensures
        build_sequence(s)->0.wf(),
    decreases s.len(),
{
    if s.len() == 0 {
        assert(sum_heights(empty_board().heights, 7) == 0) by {
            reveal_with_fuel(sum_heights, 8);
        }
    } else {
        lemma_build_wf(s.drop_last());
        let m = build_sequence(s.drop_last())->0;
        lemma_play_wf(m, col_of_char(s.last()));
    }
}

/// The move-sequence character that names the mirrored column.
pub open spec fn mirror_char(ch: char) -> char {
    if ch == '1' {
        '7'
    } else if ch == '2' {
        '6'
    } else if ch == '3' {
        '5'
    } else if ch == '5' {
        '3'
    } else if ch == '6' {
        '2'
    } else if ch == '7' {
        '1'
    } else {
        ch
    }
}

/// A move sequence with every column selector mirrored.
pub open spec fn mirror_seq(s: Seq<char>) -> Seq<char> {
    s.map_values(|ch: char| mirror_char(ch))
}

/// Replaying a mirrored move sequence reaches the mirror image of the
/// position the original sequence reaches, and fails exactly when the
/// original fails.
pub proof fn lemma_build_mirror(s: Seq<char>)
    ensures
        build_sequence(s) is Some ==> build_sequence(mirror_seq(s)) == Some(
            mirror(build_sequence(s)->0),
        ),
        build_sequence(s) is None ==> build_sequence(mirror_seq(s)) is None,
    decreases s.len(),
{
    if s.len() == 0 {
        assert(mirror_seq(s) =~= Seq::<char>::empty());
        assert forall|i: int| 0 <= i < 42 implies #[trigger] mirror(empty_board()).cells[i]
            == empty_board().cells[i] by {
            let r = i / 7;
            let c = i % 7;
            assert(i == r * 7 + c);
            lemma_mirror_cell(empty_board(), r, c);
        }
        assert(mirror(empty_board()).cells =~= empty_board().cells);
        assert(mirror(empty_board()).heights =~= empty_board().heights);
        assert(mirror(empty_board()) =~= empty_board());
    } else {
        lemma_build_mirror(s.drop_last());
        assert(mirror_seq(s).drop_last() =~= mirror_seq(s.drop_last()));
        assert(mirror_seq(s).last() == mirror_char(s.last()));
        if build_sequence(s.drop_last()) is Some {
            let m = build_sequence(s.drop_last())->0;
            lemma_build_wf(s.drop_last());
            lemma_mirror_wf(m);
            let c = col_of_char(s.last());
            let cm = col_of_char(mirror_char(s.last()));
            if 0 <= c < 7 {
                assert(cm == 6 - c);
                assert(mirror(m).playable(cm) == m.playable(c));
                if m.playable(c) {
                    lemma_mirror_play(m, c);
                }
            } else {
                assert(cm == c);
            }
        }
    }
}

/// The score of the search is invariant under left-right mirroring of
/// all played columns: replaying a move sequence with every column
/// selector mirrored reaches a position with the same score.
pub proof fn lemma_sequence_mirror_score(s: Seq<char>)
    requires
        build_sequence(s) is Some,
    ensures
        build_sequence(mirror_seq(s)) is Some,
        value(build_sequence(mirror_seq(s))->0) == value(build_sequence(s)->0),
{
    lemma_build_mirror(s);
    lemma_build_wf(s);
    lemma_value_mirror(build_sequence(s)->0);
}

} // verus!
