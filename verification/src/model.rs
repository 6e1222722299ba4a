//! The mathematical model of a board position.
//!
//! A position is a 7-column, 6-row grid of cells holding 0 (empty), 1
//! (first player's stone) or -1 (second player's stone), together with the
//! stack height of each column, the number of stones placed, and the sign
//! of the player to move. All contracts of the executable code are stated
//! over this model.

use vstd::prelude::*;

verus! {

/// The abstract state of a board: cells in row-major order (row `r`,
/// column `c` at index `r * 7 + c`), one stack height per column, the
/// number of stones placed, and the sign of the player to move.
#[verifier::ext_equal]
pub ghost struct BoardModel {
    pub cells: Seq<int>,
    pub heights: Seq<int>,
    pub moves: int,
    pub turn: int,
}

/// Sum of the first `n` entries of a height sequence.
pub open spec fn sum_heights(h: Seq<int>, n: int) -> int
    decreases n,
{
    if n <= 0 {
        0
    } else {
        sum_heights(h, n - 1) + h[n - 1]
    }
}

impl BoardModel {
    /// The cell at row `r` of column `c`; rows count from the bottom.
    pub open spec fn cell(self, r: int, c: int) -> int {
        self.cells[r * 7 + c]
    }

    /// The gravity, counting and alternation invariants of a reachable
    /// position: heights bound the filled part of each column, `moves`
    /// counts all stones, and the first player moves on even counts.
    pub open spec fn wf(self) -> bool {
        &&& self.cells.len() == 42
        &&& self.heights.len() == 7
        &&& forall|c: int| 0 <= c < 7 ==> 0 <= #[trigger] self.heights[c] <= 6
        &&& 0 <= self.moves <= 42
        &&& self.moves == sum_heights(self.heights, 7)
        &&& self.turn == (if self.moves % 2 == 0 { 1int } else { -1int })
        &&& forall|r: int, c: int|
            0 <= r < 6 && 0 <= c < 7 ==> ((#[trigger] self.cell(r, c) == 0) <==> r
                >= self.heights[c])
        &&& forall|r: int, c: int|
            0 <= r < 6 && 0 <= c < 7 ==> (#[trigger] self.cell(r, c) == 0 || self.cell(r, c) == 1
                || self.cell(r, c) == -1)
    }

    /// A stone may be dropped in column `c` iff the column is not full.
    pub open spec fn playable(self, c: int) -> bool {
        &&& 0 <= c < 7
        &&& self.heights[c] < 6
    }

    /// The position after the player to move drops a stone in column `c`.
    pub open spec fn play_at(self, c: int) -> BoardModel {
        BoardModel {
            cells: self.cells.update(self.heights[c] * 7 + c, self.turn),
            heights: self.heights.update(c, self.heights[c] + 1),
            moves: self.moves + 1,
            turn: -self.turn,
        }
    }
}

/// The empty board: all cells 0, all heights 0, first player to move.
pub open spec fn empty_board() -> BoardModel {
    BoardModel {
        cells: Seq::new(42, |i: int| 0),
        heights: Seq::new(7, |i: int| 0),
        moves: 0,
        turn: 1,
    }
}

/// Bumping one entry of a height sequence bumps the sum.
pub proof fn lemma_sum_update(h: Seq<int>, n: int, c: int)
    requires
        0 <= c < n <= h.len(),
    ensures
        sum_heights(h.update(c, h[c] + 1), n) == sum_heights(h, n) + 1,
    decreases n,
{
    let h2 = h.update(c, h[c] + 1);
    if c == n - 1 {
        assert(sum_heights(h2, n - 1) == sum_heights(h, n - 1)) by {
            lemma_sum_agree(h, h2, n - 1);
        }
    } else {
        lemma_sum_update(h, n - 1, c);
    }
}

/// The sum of the first `n` entries depends on those entries alone.
pub proof fn lemma_sum_agree(h: Seq<int>, g: Seq<int>, n: int)
    requires
        n <= h.len(),
        n <= g.len(),
        forall|c: int| 0 <= c < n ==> h[c] == #[trigger] g[c],
    ensures
        sum_heights(h, n) == sum_heights(g, n),
    decreases n,
{
    if n > 0 {
        lemma_sum_agree(h, g, n - 1);
    }
}

/// A height sequence with every entry at most 6 and one entry below 6
/// sums to less than 6 per column.
pub proof fn lemma_sum_lt_full(h: Seq<int>, n: int, c: int)
    requires
        0 <= c < n <= h.len(),
        forall|k: int| 0 <= k < n ==> #[trigger] h[k] <= 6,
        h[c] < 6,
    ensures
        sum_heights(h, n) < 6 * n,
    decreases n,
{
    if c == n - 1 {
        lemma_sum_le(h, n - 1);
    } else {
        lemma_sum_lt_full(h, n - 1, c);
    }
}

/// A height sequence with every entry at most 6 sums to at most 6 per column.
pub proof fn lemma_sum_le(h: Seq<int>, n: int)
    requires
        0 <= n <= h.len(),
        forall|k: int| 0 <= k < n ==> #[trigger] h[k] <= 6,
    ensures
        sum_heights(h, n) <= 6 * n,
    decreases n,
{
    if n > 0 {
        lemma_sum_le(h, n - 1);
    }
}

/// A position with fewer than 42 stones has a playable column.
pub proof fn lemma_exists_playable(m: BoardModel)
    requires
        m.wf(),
        m.moves < 42,
    ensures
        exists|c: int| m.playable(c),
{
    if forall|c: int| 0 <= c < 7 ==> #[trigger] m.heights[c] >= 6 {
        assert(forall|c: int| 0 <= c < 7 ==> #[trigger] m.heights[c] == 6);
        assert(sum_heights(m.heights, 7) == 42) by {
            lemma_sum_const(m.heights, 7);
        }
        assert(false);
    } else {
        let c = choose|c: int| !(0 <= c < 7 ==> #[trigger] m.heights[c] >= 6);
        assert(m.playable(c));
    }
}

/// A height sequence with the first `n` entries all 6 sums to `6 * n`.
pub proof fn lemma_sum_const(h: Seq<int>, n: int)
    requires
        0 <= n <= h.len(),
        forall|k: int| 0 <= k < n ==> #[trigger] h[k] == 6,
    ensures
        sum_heights(h, n) == 6 * n,
    decreases n,
{
    if n > 0 {
        lemma_sum_const(h, n - 1);
    }
}

/// Playing a stone in a playable column preserves the invariants.
pub proof fn lemma_play_wf(m: BoardModel, c: int)
    requires
        m.wf(),
        m.playable(c),
    ensures
        m.play_at(c).wf(),
        m.play_at(c).moves == m.moves + 1,
        m.moves < 42,
{
    let n = m.play_at(c);
    lemma_sum_lt_full(m.heights, 7, c);
    lemma_sum_update(m.heights, 7, c);
    let idx = m.heights[c] * 7 + c;
    assert forall|r: int, cc: int| 0 <= r < 6 && 0 <= cc < 7 implies ((#[trigger] n.cell(r, cc)
        == 0) <==> r >= n.heights[cc]) by {
        if r * 7 + cc == idx {
            assert(r == m.heights[c] && cc == c);
        } else {
            assert(n.cell(r, cc) == m.cell(r, cc));
        }
    }
    assert forall|r: int, cc: int| 0 <= r < 6 && 0 <= cc < 7 implies (#[trigger] n.cell(r, cc) == 0
        || n.cell(r, cc) == 1 || n.cell(r, cc) == -1) by {
        if r * 7 + cc == idx {
            assert(n.cell(r, cc) == m.turn);
        } else {
            assert(n.cell(r, cc) == m.cell(r, cc));
        }
    }
}

} // verus!
