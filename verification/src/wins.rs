//! Win detection: whether dropping a stone would complete an alignment
//! of four same-sign stones.
//!
//! The specification states the existence of a window of four aligned
//! cells that contains the landing cell and whose three other cells
//! already hold the mover's stones; the executable code scans outward
//! from the landing cell and counts contiguous matches, as the reference
//! algorithm does, and is proved equivalent.

use crate::model::BoardModel;
use crate::position::{Position, HEIGHT, WIDTH};
use vstd::prelude::*;

verus! {

impl BoardModel {
    /// A vertical window of four cells of column `c`, rows `s..=s+3`,
    /// containing the landing row, whose other cells hold the mover's sign.
    pub open spec fn vert_window(self, c: int, s: int) -> bool {
        &&& 0 <= s
        &&& s + 3 < 6
        &&& s <= self.heights[c] <= s + 3
        &&& forall|r: int|
            s <= r <= s + 3 && r != self.heights[c] ==> #[trigger] self.cell(r, c) == self.turn
    }

    /// Dropping in column `c` completes a vertical alignment of four.
    pub open spec fn vert_win(self, c: int) -> bool {
        exists|s: int| self.vert_window(c, s)
    }

    /// A horizontal window of four cells of the landing row, columns
    /// `s..=s+3`, containing column `c`, whose other cells hold the
    /// mover's sign.
    pub open spec fn horiz_window(self, c: int, s: int) -> bool {
        &&& 0 <= s
        &&& s + 3 < 7
        &&& s <= c <= s + 3
        &&& forall|x: int|
            s <= x <= s + 3 && x != c ==> #[trigger] self.cell(self.heights[c], x) == self.turn
    }

    /// Dropping in column `c` completes a horizontal alignment of four.
    pub open spec fn horiz_win(self, c: int) -> bool {
        exists|s: int| self.horiz_window(c, s)
    }

    /// A window of four cells on the rising diagonal through the landing
    /// cell, at offsets `d..=d+3` with the landing cell at offset 0,
    /// whose other cells hold the mover's sign.
    pub open spec fn diag_up_window(self, c: int, d: int) -> bool {
        &&& -3 <= d <= 0
        &&& 0 <= self.heights[c] + d
        &&& self.heights[c] + d + 3 < 6
        &&& 0 <= c + d
        &&& c + d + 3 < 7
        &&& forall|t: int|
            d <= t <= d + 3 && t != 0 ==> #[trigger] self.cell(self.heights[c] + t, c + t)
                == self.turn
    }

    /// Dropping in column `c` completes a four-in-a-row on the diagonal
    /// that rises to the right.
    pub open spec fn diag_up_win(self, c: int) -> bool {
        exists|d: int| self.diag_up_window(c, d)
    }

    /// A window of four cells on the falling diagonal through the landing
    /// cell, at offsets `d..=d+3` with the landing cell at offset 0,
    /// whose other cells hold the mover's sign.
    pub open spec fn diag_down_window(self, c: int, d: int) -> bool {
        &&& -3 <= d <= 0
        &&& 0 <= self.heights[c] - (d + 3)
        &&& self.heights[c] - d < 6
        &&& 0 <= c + d
        &&& c + d + 3 < 7
        &&& forall|t: int|
            d <= t <= d + 3 && t != 0 ==> #[trigger] self.cell(self.heights[c] - t, c + t)
                == self.turn
    }

    /// Dropping in column `c` completes a four-in-a-row on the diagonal
    /// that falls to the right.
    pub open spec fn diag_down_win(self, c: int) -> bool {
        exists|d: int| self.diag_down_window(c, d)
    }

    /// Dropping in column `c` completes an alignment of four in some
    /// direction: vertical, horizontal, or either diagonal.
    pub open spec fn wins_at(self, c: int) -> bool {
        ||| self.vert_win(c)
        ||| self.horiz_win(c)
        ||| self.diag_up_win(c)
        ||| self.diag_down_win(c)
    }

    /// Column `c` is a playable, immediately winning move.
    pub open spec fn winning_move(self, c: int) -> bool {
        self.playable(c) && self.wins_at(c)
    }

    /// The player to move has an immediately winning column.
    pub open spec fn has_winning_move(self) -> bool {
        exists|c: int| self.winning_move(c)
    }
}

impl Position {
    /// Whether the move wins for the current player, 0-indexed. The move
    /// must be legal, and must be queried before the stone is placed.
    pub fn is_winning_move(&self, col: usize) -> (r: bool)
        requires
            self@.wf(),
            self@.playable(col as int),
        ensures
            r == self@.wins_at(col as int),
    {
        self.check_vertical(col) || self.check_horizontal(col) || self.check_diagonal(col)
    }

    /// Whether the move completes a vertical alignment of four: the three
    /// cells below the landing cell already hold the mover's stones.
    pub fn check_vertical(&self, col: usize) -> (r: bool)
        requires
            self@.wf(),
            self@.playable(col as int),
        ensures
            r == self@.vert_win(col as int),
    {
        let h = self.height[col];
        let r = h >= 3 && self.board[(h - 1) * 7 + col] == self.current && self.board[(h - 2) * 7
            + col] == self.current && self.board[(h - 3) * 7 + col] == self.current;
        proof {
            let m = self@;
            let c = col as int;
            let lr = m.heights[c];
            if r {
                assert(m.cell(lr - 1, c) == m.turn);
                assert(m.cell(lr - 2, c) == m.turn);
                assert(m.cell(lr - 3, c) == m.turn);
                assert(m.vert_window(c, lr - 3));
            } else if m.vert_win(c) {
                let s = choose|s: int| m.vert_window(c, s);
                if s + 3 > lr {
                    assert(m.cell(lr + 1, c) == m.turn);
                    assert(m.cell(lr + 1, c) == 0);
                    assert(false);
                } else {
                    assert(m.cell(lr - 1, c) == m.turn);
                    assert(m.cell(lr - 2, c) == m.turn);
                    assert(m.cell(lr - 3, c) == m.turn);
                    assert(false);
                }
            }
        }
        r
    }

    /// Whether the move completes a horizontal alignment of four on the
    /// landing row, counting contiguous matches to the right and to the
    /// left of the landing column.
    pub fn check_horizontal(&self, col: usize) -> (r: bool)
        requires
            self@.wf(),
            self@.playable(col as int),
        ensures
            r == self@.horiz_win(col as int),
    {
        let lr = self.height[col];
        let mut kr: usize = 0;
        while col + kr + 1 < WIDTH && self.board[lr * 7 + (col + kr + 1)] == self.current
            invariant
                self@.wf(),
                self@.playable(col as int),
                lr == self@.heights[col as int],
                col + kr <= 6,
                forall|t: int|
                    col < t <= col + kr ==> #[trigger] self@.cell(self@.heights[col as int], t)
                        == self@.turn,
            decreases 7 - (col + kr),
        {
            kr += 1;
        }
        let mut kl: usize = 0;
        while kl + 1 <= col && self.board[lr * 7 + (col - kl - 1)] == self.current
            invariant
                self@.wf(),
                self@.playable(col as int),
                lr == self@.heights[col as int],
                kl <= col,
                forall|t: int|
                    col - kl <= t < col ==> #[trigger] self@.cell(self@.heights[col as int], t)
                        == self@.turn,
            decreases col - kl,
        {
            kl += 1;
        }
        let r = kr + kl >= 3;
        proof {
            let m = self@;
            let c = col as int;
            if r {
                let s: int = if kl >= 3 {
                    c - 3
                } else {
                    c - kl
                };
                assert(m.horiz_window(c, s));
            } else if m.horiz_win(c) {
                let s = choose|s: int| m.horiz_window(c, s);
                if c + kr + 1 <= s + 3 {
                    assert(m.cell(m.heights[c], c + kr + 1) == m.turn);
                    assert(false);
                }
                if c - kl - 1 >= s {
                    assert(m.cell(m.heights[c], c - kl - 1) == m.turn);
                    assert(false);
                }
                assert(false);
            }
        }
        r
    }

    /// Whether the move completes a diagonal alignment of four, on either
    /// slope, counting contiguous matches along each diagonal through the
    /// landing cell. The two slopes are examined separately.
    #[verifier::rlimit(60)]
    pub fn check_diagonal(&self, col: usize) -> (r: bool)
        requires
            self@.wf(),
            self@.playable(col as int),
        ensures
            r == (self@.diag_up_win(col as int) || self@.diag_down_win(col as int)),
    {
        let lr = self.height[col];
        // rising diagonal: up-right matches, then down-left matches
        let mut ku: usize = 0;
        while col + ku + 1 < WIDTH && lr + ku + 1 < HEIGHT && self.board[(lr + ku + 1) * 7 + (col
            + ku + 1)] == self.current
            invariant
                self@.wf(),
                self@.playable(col as int),
                lr == self@.heights[col as int],
                col + ku <= 6,
                lr + ku <= 5,
                forall|t: int|
                    1 <= t <= ku ==> #[trigger] self@.cell(
                        self@.heights[col as int] + t,
                        col as int + t,
                    ) == self@.turn,
            decreases 7 - (col + ku),
        {
            ku += 1;
        }
        let mut kd: usize = 0;
        while kd + 1 <= col && kd + 1 <= lr && self.board[(lr - kd - 1) * 7 + (col - kd - 1)]
            == self.current
            invariant
                self@.wf(),
                self@.playable(col as int),
                lr == self@.heights[col as int],
                kd <= col,
                kd <= lr,
                forall|t: int|
                    1 <= t <= kd ==> #[trigger] self@.cell(
                        self@.heights[col as int] - t,
                        col as int - t,
                    ) == self@.turn,
            decreases col - kd,
        {
            kd += 1;
        }
        let up = ku + kd >= 3;
        proof {
            let m = self@;
            let c = col as int;
            if up {
                let d: int = if kd >= 3 {
                    -3
                } else {
                    -(kd as int)
                };
                assert forall|t: int| d <= t <= d + 3 && t != 0 implies #[trigger] m.cell(
                    m.heights[c] + t,
                    c + t,
                ) == m.turn by {
                    if t < 0 {
                        assert(m.cell(m.heights[c] - (-t), c - (-t)) == m.turn);
                    }
                }
                assert(m.diag_up_window(c, d));
            } else if m.diag_up_win(c) {
                let d = choose|d: int| m.diag_up_window(c, d);
                if ku < d + 3 {
                    assert(m.cell(m.heights[c] + (ku + 1), c + (ku + 1)) == m.turn);
                    assert(false);
                }
                if kd < -d {
                    assert(m.cell(m.heights[c] + (-(kd + 1)), c + (-(kd + 1))) == m.turn);
                    assert(m.cell(m.heights[c] - (kd + 1), c - (kd + 1)) == m.turn);
                    assert(false);
                }
                assert(false);
            }
        }
        // falling diagonal: down-right matches, then up-left matches
        let mut kq: usize = 0;
        while col + kq + 1 < WIDTH && kq + 1 <= lr && self.board[(lr - kq - 1) * 7 + (col + kq
            + 1)] == self.current
            invariant
                self@.wf(),
                self@.playable(col as int),
                lr == self@.heights[col as int],
                col + kq <= 6,
                kq <= lr,
                forall|t: int|
                    1 <= t <= kq ==> #[trigger] self@.cell(
                        self@.heights[col as int] - t,
                        col as int + t,
                    ) == self@.turn,
            decreases 7 - (col + kq),
        {
            kq += 1;
        }
        let mut kp: usize = 0;
        while kp + 1 <= col && lr + kp + 1 < HEIGHT && self.board[(lr + kp + 1) * 7 + (col - kp
            - 1)] == self.current
            invariant
                self@.wf(),
                self@.playable(col as int),
                lr == self@.heights[col as int],
                kp <= col,
                lr + kp <= 5,
                forall|t: int|
                    1 <= t <= kp ==> #[trigger] self@.cell(
                        self@.heights[col as int] + t,
                        col as int - t,
                    ) == self@.turn,
            decreases col - kp,
        {
            kp += 1;
        }
        let down = kq + kp >= 3;
        proof {
            let m = self@;
            let c = col as int;
            if down {
                let d: int = if kp >= 3 {
                    -3
                } else {
                    -(kp as int)
                };
                assert forall|t: int| d <= t <= d + 3 && t != 0 implies #[trigger] m.cell(
                    m.heights[c] - t,
                    c + t,
                ) == m.turn by {
                    if t < 0 {
                        assert(m.cell(m.heights[c] + (-t), c - (-t)) == m.turn);
                    }
                }
                assert(m.diag_down_window(c, d));
            } else if m.diag_down_win(c) {
                let d = choose|d: int| m.diag_down_window(c, d);
                if kq < d + 3 {
                    assert(m.cell(m.heights[c] - (kq + 1), c + (kq + 1)) == m.turn);
                    assert(false);
                }
                if kp < -d {
                    assert(m.cell(m.heights[c] - (-(kp + 1)), c + (-(kp + 1))) == m.turn);
                    assert(m.cell(m.heights[c] + (kp + 1), c - (kp + 1)) == m.turn);
                    assert(false);
                }
                assert(false);
            }
        }
        up || down
    }
}

} // verus!
