//! The executable board position and its mutation and query primitives.

use crate::model::{BoardModel, empty_board, lemma_play_wf, sum_heights};
use vstd::prelude::*;
use vstd::string::StrSliceExecFns;

verus! {

/// The number of columns of the board.
pub const WIDTH: usize = 7;

/// The number of rows of the board.
pub const HEIGHT: usize = 6;

/// The error returned when a move-sequence character does not denote a
/// column that can receive a stone.
#[derive(Clone, Copy, Debug, PartialEq, Eq, Structural)]
pub struct InvalidMoveError;

/// A position of a Connect Four board. `board` stores the 7x6 grid in
/// row-major order (row `r`, column `c` at index `r * 7 + c`, rows counted
/// from the bottom); `height[c]` is the row index of the next free cell of
/// column `c`; `num_moves` counts the stones placed; `current` is the sign
/// of the player to move.
pub struct Position {
    pub board: Vec<i8>,
    pub height: Vec<usize>,
    pub num_moves: i8,
    pub current: i8,
}

impl View for Position {
    type V = BoardModel;

    open spec fn view(&self) -> BoardModel {
        BoardModel {
            cells: self.board@.map_values(|x: i8| x as int),
            heights: self.height@.map_values(|x: usize| x as int),
            moves: self.num_moves as int,
            turn: self.current as int,
        }
    }
}

impl Clone for Position {
    fn clone(&self) -> (r: Self)
        ensures
            r@ == self@,
    {
        let r = Position {
            board: self.board.clone(),
            height: self.height.clone(),
            num_moves: self.num_moves,
            current: self.current,
        };
        proof {
            assert(r.board@ =~= self.board@);
            assert(r.height@ =~= self.height@);
            assert(r@.cells =~= self@.cells);
            assert(r@.heights =~= self@.heights);
        }
        r
    }
}

impl Position {
    /// The empty position: no stones, the first player to move.
    pub fn new() -> (r: Self)
        ensures
            r@ == empty_board(),
            r@.wf(),
    {
        let mut board: Vec<i8> = Vec::new();
        let mut i: usize = 0;
        while i < 42
            invariant
                i <= 42,
                board@.len() == i,
                forall|j: int| 0 <= j < i ==> board@[j] == 0i8,
            decreases 42 - i,
        {
            board.push(0);
            i += 1;
        }
        let mut height: Vec<usize> = Vec::new();
        let mut c: usize = 0;
        while c < 7
            invariant
                c <= 7,
                height@.len() == c,
                forall|j: int| 0 <= j < c ==> height@[j] == 0usize,
            decreases 7 - c,
        {
            height.push(0);
            c += 1;
        }
        let r = Position { board, height, num_moves: 0, current: 1 };
        proof {
            assert(r@.cells =~= empty_board().cells);
            assert(r@.heights =~= empty_board().heights);
            assert(sum_heights(r@.heights, 7) == 0) by {
                reveal_with_fuel(sum_heights, 8);
            }
        }
        r
    }

    /// Whether the move is legal, 0-indexed: the column is not full.
    pub fn can_play(&self, col: usize) -> (r: bool)
        requires
            self@.wf(),
            col < 7,
        ensures
            r == self@.playable(col as int),
    {
        self.height[col] < HEIGHT
    }

    /// Drops the current player's stone in column `col`, 0-indexed. The
    /// move must be legal; the stone lands at row `height[col]`, the
    /// column's height and the move count grow by one, and the turn flips.
    pub fn play(&mut self, col: usize)
        requires
            old(self)@.wf(),
            old(self)@.playable(col as int),
        ensures
            final(self)@ == old(self)@.play_at(col as int),
            final(self)@.wf(),
            final(self)@.heights[col as int] == old(self)@.heights[col as int] + 1,
            final(self)@.heights[col as int] <= 6,
            forall|c: int|
                0 <= c < 7 && c != col ==> final(self)@.heights[c] == old(self)@.heights[c],
            final(self)@.moves == old(self)@.moves + 1,
            final(self)@.turn == -old(self)@.turn,
    {
        proof {
            lemma_play_wf(old(self)@, col as int);
        }
        let h = self.height[col];
        self.board.set(h * 7 + col, self.current);
        self.height.set(col, h + 1);
        self.num_moves = self.num_moves + 1;
        self.current = -self.current;
        proof {
            assert(self@.cells =~= old(self)@.play_at(col as int).cells);
            assert(self@.heights =~= old(self)@.play_at(col as int).heights);
        }
    }

    /// Builds a position by replaying a sequence of 1-indexed column
    /// digits `'1'..='7'`. Returns `InvalidMoveError` when a character is
    /// not such a digit, or when it names a column that is already full.
    pub fn from_sequence(seq: &str) -> (r: Result<Position, InvalidMoveError>)
        ensures
            match r {
                Ok(p) => build_sequence(seq@) == Some(p@) && p@.wf(),
                Err(_) => build_sequence(seq@) is None,
            },
    {
        let n = seq.unicode_len();
        let mut p = Position::new();
        let mut i: usize = 0;
        proof {
            assert(seq@.take(0) =~= Seq::<char>::empty());
        }
        while i < n
            invariant
                i <= n,
                n == seq@.len(),
                build_sequence(seq@.take(i as int)) == Some(p@),
                p@.wf(),
            decreases n - i,
        {
            let ch = seq.get_char(i);
            proof {
                assert(seq@.take(i + 1).drop_last() =~= seq@.take(i as int));
                assert(seq@.take(i + 1).last() == seq@[i as int]);
            }
            let col: usize = match ch {
                '1' => 0,
                '2' => 1,
                '3' => 2,
                '4' => 3,
                '5' => 4,
                '6' => 5,
                '7' => 6,
                _ => {
                    proof {
                        lemma_build_prefix_none(seq@, i + 1);
                    }
                    return Err(InvalidMoveError);
                },
            };
            if !p.can_play(col) {
                proof {
                    lemma_build_prefix_none(seq@, i + 1);
                }
                return Err(InvalidMoveError);
            }
            p.play(col);
            i += 1;
        }
        proof {
            assert(seq@.take(n as int) =~= seq@);
        }
        Ok(p)
    }
}

/// The column, 0-indexed, that a move-sequence character denotes, or -1
/// when the character is not a column digit.
pub open spec fn col_of_char(ch: char) -> int {
    if ch == '1' {
        0
    } else if ch == '2' {
        1
    } else if ch == '3' {
        2
    } else if ch == '4' {
        3
    } else if ch == '5' {
        4
    } else if ch == '6' {
        5
    } else if ch == '7' {
        6
    } else {
        -1
    }
}

/// The position reached by replaying a move sequence from the empty
/// board, or `None` when some move does not name a playable column.
pub open spec fn build_sequence(s: Seq<char>) -> Option<BoardModel>
    decreases s.len(),
{
    if s.len() == 0 {
        Some(empty_board())
    } else {
        match build_sequence(s.drop_last()) {
            None => None,
            Some(m) => {
                let c = col_of_char(s.last());
                if m.playable(c) {
                    Some(m.play_at(c))
                } else {
                    None
                }
            },
        }
    }
}

/// A sequence with an unplayable prefix is itself unplayable.
pub proof fn lemma_build_prefix_none(s: Seq<char>, j: int)
    requires
        0 <= j <= s.len(),
        build_sequence(s.take(j)) is None,
    ensures
        build_sequence(s) is None,
    decreases s.len() - j,
{
    if j == s.len() {
        assert(s.take(j) =~= s);
    } else {
        assert(s.take(j + 1).drop_last() =~= s.take(j));
        lemma_build_prefix_none(s, j + 1);
    }
}

} // verus!
