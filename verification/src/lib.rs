//! A correctness oracle for Connect Four on the fixed 7x6 board.
//!
//! The crate models a board position, detects completed alignments of four
//! stones, and evaluates positions with an alpha-beta-pruned negamax search.
//! The score of a position is given from the perspective of the player to
//! move: positive when that player can force a win (larger the sooner the
//! win lands), negative when the opponent can, and zero for a draw.

pub mod model;
pub mod position;
pub mod wins;
pub mod engine;
pub mod laws;
