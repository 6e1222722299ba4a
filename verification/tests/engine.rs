use connect_four::position::Position;

/// Mirrors a move sequence left-right: digit d names column d-1, so d
/// trades places with 8-d.
fn mirrored(seq: &str) -> String {
    seq.chars()
        .map(|c| {
            let d = c.to_digit(10).unwrap();
            char::from_digit(8 - d, 10).unwrap()
        })
        .collect()
}

/// A full 42-move sequence that fills the board without ever completing
/// a four-in-a-row: columns are filled in pairs, two stones of each
/// player alternating up every pair of columns, leaving runs of at most
/// two in every direction.
const DRAW_SEQUENCE: &str = "133113311331244224422442577557755775666666";

#[test]
fn vertical_three_makes_winning_move() {
    let p = Position::from_sequence("121212").unwrap();
    assert!(p.is_winning_move(0));
    assert!(!p.is_winning_move(1));
    assert!(!p.is_winning_move(2));
}

#[test]
fn horizontal_gap_makes_winning_move() {
    // first player holds columns 1, 2 and 4 of the bottom row; dropping
    // in column 3 closes the window
    let p = Position::from_sequence("172746").unwrap();
    assert!(p.is_winning_move(2));
    assert!(!p.is_winning_move(4));
}

#[test]
fn rising_diagonal_makes_winning_move() {
    // first player holds (0,0), (1,1), (2,2); column 3 has three stones,
    // so dropping there lands at row 3 and completes the diagonal
    let p = Position::from_sequence("122363346474").unwrap();
    assert!(p.is_winning_move(3));
}

#[test]
fn falling_diagonal_makes_winning_move() {
    let seq = mirrored("122363346474");
    let p = Position::from_sequence(&seq).unwrap();
    assert!(p.is_winning_move(3));
}

#[test]
fn vertical_win_scores_eighteen() {
    // Scenario: moves 1,2,1,2,1,2 put three first-player stones in
    // column 1; the seventh move wins there, so the score is
    // (43 - 6) / 2 = 18
    let p = Position::from_sequence("121212").unwrap();
    assert_eq!(p.negamax(None, None), 18);
}

#[test]
fn immediate_win_score_follows_formula() {
    // twelve stones on the board, an immediate diagonal win: (43 - 12) / 2
    let p = Position::from_sequence("122363346474").unwrap();
    assert_eq!(p.negamax(None, None), 15);
    // the immediate-win score does not depend on the window
    assert_eq!(p.negamax(Some(-5), Some(5)), 15);
}

#[test]
fn full_board_scores_zero() {
    let p = Position::from_sequence(DRAW_SEQUENCE).unwrap();
    assert_eq!(p.num_moves, 42);
    assert_eq!(p.negamax(None, None), 0);
}

#[test]
fn drawn_endgame_scores_zero() {
    // the draw filling with the last column still open: six forced moves
    // remain and the game ends level
    let p = Position::from_sequence(&DRAW_SEQUENCE[..36]).unwrap();
    assert_eq!(p.num_moves, 36);
    assert_eq!(p.negamax(None, None), 0);
}

#[test]
fn draw_sequence_never_passes_a_win() {
    // no prefix of the draw sequence leaves the mover a winning column
    for n in 0..43 {
        let p = Position::from_sequence(&DRAW_SEQUENCE[..n]).unwrap();
        for c in 0..7 {
            assert!(!(p.can_play(c) && p.is_winning_move(c)));
        }
    }
}

#[test]
fn narrow_window_agrees_when_it_brackets() {
    let p = Position::from_sequence(&DRAW_SEQUENCE[..34]).unwrap();
    let v = p.negamax(None, None);
    assert_eq!(p.negamax(Some(v - 1), Some(v + 1)), v);
    // a window wholly above the score fails low to its lower bound
    assert_eq!(p.negamax(Some(v + 1), Some(v + 3)), v + 1);
    // a window wholly below the score fails high to a sound lower bound
    let r = p.negamax(Some(v - 3), Some(v - 1));
    assert!(v - 1 <= r && r <= v);
}

#[test]
fn mirrored_sequences_score_alike() {
    for seq in ["121212", "122363346474", &DRAW_SEQUENCE[..34], &DRAW_SEQUENCE[..36]] {
        let p = Position::from_sequence(seq).unwrap();
        let q = Position::from_sequence(&mirrored(seq)).unwrap();
        assert_eq!(p.negamax(None, None), q.negamax(None, None));
    }
}
