use connect_four::position::{InvalidMoveError, Position};

#[test]
fn new_position_is_empty() {
    let p = Position::new();
    assert_eq!(p.num_moves, 0);
    assert_eq!(p.current, 1);
    assert_eq!(p.height.len(), 7);
    assert_eq!(p.board.len(), 42);
    for c in 0..7 {
        assert_eq!(p.height[c], 0);
        assert!(p.can_play(c));
    }
    for i in 0..42 {
        assert_eq!(p.board[i], 0);
    }
}

#[test]
fn play_updates_height_moves_and_turn() {
    let mut p = Position::new();
    p.play(3);
    assert_eq!(p.height[3], 1);
    assert_eq!(p.num_moves, 1);
    assert_eq!(p.current, -1);
    assert_eq!(p.board[3], 1);
    p.play(3);
    assert_eq!(p.height[3], 2);
    assert_eq!(p.num_moves, 2);
    assert_eq!(p.current, 1);
    assert_eq!(p.board[7 + 3], -1);
    for c in 0..7 {
        if c != 3 {
            assert_eq!(p.height[c], 0);
        }
    }
}

#[test]
fn height_never_exceeds_board_and_full_column_rejected() {
    let mut p = Position::new();
    for _ in 0..6 {
        assert!(p.can_play(0));
        p.play(0);
    }
    assert_eq!(p.height[0], 6);
    assert!(!p.can_play(0));
    for c in 1..7 {
        assert!(p.can_play(c));
    }
}

#[test]
fn from_sequence_replays_moves() {
    let p = Position::from_sequence("44").unwrap();
    assert_eq!(p.height[3], 2);
    assert_eq!(p.num_moves, 2);
    assert_eq!(p.current, 1);
    assert_eq!(p.board[3], 1);
    assert_eq!(p.board[7 + 3], -1);
}

#[test]
fn from_sequence_rejects_bad_characters() {
    assert!(matches!(Position::from_sequence("12x"), Err(InvalidMoveError)));
    assert!(matches!(Position::from_sequence("0"), Err(InvalidMoveError)));
    assert!(matches!(Position::from_sequence("8"), Err(InvalidMoveError)));
    assert!(matches!(Position::from_sequence("123 "), Err(InvalidMoveError)));
}

#[test]
fn from_sequence_rejects_overfull_column() {
    assert!(Position::from_sequence("111111").is_ok());
    assert!(matches!(Position::from_sequence("1111111"), Err(InvalidMoveError)));
}

#[test]
fn move_count_equals_sum_of_heights() {
    let p = Position::from_sequence("435261717263544").unwrap();
    let total: usize = p.height.iter().sum();
    assert_eq!(p.num_moves as usize, total);
    assert_eq!(p.current, if p.num_moves % 2 == 0 { 1 } else { -1 });
}
