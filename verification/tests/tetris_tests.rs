use tetris_cli::game::{Game, BOARD_HEIGHT, BOARD_WIDTH};

#[test]
fn test_new_game() {
    let game = Game::new();
    assert_eq!(game.board.len(), BOARD_HEIGHT);
    assert_eq!(game.board[0].len(), BOARD_WIDTH);
    assert!(!game.game_over);
    // Check initial score
    assert_eq!(game.score, 0);
}

#[test]
fn test_soft_drop() {
    let mut game = Game::new();
    // Try moving down repeatedly
    let old_y = game.current_piece.y;
    game.try_move(0, 1);
    assert_eq!(game.current_piece.y, old_y + 1);
}

#[test]
fn test_line_clear_scoring() {
    let game = Game::new();
    assert_eq!(game.score, 0);
    // awarding lines
    assert_eq!(game.line_clear_score(1), 40);
    assert_eq!(game.line_clear_score(2), 100);
    assert_eq!(game.line_clear_score(3), 300);
    assert_eq!(game.line_clear_score(4), 1200);
}

#[test]
fn test_new_game_spawn_state() {
    let game = Game::new();
    assert_eq!(game.current_piece.x, (BOARD_WIDTH / 2) as i32 - 2);
    assert_eq!(game.current_piece.y, 0);
    assert_eq!(game.current_piece.orientation, 0);
    assert!(game.current_piece.shape_idx < 7);
    assert_eq!(game.level, 0);
    assert_eq!(game.lines_cleared, 0);
    assert!(game.hold_piece.is_none());
    assert!(game.can_hold);
    assert_eq!(game.fall_interval, 500);
    for y in 0..BOARD_HEIGHT {
        for x in 0..BOARD_WIDTH {
            assert!(game.board[y][x].is_none());
        }
    }
    assert!(game.next_queue.len() >= 2);
}

#[test]
fn test_move_left_blocked_at_wall() {
    let mut game = Game::new();
    let mut guard = 0;
    while game.try_move(-1, 0) {
        guard += 1;
        assert!(guard <= BOARD_WIDTH as i32);
    }
    // The piece's leftmost cell is now at column 0: one more attempt
    // must fail and leave the position unchanged.
    let x_before = game.current_piece.x;
    let y_before = game.current_piece.y;
    let leftmost = game
        .current_piece
        .positions()
        .iter()
        .map(|&(px, _)| px)
        .min()
        .unwrap();
    assert_eq!(leftmost, 0);
    assert!(!game.try_move(-1, 0));
    assert_eq!(game.current_piece.x, x_before);
    assert_eq!(game.current_piece.y, y_before);
}
