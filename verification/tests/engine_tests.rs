use tetris_cli::game::{Game, Tetromino, BOARD_HEIGHT, BOARD_WIDTH};

fn fill_row(game: &mut Game, y: usize) {
    for x in 0..BOARD_WIDTH {
        game.board[y][x] = Some(1);
    }
}

#[test]
fn test_validity_checks() {
    let mut game = Game::new();
    // Out of bounds on the left: the O piece at x = -1 sticks out.
    let off_left = Tetromino { shape_idx: 1, orientation: 0, x: -1, y: 5 };
    assert!(!game.is_valid_position(&off_left));
    // Below the floor.
    let below = Tetromino { shape_idx: 1, orientation: 0, x: 4, y: 19 };
    assert!(!game.is_valid_position(&below));
    // A free spot on an empty board.
    let free = Tetromino { shape_idx: 1, orientation: 0, x: 4, y: 5 };
    assert!(game.is_valid_position(&free));
    // The same spot fails once one of its cells is occupied.
    game.board[5][4] = Some(3);
    assert!(!game.is_valid_position(&free));
}

#[test]
fn test_clear_lines_on_empty_board() {
    let mut game = Game::new();
    game.clear_lines();
    assert_eq!(game.lines_cleared, 0);
    assert_eq!(game.score, 0);
    assert_eq!(game.level, 0);
    for y in 0..BOARD_HEIGHT {
        for x in 0..BOARD_WIDTH {
            assert!(game.board[y][x].is_none());
        }
    }
}

#[test]
fn test_lock_then_clear_bottom_row() {
    let mut game = Game::new();
    // An O piece in the bottom-left corner: cells in rows 18 and 19.
    game.current_piece = Tetromino { shape_idx: 1, orientation: 0, x: 0, y: 18 };
    // Fill the remainder of the bottom row.
    for x in 2..BOARD_WIDTH {
        game.board[19][x] = Some(1);
    }
    game.lock_piece();
    game.clear_lines();
    // Exactly the bottom row cleared.
    assert_eq!(game.lines_cleared, 1);
    assert_eq!(game.score, 40);
    // The piece's two cells in row 18 have shifted down into row 19.
    assert!(game.board[19][0].is_some());
    assert!(game.board[19][1].is_some());
    for x in 2..BOARD_WIDTH {
        assert!(game.board[19][x].is_none());
    }
    // A fresh empty row on top, and nothing else anywhere.
    for y in 0..19 {
        for x in 0..BOARD_WIDTH {
            assert!(game.board[y][x].is_none());
        }
    }
}

#[test]
fn test_four_line_clear() {
    let mut game = Game::new();
    for y in 16..20 {
        fill_row(&mut game, y);
    }
    game.clear_lines();
    assert_eq!(game.lines_cleared, 4);
    assert_eq!(game.score, 1200);
    for y in 0..BOARD_HEIGHT {
        for x in 0..BOARD_WIDTH {
            assert!(game.board[y][x].is_none());
        }
    }
}

#[test]
fn test_two_line_clear_score() {
    let mut game = Game::new();
    fill_row(&mut game, 18);
    fill_row(&mut game, 19);
    game.clear_lines();
    assert_eq!(game.lines_cleared, 2);
    assert_eq!(game.score, 100);
}

#[test]
fn test_scoring_level_multiplier() {
    let mut game = Game::new();
    game.lines_cleared = 25;
    game.level = 2;
    game.fall_interval = 420;
    fill_row(&mut game, 19);
    game.clear_lines();
    // 40 base points times (level + 1).
    assert_eq!(game.score, 120);
    assert_eq!(game.lines_cleared, 26);
    assert_eq!(game.level, 2);
    assert_eq!(game.fall_interval, 420);
}

#[test]
fn test_level_up_speeds_gravity() {
    let mut game = Game::new();
    game.lines_cleared = 9;
    fill_row(&mut game, 19);
    game.clear_lines();
    assert_eq!(game.lines_cleared, 10);
    assert_eq!(game.level, 1);
    assert_eq!(game.fall_interval, 460);
}

#[test]
fn test_interval_floor_at_level_ten() {
    let mut game = Game::new();
    game.lines_cleared = 99;
    game.level = 9;
    game.fall_interval = 140;
    fill_row(&mut game, 19);
    game.clear_lines();
    assert_eq!(game.level, 10);
    assert_eq!(game.fall_interval, 100);
}

#[test]
fn test_hold_twice_is_noop() {
    let mut game = Game::new();
    // First hold: stores the piece and spawns; holding is re-enabled by
    // the spawn.
    let first_kind = game.current_piece.shape_idx;
    game.hold_current_piece();
    assert_eq!(game.hold_piece.as_ref().map(|h| h.shape_idx), Some(first_kind));
    assert!(game.can_hold);
    // Second hold: swaps with the held piece and disables holding.
    let active_kind = game.current_piece.shape_idx;
    game.hold_current_piece();
    assert_eq!(game.current_piece.shape_idx, first_kind);
    assert_eq!(game.hold_piece.as_ref().map(|h| h.shape_idx), Some(active_kind));
    assert!(!game.can_hold);
    // Third hold without an intervening spawn: a no-op.
    let x = game.current_piece.x;
    let y = game.current_piece.y;
    let kind = game.current_piece.shape_idx;
    let held = game.hold_piece.as_ref().map(|h| h.shape_idx);
    let score = game.score;
    game.hold_current_piece();
    assert_eq!(game.current_piece.x, x);
    assert_eq!(game.current_piece.y, y);
    assert_eq!(game.current_piece.shape_idx, kind);
    assert_eq!(game.hold_piece.as_ref().map(|h| h.shape_idx), held);
    assert_eq!(game.score, score);
    assert!(!game.can_hold);
}

#[test]
fn test_bag_fairness_over_draws() {
    let mut game = Game::new();
    // The first seven kinds drawn form one bag: each kind exactly once.
    let mut counts = [0usize; 7];
    counts[game.current_piece.shape_idx] += 1;
    for _ in 0..6 {
        game.spawn_next_piece();
        counts[game.current_piece.shape_idx] += 1;
    }
    for k in 0..7 {
        assert_eq!(counts[k], 1);
    }
    // And the next seven again.
    let mut counts2 = [0usize; 7];
    for _ in 0..7 {
        game.spawn_next_piece();
        counts2[game.current_piece.shape_idx] += 1;
    }
    for k in 0..7 {
        assert_eq!(counts2[k], 1);
    }
}

#[test]
fn test_rotation_blocked_is_noop() {
    let mut game = Game::new();
    // An I piece lying in the bottom row: every rotated position and
    // every kick offset pokes below the floor.
    game.current_piece = Tetromino { shape_idx: 0, orientation: 0, x: 0, y: 18 };
    game.try_rotate_cw();
    assert_eq!(game.current_piece.orientation, 0);
    assert_eq!(game.current_piece.x, 0);
    assert_eq!(game.current_piece.y, 18);
    game.try_rotate_ccw();
    assert_eq!(game.current_piece.orientation, 0);
    assert_eq!(game.current_piece.x, 0);
    assert_eq!(game.current_piece.y, 18);
}

#[test]
fn test_rotation_in_open_space() {
    let mut game = Game::new();
    game.current_piece = Tetromino { shape_idx: 2, orientation: 0, x: 4, y: 10 };
    game.try_rotate_cw();
    assert_eq!(game.current_piece.orientation, 1);
    game.try_rotate_ccw();
    assert_eq!(game.current_piece.orientation, 0);
}

#[test]
fn test_gravity_tick_timing() {
    let mut game = Game::new();
    let y0 = game.current_piece.y;
    // Not enough time has passed: nothing moves.
    game.update(400);
    assert_eq!(game.current_piece.y, y0);
    assert_eq!(game.last_tick, 0);
    // The interval has elapsed: one row of gravity, timestamp reset.
    game.update(500);
    assert_eq!(game.current_piece.y, y0 + 1);
    assert_eq!(game.last_tick, 500);
    // Gravity never fires twice for one call, and not before the next
    // interval has elapsed.
    game.update(999);
    assert_eq!(game.current_piece.y, y0 + 1);
    game.update(1000);
    assert_eq!(game.current_piece.y, y0 + 2);
}

#[test]
fn test_hard_drop_locks_and_respawns() {
    let mut game = Game::new();
    game.hard_drop();
    assert_eq!(game.lines_cleared, 0);
    assert_eq!(game.score, 0);
    let occupied: usize = (0..BOARD_HEIGHT)
        .map(|y| (0..BOARD_WIDTH).filter(|&x| game.board[y][x].is_some()).count())
        .sum();
    assert_eq!(occupied, 4);
    assert_eq!(game.current_piece.y, 0);
    assert!(game.can_hold);
    assert!(!game.game_over);
}
