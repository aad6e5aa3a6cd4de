use ratatui_tetris::board::{HEIGHT, WIDTH};
use ratatui_tetris::game::{
    Action, CLEAR_FLASH, Game, LINES_PER_LEVEL, LOCK_DELAY, MAX_LOCK_RESETS, PREVIEW_COUNT, Phase, SpinKind,
    gravity_interval_at,
};
use ratatui_tetris::game::report::Tone;
use ratatui_tetris::game::Event;
use ratatui_tetris::tetromino::{Kind, Piece, Spin};

/// Milliseconds as the nanoseconds the game counts in.
fn ms(n: u64) -> u64 {
    n * 1_000_000
}

fn drop_and_settle(game: &mut Game) {
    game.handle(Action::HardDrop);
    // Let any clear animation finish.
    game.update(CLEAR_FLASH + ms(1));
}

#[test]
fn a_new_game_starts_clean() {
    let game = Game::new();
    assert_eq!(game.score, 0);
    assert_eq!(game.lines, 0);
    assert_eq!(game.level, 1);
    assert!(game.board.is_empty());
    assert_eq!(game.phase, Phase::Falling);
    assert_eq!(game.next_pieces().len(), PREVIEW_COUNT);
}

#[test]
fn gravity_pulls_the_piece_down_one_row_per_interval() {
    let mut game = Game::new();
    let start_y = game.piece.y;
    let interval = game.gravity_interval();
    game.update(interval);
    assert_eq!(game.piece.y, start_y + 1);
}

#[test]
fn higher_levels_fall_faster() {
    let mut game = Game::new();
    let slow = game.gravity_interval();
    game.level = 10;
    let fast = game.gravity_interval();
    assert!(fast < slow, "level 10 should be quicker than level 1");
}

#[test]
fn a_piece_cannot_be_pushed_through_a_wall() {
    let mut game = Game::new();
    for _ in 0..20 {
        game.handle(Action::MoveLeft);
    }
    let leftmost = game.piece.cells().iter().map(|c| c.0).min().unwrap();
    assert_eq!(leftmost, 0);

    for _ in 0..40 {
        game.handle(Action::MoveRight);
    }
    let rightmost = game.piece.cells().iter().map(|c| c.0).max().unwrap();
    assert_eq!(rightmost, WIDTH - 1);
}

#[test]
fn hard_drop_lands_the_piece_and_scores_two_per_row() {
    let mut game = Game::new();
    let distance = game.board.drop_distance(&game.piece);
    game.handle(Action::HardDrop);
    assert_eq!(game.score, 2 * distance as u64);
    assert!(!game.board.is_empty(), "the piece should now be locked in");
}

#[test]
fn soft_drop_scores_one_per_row() {
    let mut game = Game::new();
    game.handle(Action::SoftDrop);
    assert_eq!(game.score, 1);
}

#[test]
fn hold_swaps_the_piece_and_locks_until_the_next_lock() {
    let mut game = Game::new();
    let first = game.piece.kind;
    game.handle(Action::Hold);
    assert_eq!(game.hold, Some(first));
    assert!(!game.can_hold(), "hold may only be used once per piece");

    let swapped_in = game.piece.kind;
    game.handle(Action::Hold);
    assert_eq!(game.piece.kind, swapped_in, "the second hold is ignored");

    drop_and_settle(&mut game);
    assert!(game.can_hold(), "locking a piece re-arms hold");
}

#[test]
fn holding_twice_across_pieces_swaps_back() {
    let mut game = Game::new();
    let first = game.piece.kind;
    game.handle(Action::Hold);
    drop_and_settle(&mut game);

    // The piece now in play trades places with the one that was stashed.
    let in_play = game.piece.kind;
    game.handle(Action::Hold);
    assert_eq!(game.piece.kind, first, "the stashed piece comes back out");
    assert_eq!(game.hold, Some(in_play), "and the current one goes in");
}

/// Fill row `y` completely except for the listed columns.
fn fill_except(game: &mut Game, y: i16, gaps: &[i16]) {
    for x in 0..WIDTH {
        if !gaps.contains(&x) {
            game.board.set(x, y, Some(Kind::L));
        }
    }
}

#[test]
fn clearing_a_line_scores_and_counts() {
    let mut game = Game::new();
    // A floor row missing one cell in the middle, waiting to be plugged.
    fill_except(&mut game, HEIGHT - 1, &[4]);
    assert_eq!(game.board.full_rows().len(), 0);

    // An I piece stood on end drops straight into the hole.
    game.piece = Piece { kind: Kind::I, rotation: 1, x: 2, y: 0 };
    game.handle(Action::HardDrop);
    game.update(CLEAR_FLASH + ms(1));

    assert_eq!(game.lines, 1);
    assert!(game.score >= 100, "a single is worth 100 at level 1");
}

/// The canonical T-spin double: a covered notch that only a rotation can
/// reach. The piece enters vertically through the gap on the right and the
/// third SRS kick test drops it into the slot.
fn t_spin_double_setup() -> Game {
    let mut game = Game::new();
    let a = HEIGHT - 2;
    fill_except(&mut game, a - 1, &[4, 5]); // the overhang
    fill_except(&mut game, a, &[3, 4, 5]); // the notch
    fill_except(&mut game, a + 1, &[4]); // the floor beneath it

    game.piece = Piece { kind: Kind::T, rotation: 3, x: 4, y: a - 2 };
    assert!(game.board.fits(&game.piece), "the entry position must be legal");
    game
}

#[test]
fn a_t_spin_double_is_detected_and_scored() {
    let mut game = t_spin_double_setup();

    game.handle(Action::Rotate(Spin::Ccw));
    assert_eq!(game.piece.rotation, 2, "the T should now point down");
    assert_eq!((game.piece.x, game.piece.y), (3, HEIGHT - 3), "the kick should have wedged it into the notch");
    assert_eq!(game.detect_spin(), SpinKind::Full);

    // Let the lock delay run out so the spin still counts at lock time.
    game.update(LOCK_DELAY + ms(1));

    assert_eq!(game.lines, 2);
    assert_eq!(game.score, 1200, "T-spin double is 1200 at level 1");
    let event = game.last_event.as_ref().expect("a banner was recorded");
    assert_eq!(event.headline, "T-SPIN DOUBLE");
}

#[test]
fn a_t_spin_needs_a_rotation_not_just_a_landing() {
    let mut game = t_spin_double_setup();
    // Same board, but the piece arrives by moving rather than rotating.
    game.piece = Piece { kind: Kind::T, rotation: 2, x: 3, y: HEIGHT - 3 };
    game.handle(Action::MoveLeft); // blocked, but it clears `rotated_last`
    assert_eq!(game.detect_spin(), SpinKind::NoSpin, "no rotation means no spin, however snug the fit");
}

#[test]
fn an_ordinary_double_is_not_a_t_spin() {
    let mut game = Game::new();
    fill_except(&mut game, HEIGHT - 1, &[4, 5]);
    fill_except(&mut game, HEIGHT - 2, &[4, 5]);
    // A leftover block, so this is a plain double and not a perfect clear.
    game.board.set(0, HEIGHT - 3, Some(Kind::L));

    game.piece = Piece { kind: Kind::O, rotation: 0, x: 3, y: 0 };
    game.handle(Action::HardDrop);

    assert_eq!(game.lines, 2);
    let event = game.last_event.as_ref().expect("a banner was recorded");
    assert_eq!(event.headline, "DOUBLE");
}

#[test]
fn wiping_the_board_earns_a_perfect_clear() {
    let mut game = Game::new();
    fill_except(&mut game, HEIGHT - 1, &[4, 5]);
    fill_except(&mut game, HEIGHT - 2, &[4, 5]);

    game.piece = Piece { kind: Kind::O, rotation: 0, x: 3, y: 0 };
    game.handle(Action::HardDrop);

    let event = game.last_event.as_ref().expect("a banner was recorded");
    assert_eq!(event.headline, "PERFECT CLEAR");
    assert!(game.score >= 300 + 1200, "double plus the perfect-clear bonus");
}

#[test]
fn levels_advance_every_ten_lines() {
    let mut game = Game::new();
    game.lines = 0;
    game.level = 1;
    // Simulate the level bookkeeping the way lock_piece does.
    game.lines = 25;
    game.level = 1 + game.lines / LINES_PER_LEVEL;
    assert_eq!(game.level, 3);
}

#[test]
fn pause_freezes_gravity_and_ignores_input() {
    let mut game = Game::new();
    game.handle(Action::TogglePause);
    assert!(game.is_paused());

    let (x, y) = (game.piece.x, game.piece.y);
    game.update(5_000_000_000);
    game.handle(Action::MoveLeft);
    assert_eq!((game.piece.x, game.piece.y), (x, y));

    game.handle(Action::TogglePause);
    assert_eq!(game.phase, Phase::Falling);
}

#[test]
fn a_grounded_piece_locks_after_the_lock_delay() {
    let mut game = Game::new();
    game.piece = game.board.ghost(&game.piece);
    game.update(LOCK_DELAY + ms(1));
    assert!(!game.board.is_empty(), "the piece should have locked");
}

#[test]
fn moving_a_grounded_piece_postpones_the_lock() {
    let mut game = Game::new();
    game.piece = game.board.ghost(&game.piece);
    game.update(LOCK_DELAY - ms(50));
    game.handle(Action::MoveLeft);
    game.update(ms(100));
    assert!(game.board.is_empty(), "the reset should have bought more time");
}

#[test]
fn lock_resets_are_capped() {
    let mut game = Game::new();
    game.piece = game.board.ghost(&game.piece);
    for _ in 0..(MAX_LOCK_RESETS + 5) {
        game.update(ms(10));
        game.handle(Action::MoveLeft);
        game.handle(Action::MoveRight);
    }
    game.update(LOCK_DELAY + ms(1));
    assert!(!game.board.is_empty(), "the piece must eventually lock");
}

#[test]
fn stacking_to_the_ceiling_ends_the_game() {
    let mut game = Game::new();
    for _ in 0..200 {
        if game.is_over() {
            break;
        }
        drop_and_settle(&mut game);
    }
    assert!(game.is_over(), "dropping in place should top out");
}

#[test]
fn a_tetris_scores_more_than_four_singles() {
    let mut singles = Game::new();
    singles.level = 1;
    singles.award(1, SpinKind::NoSpin);
    singles.combo = -1;
    singles.award(1, SpinKind::NoSpin);
    singles.combo = -1;
    singles.award(1, SpinKind::NoSpin);
    singles.combo = -1;
    singles.award(1, SpinKind::NoSpin);

    let mut tetris = Game::new();
    tetris.level = 1;
    tetris.award(4, SpinKind::NoSpin);

    assert!(tetris.score > singles.score / 4);
    assert_eq!(tetris.score, 800);
}

#[test]
fn back_to_back_tetrises_are_worth_more() {
    let mut game = Game::new();
    game.award(4, SpinKind::NoSpin);
    let first = game.score;
    game.combo = -1;
    game.award(4, SpinKind::NoSpin);
    let second = game.score - first;
    assert!(second > first, "the second tetris should get the b2b bonus");
    assert_eq!(second, 1200);
}

#[test]
fn a_broken_chain_drops_the_back_to_back_bonus() {
    let mut game = Game::new();
    game.award(4, SpinKind::NoSpin);
    assert!(game.back_to_back);
    game.award(1, SpinKind::NoSpin);
    assert!(!game.back_to_back, "a single breaks the chain");
}

#[test]
fn restart_clears_everything() {
    let mut game = Game::new();
    game.handle(Action::HardDrop);
    game.score = 9999;
    game.restart();
    assert_eq!(game.score, 0);
    assert!(game.board.is_empty());
    assert_eq!(game.phase, Phase::Falling);
}

#[test]
fn the_gravity_curve_matches_the_guideline() {
    assert_eq!(gravity_interval_at(1), 1_000_000_000);
    assert_eq!(gravity_interval_at(2), 793_000_000);
    assert_eq!(gravity_interval_at(10), 64_151_585);
    assert_eq!(gravity_interval_at(19), 823_907);
    assert_eq!(gravity_interval_at(20), 455_398);
    assert_eq!(gravity_interval_at(36), 1);
    assert_eq!(gravity_interval_at(37), 0);
    assert_eq!(gravity_interval_at(500), 0);
    // The documented curve, converted to a duration the way std does it.
    for level in 1..=115u32 {
        let l = level as f64;
        let seconds = (0.8 - (l - 1.0) * 0.007).powf(l - 1.0);
        let expected = std::time::Duration::from_secs_f64(seconds).as_nanos() as u64;
        assert_eq!(gravity_interval_at(level), expected, "level {level}");
    }
    for level in 1..37 {
        assert!(gravity_interval_at(level + 1) < gravity_interval_at(level));
    }
}

#[test]
fn past_the_curve_a_piece_lands_within_one_tick() {
    let mut game = Game::new();
    game.level = 40;
    let landed = game.ghost();
    game.update(ms(1));
    assert_eq!((game.piece.x, game.piece.y), (landed.x, landed.y));
}

#[test]
fn consecutive_clears_build_a_combo() {
    let mut game = Game::new();
    game.award(1, SpinKind::NoSpin);
    assert_eq!(game.score, 100);
    assert_eq!(game.combo, 0);
    game.award(1, SpinKind::NoSpin);
    // 100 for the single plus 50 for a one-step combo.
    assert_eq!(game.score, 100 + 150);
    assert_eq!(game.last_event.as_ref().unwrap().combo, 1);
    game.award(0, SpinKind::NoSpin);
    assert_eq!(game.combo, -1);
}

#[test]
fn scores_scale_with_the_level() {
    let mut game = Game::new();
    game.level = 3;
    game.award(2, SpinKind::NoSpin);
    assert_eq!(game.score, 900);
    let event = game.last_event.as_ref().unwrap();
    assert_eq!((event.headline.as_str(), event.points, event.back_to_back), ("DOUBLE", 900, false));
}

#[test]
fn spins_without_lines_still_score() {
    let mut game = Game::new();
    game.award(0, SpinKind::Full);
    assert_eq!(game.score, 400);
    assert_eq!(game.last_event.as_ref().unwrap().headline, "T-SPIN");
    game.award(0, SpinKind::Mini);
    assert_eq!(game.score, 500);
    assert_eq!(game.last_event.as_ref().unwrap().headline, "T-SPIN MINI");
    // Spins without lines do not start a back-to-back chain.
    assert!(!game.back_to_back);
}

#[test]
fn a_plain_drop_without_lines_records_no_banner() {
    let mut game = Game::new();
    game.award(0, SpinKind::NoSpin);
    assert!(game.last_event.is_none());
    assert_eq!(game.score, 0);
}

#[test]
fn clearing_rows_flash_before_they_collapse() {
    let mut game = Game::new();
    fill_except(&mut game, HEIGHT - 1, &[4]);
    fill_except(&mut game, HEIGHT - 2, &[0, 4]);
    game.piece = Piece { kind: Kind::I, rotation: 1, x: 2, y: 0 };
    game.handle(Action::HardDrop);
    assert_eq!(game.phase, Phase::Clearing { rows: vec![HEIGHT - 1], timer: CLEAR_FLASH });
    game.update(ms(100));
    assert!(matches!(game.phase, Phase::Clearing { .. }));
    // Input waits while the rows flash.
    let before = (game.piece.x, game.piece.y);
    game.handle(Action::MoveLeft);
    assert_eq!((game.piece.x, game.piece.y), before);
    game.update(ms(100));
    assert_eq!(game.phase, Phase::Falling);
    // The row with a gap at column 0 dropped to the floor.
    assert_eq!(game.board.get(0, HEIGHT - 1), None);
    assert_eq!(game.board.get(1, HEIGHT - 1), Some(Kind::L));
}

#[test]
fn statistics_count_every_spawned_piece() {
    let mut game = Game::new();
    assert_eq!(game.stats.iter().sum::<u32>(), 1);
    assert_eq!(game.stats[game.piece.kind.index()], 1);
    game.handle(Action::HardDrop);
    assert_eq!(game.stats.iter().sum::<u32>(), 2);
}

#[test]
fn the_ghost_is_where_a_hard_drop_lands() {
    let mut game = Game::new();
    let ghost = game.ghost();
    let cells = ghost.cells();
    game.handle(Action::HardDrop);
    for (x, y) in cells {
        assert_eq!(game.board.get(x, y), Some(ghost.kind));
    }
}

#[test]
fn elapsed_time_stops_while_paused() {
    let mut game = Game::new();
    game.update(ms(30));
    assert_eq!(game.elapsed, ms(30));
    game.handle(Action::TogglePause);
    game.update(ms(500));
    assert_eq!(game.elapsed, ms(30));
}

fn banner(headline: &str) -> Event {
    Event { headline: headline.to_string(), back_to_back: false, combo: 0, points: 0 }
}

#[test]
fn banners_are_highlighted_by_kind() {
    assert_eq!(banner("PERFECT CLEAR").tone(), Tone::PerfectClear);
    assert_eq!(banner("TETRIS").tone(), Tone::Tetris);
    assert_eq!(banner("T-SPIN").tone(), Tone::TSpin);
    assert_eq!(banner("T-SPIN MINI DOUBLE").tone(), Tone::TSpin);
    assert_eq!(banner("DOUBLE").tone(), Tone::Plain);
    assert_eq!(banner("T-SPI").tone(), Tone::Plain);
    assert_eq!(banner("").tone(), Tone::Plain);
}

#[test]
fn a_default_game_starts_clean() {
    let game = Game::default();
    assert_eq!(game.score, 0);
    assert_eq!(game.level, 1);
    assert!(game.board.is_empty());
    assert_eq!(game.phase, Phase::Falling);
}

#[test]
fn a_list_of_actions_is_played_in_order() {
    let mut game = Game::new();
    let start = game.piece;
    let applied = game.handle_all(&[Action::MoveLeft, Action::MoveLeft, Action::Rotate(Spin::Cw)]);
    assert_eq!(applied, 3);
    assert_eq!(game.piece.x, start.x - 2);
    assert_eq!(game.piece.rotation, 1);
    assert_eq!(game.handle_all(&[]), 0);
}

#[test]
fn the_paused_flag_can_be_set_explicitly() {
    let mut game = Game::new();
    game.set_paused(false);
    assert_eq!(game.phase, Phase::Falling);
    game.set_paused(true);
    assert!(game.is_paused());
    game.set_paused(true);
    assert!(game.is_paused());
    game.set_paused(false);
    assert_eq!(game.phase, Phase::Falling);
}

#[test]
fn a_finished_game_ignores_everything_but_restart() {
    let mut game = Game::new();
    game.phase = Phase::GameOver;
    let (x, y, score) = (game.piece.x, game.piece.y, game.score);
    for action in [Action::MoveLeft, Action::HardDrop, Action::Hold, Action::TogglePause] {
        game.handle(action);
    }
    game.update(ms(5000));
    game.set_paused(true);
    assert!(game.is_over());
    assert_eq!((game.piece.x, game.piece.y, game.score), (x, y, score));
    assert_eq!(game.elapsed, 0);
    game.restart();
    assert_eq!(game.phase, Phase::Falling);
}

#[test]
fn a_paused_game_needs_no_room_to_stand_still() {
    let mut game = Game::new();
    game.handle(Action::TogglePause);
    game.score = u64::MAX;
    game.elapsed = u64::MAX;
    game.update(u64::MAX);
    game.handle(Action::MoveLeft);
    game.handle(Action::TogglePause);
    assert_eq!(game.phase, Phase::Falling);
    assert_eq!(game.elapsed, u64::MAX);
}

#[test]
fn with_no_resets_left_moves_do_not_postpone_the_lock() {
    let mut game = Game::new();
    game.piece = game.ghost();
    for _ in 0..MAX_LOCK_RESETS {
        game.handle(Action::MoveLeft);
        game.handle(Action::MoveRight);
    }
    game.update(LOCK_DELAY - ms(10));
    game.handle(Action::MoveLeft);
    game.update(ms(10));
    assert!(!game.board.is_empty(), "the piece must lock once the delay has run");
}
