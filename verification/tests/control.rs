use ratatui_tetris::board::{HEIGHT, HIDDEN_ROWS, WIDTH};
use ratatui_tetris::control::{Kind as Command, action, parse};
use ratatui_tetris::game::report::{Look, cells_json, column_height_of, phase_name, state_json};
use ratatui_tetris::game::{Action, Game, Phase};
use ratatui_tetris::tetromino::{Kind, Piece, Spin};

#[test]
fn simple_commands_parse() {
    assert_eq!(parse("state"), Some(Command::State));
    assert_eq!(parse("pause"), Some(Command::SetPaused(true)));
    assert_eq!(parse("resume"), Some(Command::SetPaused(false)));
    // Extra words after a simple command are ignored.
    assert_eq!(parse("state please"), Some(Command::State));
}

#[test]
fn play_lists_its_actions_in_order() {
    assert_eq!(
        parse("play cw left left drop"),
        Some(Command::Play(vec![
            Action::Rotate(Spin::Cw),
            Action::MoveLeft,
            Action::MoveLeft,
            Action::HardDrop
        ]))
    );
    assert_eq!(parse("  play\tsoft   ccw flip hold right  "), Some(Command::Play(vec![
        Action::SoftDrop,
        Action::Rotate(Spin::Ccw),
        Action::Rotate(Spin::Flip),
        Action::Hold,
        Action::MoveRight
    ])));
}

#[test]
fn anything_unknown_is_rejected() {
    assert_eq!(parse(""), None);
    assert_eq!(parse("   "), None);
    assert_eq!(parse("dance"), None);
    assert_eq!(parse("STATE"), None);
    assert_eq!(parse("play left jump"), None);
    assert_eq!(parse("playleft"), None);
    // `play` needs at least one action.
    assert_eq!(parse("play"), None);
    assert_eq!(parse("  play \t "), None);
}

#[test]
fn action_names_match_the_keys() {
    assert_eq!(action("left"), Some(Action::MoveLeft));
    assert_eq!(action("right"), Some(Action::MoveRight));
    assert_eq!(action("soft"), Some(Action::SoftDrop));
    assert_eq!(action("drop"), Some(Action::HardDrop));
    assert_eq!(action("cw"), Some(Action::Rotate(Spin::Cw)));
    assert_eq!(action("ccw"), Some(Action::Rotate(Spin::Ccw)));
    assert_eq!(action("flip"), Some(Action::Rotate(Spin::Flip)));
    assert_eq!(action("hold"), Some(Action::Hold));
    assert_eq!(action("pause"), None);
    assert_eq!(action("lef"), None);
}

#[test]
fn phases_have_report_names() {
    assert_eq!(phase_name(&Phase::Falling), "falling");
    assert_eq!(phase_name(&Phase::Clearing { rows: vec![3], timer: 1 }), "clearing");
    assert_eq!(phase_name(&Phase::Paused), "paused");
    assert_eq!(phase_name(&Phase::GameOver), "gameover");
}

#[test]
fn cells_are_reported_in_visible_rows() {
    assert_eq!(cells_json(&[(4, 3), (3, 4), (4, 4), (5, 4)]), "[[4,-1],[3,0],[4,0],[5,0]]");
}

#[test]
fn the_report_describes_a_fresh_game() {
    let mut game = Game::new();
    game.piece = Piece { kind: Kind::T, rotation: 0, x: 3, y: 3 };
    let json = state_json(&game);
    assert!(json.starts_with("{\"score\":0,\"lines\":0,\"level\":1,\"phase\":\"falling\",\"can_hold\":true,\"hold\":null,\"next\":[\""));
    assert!(json.contains("\"current\":\"T\",\"rotation\":0,\"piece\":[[4,-1],[3,0],[4,0],[5,0]],\"ghost\":[[4,18],[3,19],[4,19],[5,19]],"));
    assert!(json.contains("\"grid\":[\"..........\","));
    assert!(json.ends_with("\"heights\":[0,0,0,0,0,0,0,0,0,0],\"holes\":[]}"));
}

#[test]
fn heights_and_holes_come_from_the_board() {
    let mut game = Game::new();
    game.piece = Piece { kind: Kind::O, rotation: 0, x: 3, y: 3 };
    // Column 2 has a block three rows up with air below it.
    game.board.set(2, HEIGHT - 3, Some(Kind::J));
    game.board.set(2, HEIGHT - 1, Some(Kind::J));
    game.board.set(7, HEIGHT - 1, Some(Kind::S));
    game.hold = Some(Kind::Z);
    assert_eq!(column_height_of(&game.board, 2), 3);
    assert_eq!(column_height_of(&game.board, 7), 1);
    assert_eq!(column_height_of(&game.board, 0), 0);
    let json = state_json(&game);
    assert!(json.contains("\"hold\":\"Z\","));
    assert!(json.contains("\"heights\":[0,0,3,0,0,0,0,1,0,0],\"holes\":[[2,18]]}"));
    assert!(json.contains("\"..J....S..\"]"));
}

#[test]
fn the_playfield_shows_piece_ghost_and_stack() {
    let mut game = Game::new();
    game.piece = Piece { kind: Kind::O, rotation: 0, x: 3, y: HIDDEN_ROWS };
    game.board.set(0, HEIGHT - 1, Some(Kind::L));
    // The O occupies columns 4 and 5 of its first two rows.
    assert_eq!(game.cell_look(4, 0), Look::Block(Kind::O));
    assert_eq!(game.cell_look(5, 1), Look::Block(Kind::O));
    assert_eq!(game.cell_look(4, 19), Look::Shadow(Kind::O));
    assert_eq!(game.cell_look(0, 19), Look::Block(Kind::L));
    assert_eq!(game.cell_look(1, 19), Look::Empty);
    assert_eq!(game.cell_look(WIDTH, 5), Look::Empty);
}

#[test]
fn clearing_rows_light_up() {
    let mut game = Game::new();
    for x in 0..WIDTH {
        if x != 4 {
            game.board.set(x, HEIGHT - 1, Some(Kind::L));
        }
    }
    game.piece = Piece { kind: Kind::I, rotation: 1, x: 2, y: 0 };
    game.handle(Action::HardDrop);
    assert_eq!(game.cell_look(0, 19), Look::Flash);
    // The locked piece shows as stack, not as a falling piece.
    assert_eq!(game.cell_look(4, 18), Look::Block(Kind::I));
}

#[test]
fn a_piece_far_outside_the_well_is_still_reported() {
    let mut game = Game::new();
    // Beyond the right wall nothing fits, so the ghost is the piece itself.
    game.piece = Piece { kind: Kind::O, rotation: 7, x: 5000, y: -3000 };
    let json = state_json(&game);
    assert!(json.contains(
        "\"rotation\":7,\"piece\":[[5001,-3004],[5002,-3004],[5001,-3003],[5002,-3003]],\"ghost\":[[5001,-3004],[5002,-3004],[5001,-3003],[5002,-3003]],"
    ));
    // High above the well it falls all the way to the floor.
    game.piece = Piece { kind: Kind::O, rotation: 0, x: 3, y: -3000 };
    let json = state_json(&game);
    assert!(json.contains("\"ghost\":[[4,18],[5,18],[4,19],[5,19]],"));
}
