use ratatui_tetris::game::Action;
use ratatui_tetris::input::{Command, Key, KeyCode, to_command};
use ratatui_tetris::tetromino::Spin;

fn press(code: KeyCode) -> Key {
    Key { code, ctrl: false, release: false }
}

#[test]
fn arrows_and_vim_keys_agree() {
    for (arrow, vim, expected) in [
        (KeyCode::Left, KeyCode::Char('h'), Action::MoveLeft),
        (KeyCode::Right, KeyCode::Char('l'), Action::MoveRight),
        (KeyCode::Down, KeyCode::Char('j'), Action::SoftDrop),
    ] {
        for code in [arrow, vim] {
            match to_command(press(code)) {
                Some(Command::Play(action)) => assert_eq!(action, expected),
                _ => panic!("{code:?} should map to {expected:?}"),
            }
        }
    }
}

#[test]
fn rotation_keys_map_to_the_right_direction() {
    assert!(matches!(to_command(press(KeyCode::Char('x'))), Some(Command::Play(Action::Rotate(Spin::Cw)))));
    assert!(matches!(to_command(press(KeyCode::Char('z'))), Some(Command::Play(Action::Rotate(Spin::Ccw)))));
    assert!(matches!(to_command(press(KeyCode::Char('a'))), Some(Command::Play(Action::Rotate(Spin::Flip)))));
}

#[test]
fn quit_and_restart_are_recognised() {
    assert!(matches!(to_command(press(KeyCode::Char('q'))), Some(Command::Quit)));
    assert!(matches!(to_command(press(KeyCode::Char('r'))), Some(Command::Restart)));
    assert!(matches!(
        to_command(Key { code: KeyCode::Char('c'), ctrl: true, release: false }),
        Some(Command::Quit)
    ));
}

#[test]
fn ctrl_c_beats_the_plain_hold_binding() {
    // Plain `c` holds, but Ctrl-C must always quit.
    assert!(matches!(to_command(press(KeyCode::Char('c'))), Some(Command::Play(Action::Hold))));
    assert!(matches!(
        to_command(Key { code: KeyCode::Char('c'), ctrl: true, release: false }),
        Some(Command::Quit)
    ));
}

#[test]
fn key_releases_are_ignored() {
    let mut key = press(KeyCode::Left);
    key.release = true;
    assert!(to_command(key).is_none());
}

#[test]
fn unbound_keys_do_nothing() {
    assert!(to_command(press(KeyCode::Char('!'))).is_none());
    assert!(to_command(press(KeyCode::Other)).is_none());
}

#[test]
fn the_remaining_bindings() {
    assert_eq!(to_command(press(KeyCode::Char(' '))), Some(Command::Play(Action::HardDrop)));
    assert_eq!(to_command(press(KeyCode::Up)), Some(Command::Play(Action::Rotate(Spin::Cw))));
    assert_eq!(to_command(press(KeyCode::Char('k'))), Some(Command::Play(Action::Rotate(Spin::Cw))));
    assert_eq!(to_command(press(KeyCode::Tab)), Some(Command::Play(Action::Hold)));
    assert_eq!(to_command(press(KeyCode::Esc)), Some(Command::Play(Action::TogglePause)));
    assert_eq!(to_command(press(KeyCode::Char('p'))), Some(Command::Play(Action::TogglePause)));
    // Control with anything but `c` is unbound.
    assert_eq!(to_command(Key { code: KeyCode::Char('q'), ctrl: true, release: false }), None);
}
