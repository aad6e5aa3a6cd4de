//! Key bindings: which key press means which command.

use vstd::prelude::*;
use crate::game::Action;
use crate::tetromino::Spin;

verus! {

/// The keys the game tells apart.
#[derive(Debug, Clone, Copy, PartialEq, Eq, Structural)]
pub enum KeyCode {
    Left,
    Right,
    Up,
    Down,
    Tab,
    Esc,
    Char(char),
    /// Any other key.
    Other,
}

/// A key event: the key, whether Control was held, and whether this is a
/// release (terminals with the kitty protocol report releases too).
#[derive(Debug, Clone, Copy, PartialEq, Eq, Structural)]
pub struct Key {
    pub code: KeyCode,
    pub ctrl: bool,
    pub release: bool,
}

/// Everything a key press can mean.
#[derive(Debug, Clone, Copy, PartialEq, Eq, Structural)]
pub enum Command {
    Play(Action),
    Restart,
    Quit,
}

/// The command bound to a key: releases mean nothing; with Control only
/// `c` (quit) is bound; arrows and vim keys move, `space` drops, `up`/`x`/`k`
/// spin clockwise, `z` counter-clockwise, `a` half a turn, `c`/`tab` hold,
/// `p`/`esc` pause, `r` restarts and `q` quits.
pub open spec fn command_for(key: Key) -> Option<Command> {
    if key.release {
        None
    } else if key.ctrl {
        if key.code == KeyCode::Char('c') {
            Some(Command::Quit)
        } else {
            None
        }
    } else {
        match key.code {
            KeyCode::Left => Some(Command::Play(Action::MoveLeft)),
            KeyCode::Right => Some(Command::Play(Action::MoveRight)),
            KeyCode::Down => Some(Command::Play(Action::SoftDrop)),
            KeyCode::Up => Some(Command::Play(Action::Rotate(Spin::Cw))),
            KeyCode::Tab => Some(Command::Play(Action::Hold)),
            KeyCode::Esc => Some(Command::Play(Action::TogglePause)),
            KeyCode::Other => None,
            KeyCode::Char(c) => if c == 'h' {
                Some(Command::Play(Action::MoveLeft))
            } else if c == 'l' {
                Some(Command::Play(Action::MoveRight))
            } else if c == 'j' {
                Some(Command::Play(Action::SoftDrop))
            } else if c == ' ' {
                Some(Command::Play(Action::HardDrop))
            } else if c == 'x' || c == 'k' {
                Some(Command::Play(Action::Rotate(Spin::Cw)))
            } else if c == 'z' {
                Some(Command::Play(Action::Rotate(Spin::Ccw)))
            } else if c == 'a' {
                Some(Command::Play(Action::Rotate(Spin::Flip)))
            } else if c == 'c' {
                Some(Command::Play(Action::Hold))
            } else if c == 'p' {
                Some(Command::Play(Action::TogglePause))
            } else if c == 'r' {
                Some(Command::Restart)
            } else if c == 'q' {
                Some(Command::Quit)
            } else {
                None
            },
        }
    }
}

/// What a key press means, if anything.
pub fn to_command(key: Key) -> (command: Option<Command>)
    ensures
        command == command_for(key),
{
    // Only presses and repeats drive the game.
    if key.release {
        return None;
    }
    if key.ctrl {
        return match key.code {
            KeyCode::Char('c') => Some(Command::Quit),
            _ => None,
        };
    }
    let command = match key.code {
        KeyCode::Left | KeyCode::Char('h') => Command::Play(Action::MoveLeft),
        KeyCode::Right | KeyCode::Char('l') => Command::Play(Action::MoveRight),
        KeyCode::Down | KeyCode::Char('j') => Command::Play(Action::SoftDrop),
        KeyCode::Char(' ') => Command::Play(Action::HardDrop),
        KeyCode::Up | KeyCode::Char('x') | KeyCode::Char('k') => Command::Play(Action::Rotate(Spin::Cw)),
        KeyCode::Char('z') => Command::Play(Action::Rotate(Spin::Ccw)),
        KeyCode::Char('a') => Command::Play(Action::Rotate(Spin::Flip)),
        KeyCode::Char('c') | KeyCode::Tab => Command::Play(Action::Hold),
        KeyCode::Char('p') | KeyCode::Esc => Command::Play(Action::TogglePause),
        KeyCode::Char('r') => Command::Restart,
        KeyCode::Char('q') => Command::Quit,
        _ => return None,
    };
    Some(command)
}

/// Arrows and their vim counterparts agree, and Control-C always quits
/// while a plain `c` holds.
pub proof fn lemma_bindings_agree()
    ensures
        command_for(Key { code: KeyCode::Left, ctrl: false, release: false }) == command_for(
            Key { code: KeyCode::Char('h'), ctrl: false, release: false },
        ),
        command_for(Key { code: KeyCode::Right, ctrl: false, release: false }) == command_for(
            Key { code: KeyCode::Char('l'), ctrl: false, release: false },
        ),
        command_for(Key { code: KeyCode::Down, ctrl: false, release: false }) == command_for(
            Key { code: KeyCode::Char('j'), ctrl: false, release: false },
        ),
        command_for(Key { code: KeyCode::Char('c'), ctrl: true, release: false }) == Some(Command::Quit),
        command_for(Key { code: KeyCode::Char('c'), ctrl: false, release: false }) == Some(
            Command::Play(Action::Hold),
        ),
{
}

/// A key release never means anything.
pub proof fn lemma_releases_are_ignored(key: Key)
    requires
        key.release,
    ensures
        command_for(key) is None,
{
}

} // verus!
