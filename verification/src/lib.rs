//! Tetris rules for the terminal: piece shapes and SRS kicks, the playfield,
//! the game state machine (gravity, lock delay, hold, scoring, T-spins),
//! the text control protocol and the small formatting helpers of the HUD.

pub mod tetromino;
pub mod board;
pub mod game;
pub mod game_laws;
pub mod control;
pub mod text;
pub mod layout;
pub mod input;
