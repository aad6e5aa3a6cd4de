# ratatui_tetris

A Tetris game for the terminal whose rules are proved with Verus: the 7-bag
randomiser, SRS rotation with wall kicks, the playfield, gravity, lock delay,
hold, T-spins, scoring, levels, key bindings and the control-socket protocol.

## Layout

| Path | What it holds |
| --- | --- |
| `src/tetromino.rs` | Piece shapes and colours, rotation, SRS kick tables, pieces, the 7-bag |
| `src/board.rs` | The grid: collision, locking, line clears, drop distance and ghost |
| `src/game.rs` | The game as a state machine over `GameView`: actions and ticks |
| `src/game/report.rs` | The JSON state report, what each visible cell shows, banner highlights |
| `src/game_laws.rs` | Properties kept by every action and tick |
| `src/control.rs` | Parsing one control-socket command line |
| `src/input.rs` | Key bindings |
| `src/text.rs` | Digits, thousands grouping, the clock, string comparison |
| `src/layout.rs` | Panel sizes, the smallest usable terminal, centring |
| `app/` | The terminal program: drawing with ratatui, the event loop, the socket |
| `tests/` | Tests of the library |

Time inside the library is counted in nanoseconds (`u64`). The shuffles of
the bag come from `rand`; every operation that may deal a piece is specified
for whichever batch of seven the shuffle produced.

## Running

The terminal needs to be at least 50x24; anything smaller shows a size hint.
`--control <path>` also opens a Unix socket that takes `state`,
`play <action>…`, `pause` and `resume`, and answers with the game's state as
one line of JSON.
