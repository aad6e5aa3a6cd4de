//! Properties that hold across every action and every tick of a game.

use vstd::prelude::*;
use crate::board::{HEIGHT, HIDDEN_ROWS, WIDTH, blocked_at, cleared_cells, drop_distance_of, full_rows_from, locked_cells, piece_fits};
use crate::game::{
    Action, CLEAR_FLASH, GameView, LINES_PER_LEVEL, LOCK_DELAY, MAX_LOCK_RESETS, PhaseView, SpinKind, base_points,
    all_empty, perfect_clear_bonus,
};
use crate::tetromino::{Kind, box_side, kind_index, lemma_shapes_are_well_formed, occupies, shape_cells};

verus! {

/// The piece is in play (falling or paused) and overlaps nothing.
pub open spec fn piece_clear_of_stack(v: GameView) -> bool {
    (v.phase is Falling || v.phase is Paused) ==> v.fits(v.piece)
}

/// Gravity moves only the piece and the timers, and a piece that fits
/// still fits after falling.
proof fn lemma_fall_keeps(v: GameView, interval: u64)
    ensures
        ({
            let w = v.fall(interval);
            &&& w.cells == v.cells
            &&& w.phase == v.phase
            &&& w.score == v.score
            &&& w.lines == v.lines
            &&& w.level == v.level
            &&& w.lock_resets == v.lock_resets
            &&& w.combo == v.combo
            &&& w.stats == v.stats
            &&& w.piece.kind == v.piece.kind
            &&& (v.fits(v.piece) ==> w.fits(w.piece))
        }),
    decreases v.gravity_acc,
{
    if interval == 0 {
        if v.fits(v.piece) {
            crate::board::lemma_fitting_piece_position(v.cells, v.piece);
            crate::board::lemma_ghost_rests_on_the_stack(v.cells, v.piece);
        }
    } else if v.gravity_acc >= interval {
        let u = GameView { gravity_acc: (v.gravity_acc - interval) as u64, ..v };
        if !u.grounded() {
            lemma_fall_keeps(u.stepped_down(), interval);
        }
    }
}

/// Dealing the next piece either ends the game or leaves a piece that fits,
/// with fresh lock resets and hold re-armed.
proof fn lemma_spawn_next_keeps(v: GameView, batch: Seq<Kind>)
    ensures
        ({
            let w = v.spawn_next(batch);
            &&& w.phase is GameOver || (w.phase == v.phase && w.fits(w.piece))
            &&& w.lock_resets == 0
            &&& w.lines == v.lines
            &&& w.level == v.level
            &&& w.score == v.score
            &&& w.cells == v.cells
            &&& !w.hold_used
        }),
{
}

/// Locking a falling piece writes it into the grid and leaves the game
/// over, clearing, or falling with a piece that fits; it keeps the lock
/// reset cap and the level rule.
proof fn lemma_lock_piece_keeps(v: GameView, batch: Seq<Kind>)
    requires
        v.phase is Falling,
    ensures
        ({
            let w = v.lock_piece(batch);
            &&& w.phase is GameOver || w.phase is Clearing || (w.phase is Falling && w.fits(w.piece))
            &&& v.lock_resets <= MAX_LOCK_RESETS ==> w.lock_resets <= MAX_LOCK_RESETS
            &&& v.level == 1 + v.lines / LINES_PER_LEVEL ==> w.level == 1 + w.lines / LINES_PER_LEVEL
            &&& w.cells == locked_cells(v.cells, v.piece)
        }),
{
    let spin = v.detect_spin();
    let cells = locked_cells(v.cells, v.piece);
    let cleared = crate::board::full_rows_from(cells, 0).len() as int;
    let a = GameView { cells, ..v }.award(cleared, spin);
    lemma_spawn_next_keeps(a, batch);
}

/// The piece in play never overlaps the locked stack: whenever the game is
/// falling or paused its piece fits, and every action and every tick keeps
/// it so (a piece that cannot enter ends the game instead).
pub proof fn lemma_piece_never_overlaps(v: GameView, action: Action, dt: u64, batch: Seq<Kind>)
    requires
        piece_clear_of_stack(v),
    ensures
        piece_clear_of_stack(v.handle(action, batch)),
        piece_clear_of_stack(v.update(dt, batch)),
{
    lemma_handle_cases(v, action, batch);
    lemma_update_cases(v, dt, batch);
}

/// Every action keeps the piece clear of the stack.
proof fn lemma_handle_cases(v: GameView, action: Action, batch: Seq<Kind>)
    requires
        piece_clear_of_stack(v),
    ensures
        piece_clear_of_stack(v.handle(action, batch)),
{
    if v.phase is Falling {
        match action {
            Action::HardDrop => {
                let d = drop_distance_of(v.cells, v.piece);
                let u = if d > 0 {
                    GameView { piece: v.piece.shifted(0, d), score: (v.score + 2 * d) as u64, rotated_last: false, ..v }
                } else {
                    v
                };
                lemma_lock_piece_keeps(u, batch);
            },
            Action::Rotate(spin) => {
                let from = v.piece.rotation;
                let to = ((from + crate::tetromino::spin_steps(spin)) % 4) as u8;
                let tests = crate::tetromino::kick_tests(v.piece.kind, from as int, to as int);
                lemma_first_fitting_fits(v.cells, v.piece, to, tests, 0);
            },
            _ => {},
        }
    }
}

/// The first fitting rotation test, when there is one, does fit.
proof fn lemma_first_fitting_fits(
    cells: Seq<Option<Kind>>,
    piece: crate::tetromino::Piece,
    to: u8,
    tests: Seq<(i16, i16)>,
    i: int,
)
    requires
        0 <= i <= tests.len(),
    ensures
        i <= crate::game::first_fitting(cells, piece, to, tests, i) <= tests.len(),
        crate::game::first_fitting(cells, piece, to, tests, i) < tests.len() ==> piece_fits(
            cells,
            crate::game::kicked(piece, to, tests[crate::game::first_fitting(cells, piece, to, tests, i)]),
        ),
    decreases tests.len() - i,
{
    if i < tests.len() && !piece_fits(cells, crate::game::kicked(piece, to, tests[i])) {
        lemma_first_fitting_fits(cells, piece, to, tests, i + 1);
    }
}

/// Every tick keeps the piece clear of the stack.
proof fn lemma_update_cases(v: GameView, dt: u64, batch: Seq<Kind>)
    requires
        piece_clear_of_stack(v),
    ensures
        piece_clear_of_stack(v.update(dt, batch)),
{
    match v.phase {
        PhaseView::Falling => {
            let v0 = GameView { elapsed: (v.elapsed + dt) as u64, gravity_acc: (v.gravity_acc + dt) as u64, ..v };
            lemma_fall_keeps(v0, crate::game::gravity_nanos(v.level as int));
            let v1 = v0.fall(crate::game::gravity_nanos(v.level as int));
            if v1.grounded() {
                let v2 = GameView { lock_acc: (v1.lock_acc + dt) as u64, ..v1 };
                if v2.lock_acc >= crate::game::LOCK_DELAY {
                    lemma_lock_piece_keeps_fit(v2, batch);
                }
            }
        },
        PhaseView::Clearing { rows, timer } => {
            let u = GameView { elapsed: (v.elapsed + dt) as u64, ..v };
            let w = GameView { cells: crate::board::cleared_cells(u.cells), phase: PhaseView::Falling, ..u };
            lemma_spawn_next_keeps(w, batch);
        },
        _ => {},
    }
}

/// After a lock the next piece, if any, is clear of the stack.
proof fn lemma_lock_piece_keeps_fit(v: GameView, batch: Seq<Kind>)
    requires
        v.phase is Falling,
    ensures
        piece_clear_of_stack(v.lock_piece(batch)),
{
    let spin = v.detect_spin();
    let cells = locked_cells(v.cells, v.piece);
    let cleared = crate::board::full_rows_from(cells, 0).len() as int;
    let a = GameView { cells, ..v }.award(cleared, spin);
    lemma_spawn_next_keeps(a, batch);
}

/// A grounded piece may postpone its lock at most `MAX_LOCK_RESETS` times:
/// the reset count never exceeds the cap, whatever is done to the game.
pub proof fn lemma_lock_resets_capped(v: GameView, action: Action, dt: u64, batch: Seq<Kind>)
    requires
        v.lock_resets <= MAX_LOCK_RESETS,
    ensures
        v.handle(action, batch).lock_resets <= MAX_LOCK_RESETS,
        v.update(dt, batch).lock_resets <= MAX_LOCK_RESETS,
{
    if v.phase is Falling {
        match action {
            Action::HardDrop => {
                let d = drop_distance_of(v.cells, v.piece);
                let u = if d > 0 {
                    GameView { piece: v.piece.shifted(0, d), score: (v.score + 2 * d) as u64, rotated_last: false, ..v }
                } else {
                    v
                };
                lemma_lock_piece_keeps(u, batch);
            },
            _ => {},
        }
        let v0 = GameView { elapsed: (v.elapsed + dt) as u64, gravity_acc: (v.gravity_acc + dt) as u64, ..v };
        lemma_fall_keeps(v0, crate::game::gravity_nanos(v.level as int));
        let v1 = v0.fall(crate::game::gravity_nanos(v.level as int));
        let v2 = GameView { lock_acc: (v1.lock_acc + dt) as u64, ..v1 };
        lemma_lock_piece_keeps(v2, batch);
    }
    if let PhaseView::Clearing { rows, timer } = v.phase {
        let u = GameView { elapsed: (v.elapsed + dt) as u64, ..v };
        let w = GameView { cells: crate::board::cleared_cells(u.cells), phase: PhaseView::Falling, ..u };
        lemma_spawn_next_keeps(w, batch);
    }
}

/// A grounded piece cannot stall forever: once its lock resets are spent,
/// moving, soft-dropping or rotating it no longer restarts the lock timer,
/// and a tick that brings a grounded piece's timer to the lock delay locks
/// the piece where it lies.
pub proof fn lemma_spent_resets_cannot_stall(v: GameView, action: Action, dt: u64, batch: Seq<Kind>)
    requires
        v.phase is Falling,
    ensures
        v.lock_resets >= MAX_LOCK_RESETS && (action is MoveLeft || action is MoveRight || action is SoftDrop
            || action is Rotate) ==> v.handle(action, batch).lock_acc == v.lock_acc && v.handle(
            action,
            batch,
        ).lock_resets == v.lock_resets,
        v.grounded() && v.lock_acc + dt >= LOCK_DELAY && v.lock_acc + dt <= u64::MAX && v.elapsed + dt <= u64::MAX
            && v.gravity_acc + dt <= u64::MAX ==> v.update(dt, batch).cells == locked_cells(v.cells, v.piece),
{
    if v.grounded() && v.lock_acc + dt >= LOCK_DELAY && v.lock_acc + dt <= u64::MAX && v.elapsed + dt <= u64::MAX
        && v.gravity_acc + dt <= u64::MAX {
        let v0 = GameView { elapsed: (v.elapsed + dt) as u64, gravity_acc: (v.gravity_acc + dt) as u64, ..v };
        let interval = crate::game::gravity_nanos(v.level as int);
        let v1 = v0.fall(interval);
        assert(v1.piece == v.piece && v1.cells == v.cells && v1.lock_acc == v.lock_acc && v1.phase == v.phase);
        let v2 = GameView { lock_acc: (v1.lock_acc + dt) as u64, ..v1 };
        lemma_lock_piece_keeps(v2, batch);
    }
}

/// Locking a piece counts the rows it completes: the lines grow by that
/// number and the level keeps following them; completed rows flash, top to
/// bottom, for the clear delay; and a piece that completes nothing while
/// lying entirely above the visible playfield ends the game.
pub proof fn lemma_lock_counts_lines(v: GameView, batch: Seq<Kind>)
    requires
        v.phase is Falling,
        v.level == 1 + v.lines / LINES_PER_LEVEL,
        v.lines + HEIGHT <= u32::MAX,
    ensures
        ({
            let rows = full_rows_from(locked_cells(v.cells, v.piece), 0);
            let w = v.lock_piece(batch);
            &&& w.lines == v.lines + rows.len()
            &&& w.level == 1 + w.lines / LINES_PER_LEVEL
            &&& rows.len() > 0 ==> w.phase == PhaseView::Clearing {
                rows: rows.map_values(|r: int| r as i16),
                timer: CLEAR_FLASH,
            }
            &&& rows.len() == 0 && v.locked_out() ==> w.phase is GameOver
        }),
{
    let cells = locked_cells(v.cells, v.piece);
    crate::board::lemma_kept_and_full_partition(cells, 0);
    let spin = v.detect_spin();
    let cleared = full_rows_from(cells, 0).len() as int;
    let a = GameView { cells, ..v }.award(cleared, spin);
    lemma_spawn_next_keeps(a, batch);
}

/// The level is always one more than a tenth of the lines cleared: every
/// action and tick keeps `level == 1 + lines / 10`.
pub proof fn lemma_level_follows_lines(v: GameView, action: Action, dt: u64, batch: Seq<Kind>)
    requires
        v.level == 1 + v.lines / LINES_PER_LEVEL,
    ensures
        v.handle(action, batch).level == 1 + v.handle(action, batch).lines / LINES_PER_LEVEL,
        v.update(dt, batch).level == 1 + v.update(dt, batch).lines / LINES_PER_LEVEL,
{
    if v.phase is Falling {
        match action {
            Action::HardDrop => {
                let d = drop_distance_of(v.cells, v.piece);
                let u = if d > 0 {
                    GameView { piece: v.piece.shifted(0, d), score: (v.score + 2 * d) as u64, rotated_last: false, ..v }
                } else {
                    v
                };
                lemma_lock_piece_keeps(u, batch);
            },
            _ => {},
        }
        let v0 = GameView { elapsed: (v.elapsed + dt) as u64, gravity_acc: (v.gravity_acc + dt) as u64, ..v };
        lemma_fall_keeps(v0, crate::game::gravity_nanos(v.level as int));
        let v1 = v0.fall(crate::game::gravity_nanos(v.level as int));
        let v2 = GameView { lock_acc: (v1.lock_acc + dt) as u64, ..v1 };
        lemma_lock_piece_keeps(v2, batch);
    }
}

/// While paused, time does not pass for the game and every input but the
/// pause toggle is ignored; toggling twice gives back the same game.
pub proof fn lemma_pause_freezes(v: GameView, action: Action, dt: u64, batch: Seq<Kind>)
    requires
        v.phase is Paused,
    ensures
        v.update(dt, batch) == v,
        action != Action::TogglePause ==> v.handle(action, batch) == v,
        v.handle(Action::TogglePause, batch).phase is Falling,
        v.handle(Action::TogglePause, batch).handle(Action::TogglePause, batch) == v,
{
}

/// A game that is over stays over, unchanged: no action, tick or pause
/// request touches it (only a restart starts a new one).
pub proof fn lemma_game_over_is_final(v: GameView, action: Action, dt: u64, batch: Seq<Kind>, paused: bool)
    requires
        v.phase is GameOver,
    ensures
        v.handle(action, batch) == v,
        v.update(dt, batch) == v,
        v.with_paused(paused) == v,
{
}

/// Pausing a falling game and resuming it gives back the same game.
pub proof fn lemma_pause_resume(v: GameView, batch: Seq<Kind>)
    requires
        v.phase is Falling,
    ensures
        v.handle(Action::TogglePause, batch).phase is Paused,
        v.handle(Action::TogglePause, batch).handle(Action::TogglePause, batch) == v,
{
}

/// Setting the paused flag explicitly does what it says to a game in play,
/// leaves a game that is clearing or over as it is, and setting it again
/// changes nothing.
pub proof fn lemma_paused_flag_is_explicit(v: GameView, paused: bool)
    ensures
        (v.phase is Falling || v.phase is Paused) ==> (v.with_paused(paused).phase is Paused) == paused,
        !(v.phase is Falling || v.phase is Paused) ==> v.with_paused(paused) == v,
        v.with_paused(paused).with_paused(paused) == v.with_paused(paused),
{
}

/// Hold may be used once per piece: after a hold the next hold does
/// nothing, and dealing the next piece makes hold available again.
pub proof fn lemma_hold_once_per_piece(v: GameView, b1: Seq<Kind>, b2: Seq<Kind>)
    ensures
        v.swap_hold(b1).hold_used,
        v.hold_used ==> v.swap_hold(b1) == v,
        v.swap_hold(b1).swap_hold(b2) == v.swap_hold(b1),
        !v.spawn_next(b1).hold_used,
        !v.hold_used ==> v.swap_hold(b1).hold == Some(v.piece.kind),
{
}

/// Only a T piece whose last successful action was a rotation can earn a
/// spin bonus, however snugly it fits.
pub proof fn lemma_t_spin_needs_a_rotation(v: GameView)
    requires
        v.piece.kind != Kind::T || !v.rotated_last,
    ensures
        v.detect_spin() == SpinKind::NoSpin,
{
}

/// Points never go negative and never exceed the headroom a game keeps.
proof fn lemma_award_points_bounds(v: GameView, cleared: int, spin: SpinKind)
    requires
        cleared >= 0,
    ensures
        0 <= v.award_points(cleared, spin),
        v.award_points(cleared, spin) <= (4400 + 50 * (if v.combo + 1 > 0 { v.combo + 1 } else { 0 })) * v.level,
{
    let level = v.level as int;
    let base = base_points(spin, cleared);
    let cn: int = if v.combo + 1 > 0 { v.combo + 1 } else { 0 };
    assert(0 <= base * level <= 1600 * level) by (nonlinear_arith)
        requires
            0 <= base <= 1600,
            level >= 0,
    ;
    assert(0 <= 50 * cn * level) by (nonlinear_arith)
        requires
            cn >= 0,
            level >= 0,
    ;
    assert(0 <= perfect_clear_bonus(cleared) * level <= 2000 * level) by (nonlinear_arith)
        requires
            0 <= perfect_clear_bonus(cleared) <= 2000,
            level >= 0,
    ;
    assert((4400 + 50 * cn) * level == 2400 * level + 50 * cn * level + 2000 * level) by (nonlinear_arith);
}

/// The score never goes down: every action and every tick adds a
/// non-negative number of points.
pub proof fn lemma_score_never_decreases(v: GameView, action: Action, dt: u64, batch: Seq<Kind>)
    requires
        v.headroom(),
    ensures
        v.handle(action, batch).score >= v.score,
        v.update(dt, batch).score >= v.score,
{
    let d = drop_distance_of(v.cells, v.piece);
    crate::board::lemma_drop_from_bounds(v.cells, v.piece.kind, v.piece.rotation, v.piece.x as int, v.piece.y as int, 0);
    assert(d <= 1024);
    let u = if d > 0 {
        GameView { piece: v.piece.shifted(0, d), score: (v.score + 2 * d) as u64, rotated_last: false, ..v }
    } else {
        v
    };
    assert(u.score >= v.score);
    assert(u.counters_have_room(0));
    lemma_lock_score(u, batch);
    let v0 = GameView { elapsed: (v.elapsed + dt) as u64, gravity_acc: (v.gravity_acc + dt) as u64, ..v };
    lemma_fall_keeps(v0, crate::game::gravity_nanos(v.level as int));
    let v1 = v0.fall(crate::game::gravity_nanos(v.level as int));
    let v2 = GameView { lock_acc: (v1.lock_acc + dt) as u64, ..v1 };
    assert(v2.counters_have_room(0));
    lemma_lock_score(v2, batch);
}

/// Locking never takes points away.
proof fn lemma_lock_score(v: GameView, batch: Seq<Kind>)
    requires
        v.counters_have_room(0),
    ensures
        v.lock_piece(batch).score >= v.score,
{
    let spin = v.detect_spin();
    let cells = locked_cells(v.cells, v.piece);
    let cleared = crate::board::full_rows_from(cells, 0).len() as int;
    let w = GameView { cells, ..v };
    lemma_award_points_bounds(w, cleared, spin);
    let a = w.award(cleared, spin);
    lemma_spawn_next_keeps(a, batch);
}

/// A hard drop locks the piece exactly where its ghost shows.
pub proof fn lemma_hard_drop_lands_on_ghost(v: GameView, batch: Seq<Kind>)
    requires
        v.phase is Falling,
    ensures
        v.hard_drop(batch).cells == locked_cells(
            v.cells,
            v.piece.shifted(0, drop_distance_of(v.cells, v.piece)),
        ),
{
    let d = drop_distance_of(v.cells, v.piece);
    let u = if d > 0 {
        GameView { piece: v.piece.shifted(0, d), score: (v.score + 2 * d) as u64, rotated_last: false, ..v }
    } else {
        v
    };
    crate::board::lemma_drop_from_bounds(v.cells, v.piece.kind, v.piece.rotation, v.piece.x as int, v.piece.y as int, 0);
    assert(v.piece.shifted(0, 0) == v.piece);
    assert(u.piece == v.piece.shifted(0, d));
    lemma_lock_piece_keeps(u, batch);
}

/// Points a placement clearing `cleared` rows (0..=4) earns per level
/// before any bonus: singles to tetrises 100/300/500/800; T-spin minis
/// 100/200/400 and T-spins 400/800/1200/1600 for no line up to three lines;
/// nothing for a plain placement that clears no line.
pub open spec fn clear_base(cleared: int, spin: SpinKind) -> int {
    if spin is Full {
        if cleared == 0 {
            400
        } else if cleared == 1 {
            800
        } else if cleared == 2 {
            1200
        } else {
            1600
        }
    } else if spin is Mini {
        if cleared == 0 {
            100
        } else if cleared == 1 {
            200
        } else {
            400
        }
    } else if cleared == 0 {
        0
    } else if cleared == 1 {
        100
    } else if cleared == 2 {
        300
    } else if cleared == 3 {
        500
    } else {
        800
    }
}

/// Per-level bonus for wiping the board with `cleared` rows.
pub open spec fn wipe_bonus(cleared: int) -> int {
    if cleared == 1 {
        800
    } else if cleared == 2 {
        1200
    } else if cleared == 3 {
        1800
    } else {
        2000
    }
}

/// How a placement is scored. Difficult clears (tetrises, and T-spins or
/// minis that clear rows) chain: every clear sets the back-to-back flag
/// exactly when it is difficult, and a difficult clear while the flag is set
/// is announced as back-to-back and pays half as much again. Every clear
/// extends the combo, worth 50 per step beyond the first per level; a
/// placement that clears nothing breaks the combo and leaves the flag. A
/// clear that leaves the board empty adds the perfect-clear bonus and is
/// announced as such. A plain placement that clears nothing announces
/// nothing.
pub proof fn lemma_scoring(v: GameView, cleared: int, spin: SpinKind)
    requires
        0 <= cleared <= 4,
        v.combo < i32::MAX,
        v.score + 4400 * v.level + 50 * (if v.combo + 1 > 0 { v.combo + 1 } else { 0 }) * v.level <= u64::MAX,
    ensures
        ({
            let w = v.award(cleared, spin);
            let difficult = cleared >= 1 && (cleared == 4 || spin is Mini || spin is Full);
            let chained = difficult && v.back_to_back;
            let plain = clear_base(cleared, spin) * v.level;
            let streak = if cleared >= 1 && v.combo + 1 > 0 { v.combo + 1 } else { 0 };
            let wiped = cleared >= 1 && full_rows_from(v.cells, 0).len() == cleared && all_empty(cleared_cells(v.cells));
            let combo_bonus = if streak > 0 { 50 * streak * v.level } else { 0 };
            let points = (if chained { plain * 3 / 2 } else { plain }) + combo_bonus + (if wiped {
                wipe_bonus(cleared) * v.level
            } else {
                0
            });
            &&& w.score == v.score + points
            &&& w.back_to_back == if cleared >= 1 { difficult } else { v.back_to_back }
            &&& w.combo == if cleared >= 1 { v.combo + 1 } else { -1 }
            &&& (cleared >= 1 || spin != SpinKind::NoSpin) ==> (w.last_event matches Some(e) && e.back_to_back == chained
                && e.combo == streak && e.points == points && (wiped ==> e.headline == "PERFECT CLEAR"@))
            &&& (cleared == 0 && spin == SpinKind::NoSpin) ==> w.last_event == v.last_event
            &&& w.cells == v.cells && w.piece == v.piece && w.lines == v.lines && w.level == v.level
        }),
{
    let cn: int = if v.combo + 1 > 0 { v.combo + 1 } else { 0 };
    assert(0 <= clear_base(cleared, spin) * v.level <= 1600 * v.level) by (nonlinear_arith)
        requires
            0 <= clear_base(cleared, spin) <= 1600,
            v.level >= 0,
    ;
    assert(0 <= wipe_bonus(cleared) * v.level <= 2000 * v.level) by (nonlinear_arith)
        requires
            0 <= wipe_bonus(cleared) <= 2000,
            v.level >= 0,
    ;
    assert(0 <= 50 * cn * v.level) by (nonlinear_arith)
        requires
            cn >= 0,
            v.level >= 0,
    ;
    assert(clear_base(cleared, spin) == base_points(spin, cleared));
    let difficult = cleared >= 1 && (cleared == 4 || spin is Mini || spin is Full);
    let chained = difficult && v.back_to_back;
    let plain = clear_base(cleared, spin) * v.level;
    let streak = if cleared >= 1 && v.combo + 1 > 0 { v.combo + 1 } else { 0 };
    let wiped = cleared >= 1 && full_rows_from(v.cells, 0).len() == cleared && all_empty(cleared_cells(v.cells));
    let p1 = if chained { plain * 3 / 2 } else { plain };
    let bonus = if wiped { wipe_bonus(cleared) * v.level } else { 0 };
    let combo_bonus = if streak > 0 { 50 * streak * v.level } else { 0 };
    assert(wipe_bonus(cleared) == perfect_clear_bonus(cleared));
    assert(v.award_points(cleared, spin) == p1 + combo_bonus + bonus);
    assert(p1 <= 2400 * v.level);
    assert(combo_bonus <= 50 * cn * v.level);
}

/// One of the four diagonal corners `(cx, cy)` (each 0 or 2) around a T's
/// centre is blocked.
pub open spec fn corner_blocked(v: GameView, cx: int, cy: int) -> bool {
    blocked_at(v.cells, v.piece.x + cx, v.piece.y + cy)
}

/// A corner lies in front of the T: both box cells next to it belong to the
/// T, so the T's stem points between it and the other front corner.
pub open spec fn front_corner(v: GameView, cx: int, cy: int) -> bool {
    let cells = shape_cells(Kind::T, (v.piece.rotation % 4) as int);
    occupies(cells, 1, cy) && occupies(cells, cx, 1)
}

/// How many of the four corners around the T's centre are blocked.
pub open spec fn corners_blocked(v: GameView) -> int {
    (if corner_blocked(v, 0, 0) { 1int } else { 0 }) + (if corner_blocked(v, 2, 0) { 1int } else { 0 }) + (
    if corner_blocked(v, 0, 2) {
        1int
    } else {
        0
    }) + (if corner_blocked(v, 2, 2) { 1int } else { 0 })
}

/// The three-corner rule: a rotated T with fewer than three blocked corners
/// earns no spin; with three or more it is a full T-spin when both corners
/// in front of it (on the side its stem points to) are blocked or the
/// rotation needed the last kick, and a mini otherwise.
pub proof fn lemma_three_corner_rule(v: GameView)
    requires
        v.piece.kind == Kind::T,
        v.rotated_last,
    ensures
        corners_blocked(v) < 3 ==> v.detect_spin() == SpinKind::NoSpin,
        corners_blocked(v) >= 3 ==> (v.detect_spin() == SpinKind::Full <==> ((forall|cx: int, cy: int|
            (cx == 0 || cx == 2) && (cy == 0 || cy == 2) && #[trigger] front_corner(v, cx, cy) ==> corner_blocked(
                v,
                cx,
                cy,
            )) || v.last_kick_was_final)),
        corners_blocked(v) >= 3 ==> v.detect_spin() != SpinKind::NoSpin,
{
    let r = (v.piece.rotation % 4) as int;
    assert(front_corner(v, 0, 0) == (r == 0 || r == 3));
    assert(front_corner(v, 2, 0) == (r == 0 || r == 1));
    assert(front_corner(v, 0, 2) == (r == 2 || r == 3));
    assert(front_corner(v, 2, 2) == (r == 1 || r == 2));
}

/// Hold stashes the piece in play and brings out the held kind, or, with
/// nothing held yet, the next kind the bag deals; either way the new piece
/// spawns fresh and hold is spent until the next piece.
pub proof fn lemma_hold_swaps_in_the_held_or_next_kind(v: GameView, batch: Seq<Kind>)
    requires
        !v.hold_used,
        v.upcoming.len() > 0,
        v.stats.len() == 7,
    ensures
        ({
            let w = v.swap_hold(batch);
            &&& w.hold == Some(v.piece.kind)
            &&& w.hold_used
            &&& w.piece.rotation == 0 && w.piece.y == HIDDEN_ROWS - 1
            &&& v.hold is None ==> w.piece.kind == v.upcoming[0] && w.dealt == v.dealt.push(v.upcoming[0])
                && w.upcoming.take(v.upcoming.len() - 1) == v.upcoming.drop_first()
            &&& v.hold matches Some(k) ==> w.piece.kind == k && w.dealt == v.dealt && w.upcoming == v.upcoming
            &&& w.piece.x == (WIDTH - box_side(w.piece.kind)) / 2
            &&& w.cells == v.cells && w.score == v.score
            &&& w.stats.len() == v.stats.len() && (forall|i: int|
                0 <= i < v.stats.len() ==> #[trigger] w.stats[i] == if i == kind_index(w.piece.kind) {
                    (v.stats[i] + 1) as u32
                } else {
                    v.stats[i]
                })
            &&& w.lock_resets == 0 && w.lock_acc == 0 && w.gravity_acc == 0 && !w.rotated_last
            &&& if piece_fits(v.cells, w.piece) { w.phase == v.phase } else { w.phase is GameOver }
        }),
{
    if v.hold is None {
        let w = v.swap_hold(batch);
        if v.upcoming.len() <= 7 {
            assert(w.upcoming.take(v.upcoming.len() - 1) =~= v.upcoming.drop_first());
        }
    }
}

} // verus!
