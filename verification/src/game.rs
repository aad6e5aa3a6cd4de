//! Game rules: gravity, locking, hold, scoring, levels and T-spin detection.
//!
//! Time is counted in nanoseconds (`u64`). Every operation is specified as a
//! transition of `GameView`, the plain-value picture of a game; where a piece
//! is dealt from the bag, the transition is given for the batch the bag
//! shuffles in, whichever it turns out to be.

pub mod report;

use vstd::prelude::*;
use crate::board::{
    Board, HEIGHT, HIDDEN_ROWS, WIDTH, blocked_at, grid_len, cleared_cells, drop_distance_of, full_rows_from,
    locked_cells, piece_fits,
};
use crate::tetromino::{
    Bag, Kind, Piece, Spin, all_kinds, box_side, half_toward_zero, is_batch, kick_tests, kicks, kind_index,
    spin_steps,
};

verus! {

/// How long a grounded piece may be nudged around before it locks.
pub const LOCK_DELAY: u64 = 500_000_000;

/// Move/rotate this many times while grounded and the piece locks regardless.
pub const MAX_LOCK_RESETS: u32 = 15;

/// How long full rows stay lit up before they collapse.
pub const CLEAR_FLASH: u64 = 160_000_000;

/// A soft drop falls this many times faster than normal gravity.
pub const SOFT_DROP_FACTOR: u64 = 20;

pub const LINES_PER_LEVEL: u32 = 10;

/// How many upcoming pieces the player can see.
pub const PREVIEW_COUNT: usize = 1;

/// Nanoseconds a piece takes to fall one row at `level`: the guideline curve
/// `(0.8 - 0.007 (level - 1))^(level - 1)` seconds, to the nearest
/// nanosecond. From level 37 on the curve is below half a nanosecond, so
/// every row is due at once; from level 116 on the base of the curve is no
/// longer positive and it gives no time at all, and the interval stays zero.
pub open spec fn gravity_nanos(level: int) -> u64 {
    if level <= 0 {
        1_239_157_373
    } else if level == 1 {
        1_000_000_000
    } else if level == 2 {
        793_000_000
    } else if level == 3 {
        617_796_000
    } else if level == 4 {
        472_729_139
    } else if level == 5 {
        355_196_928
    } else if level == 6 {
        262_003_550
    } else if level == 7 {
        189_677_245
    } else if level == 8 {
        134_734_731
    } else if level == 9 {
        93_882_249
    } else if level == 10 {
        64_151_585
    } else if level == 11 {
        42_976_258
    } else if level == 12 {
        28_217_678
    } else if level == 13 {
        18_153_329
    } else if level == 14 {
        11_439_342
    } else if level == 15 {
        7_058_616
    } else if level == 16 {
        4_263_557
    } else if level == 17 {
        2_520_084
    } else if level == 18 {
        1_457_139
    } else if level == 19 {
        823_907
    } else if level == 20 {
        455_398
    } else if level == 21 {
        245_968
    } else if level == 22 {
        129_771
    } else if level == 23 {
        66_852
    } else if level == 24 {
        33_614
    } else if level == 25 {
        16_490
    } else if level == 26 {
        7_889
    } else if level == 27 {
        3_679
    } else if level == 28 {
        1_672
    } else if level == 29 {
        740
    } else if level == 30 {
        319
    } else if level == 31 {
        134
    } else if level == 32 {
        54
    } else if level == 33 {
        22
    } else if level == 34 {
        8
    } else if level == 35 {
        3
    } else if level == 36 {
        1
    } else {
        0
    }
}

/// Higher levels never fall slower, and up to level 37 every level falls
/// strictly faster than the one before.
pub proof fn lemma_gravity_speeds_up(a: int, b: int)
    requires
        a <= b,
    ensures
        gravity_nanos(b) <= gravity_nanos(a),
        0 <= a < b <= 37 ==> gravity_nanos(b) < gravity_nanos(a),
{
}

/// `a - b`, or zero when `b` is larger.
pub open spec fn saturating_sub(a: u64, b: u64) -> u64 {
    if a >= b {
        (a - b) as u64
    } else {
        0
    }
}

/// Where a piece of `kind` enters the well.
pub open spec fn spawn_piece(kind: Kind) -> Piece {
    Piece { kind, rotation: 0, x: half_toward_zero(WIDTH - box_side(kind)) as i16, y: (HIDDEN_ROWS - 1) as i16 }
}

/// The piece's box lies well inside the range where moving, kicking,
/// rotating and dropping it cannot overflow its coordinates.
pub open spec fn piece_in_range(piece: Piece) -> bool {
    -1000 <= piece.x <= 1000 && -1000 <= piece.y <= 1000 && piece.rotation <= 252
}

/// The piece's box is far enough from the top of the `i16` range for its
/// cells, and the row below it, to be representable.
pub open spec fn piece_below_limit(piece: Piece) -> bool {
    -30000 <= piece.x <= 30000 && piece.y <= 30000
}

/// The piece's cells, the row below it and the drop to where it lands can
/// all be computed in `i16`.
pub open spec fn piece_droppable(piece: Piece) -> bool {
    &&& piece.shifted(0, 1).cells_in_range()
    &&& piece.y + 1 <= i16::MAX
    &&& piece.y >= HEIGHT - i16::MAX
}

/// A droppable piece has representable cells, and so does its ghost.
pub proof fn lemma_droppable_cells(cells: Seq<Option<Kind>>, piece: Piece)
    requires
        piece_droppable(piece),
    ensures
        piece.cells_in_range(),
        piece.shifted(0, drop_distance_of(cells, piece)).cells_in_range(),
{
    crate::tetromino::lemma_shapes_are_well_formed(piece.kind, (piece.rotation % 4) as int);
    assert forall|i: int| 0 <= i < 4 implies #[trigger] piece.cell_x(i) <= i16::MAX && piece.cell_y(i) <= i16::MAX by {
        assert(piece.shifted(0, 1).cell_x(i) <= i16::MAX && piece.shifted(0, 1).cell_y(i) <= i16::MAX);
    }
    crate::board::lemma_ghost_rests_on_the_stack(cells, piece);
    let g = piece.shifted(0, drop_distance_of(cells, piece));
    assert forall|i: int| 0 <= i < 4 implies #[trigger] g.cell_x(i) <= i16::MAX && g.cell_y(i) <= i16::MAX by {
        assert(piece.cell_x(i) <= i16::MAX && piece.cell_y(i) <= i16::MAX);
        assert(0 <= crate::tetromino::shape_cells(piece.kind, (piece.rotation % 4) as int)[i].1 < 4);
    }
}

#[derive(Debug, PartialEq, Eq)]
pub enum Phase {
    Falling,
    /// Full rows are lit up and about to collapse; `timer` counts down in nanoseconds.
    Clearing { rows: Vec<i16>, timer: u64 },
    Paused,
    GameOver,
}

/// What the player asked the game to do.
#[derive(Debug, Clone, Copy, PartialEq, Eq, Structural)]
pub enum Action {
    MoveLeft,
    MoveRight,
    SoftDrop,
    HardDrop,
    Rotate(Spin),
    Hold,
    TogglePause,
}

/// The kind of spin credited to a lock, used for scoring.
#[derive(Debug, Clone, Copy, PartialEq, Eq, Structural)]
pub enum SpinKind {
    NoSpin,
    Mini,
    Full,
}

/// A short description of the last placement, shown to the player.
#[derive(Debug, PartialEq, Eq)]
pub struct Event {
    pub headline: String,
    pub back_to_back: bool,
    pub combo: u32,
    pub points: u64,
}

/// The plain-value picture of a phase.
#[verifier::ext_equal]
pub enum PhaseView {
    Falling,
    Clearing { rows: Seq<i16>, timer: u64 },
    Paused,
    GameOver,
}

/// The plain-value picture of an event.
#[verifier::ext_equal]
pub struct EventView {
    pub headline: Seq<char>,
    pub back_to_back: bool,
    pub combo: u32,
    pub points: u64,
}

/// The plain-value picture of a game.
#[verifier::ext_equal]
pub struct GameView {
    pub cells: Seq<Option<Kind>>,
    pub piece: Piece,
    pub hold: Option<Kind>,
    pub phase: PhaseView,
    pub score: u64,
    pub lines: u32,
    pub level: u32,
    pub elapsed: u64,
    pub stats: Seq<u32>,
    pub last_event: Option<EventView>,
    pub upcoming: Seq<Kind>,
    pub dealt: Seq<Kind>,
    pub hold_used: bool,
    pub gravity_acc: u64,
    pub lock_acc: u64,
    pub lock_resets: u32,
    pub rotated_last: bool,
    pub last_kick_was_final: bool,
    pub combo: i32,
    pub back_to_back: bool,
}

/// Base points and banner for a placement, before level, chains and combos.
pub open spec fn base_points(spin: SpinKind, cleared: int) -> int {
    match spin {
        SpinKind::NoSpin => if cleared == 0 {
            0
        } else if cleared == 1 {
            100
        } else if cleared == 2 {
            300
        } else if cleared == 3 {
            500
        } else {
            800
        },
        SpinKind::Mini => if cleared == 0 {
            100
        } else if cleared == 1 {
            200
        } else {
            400
        },
        SpinKind::Full => if cleared == 0 {
            400
        } else if cleared == 1 {
            800
        } else if cleared == 2 {
            1200
        } else {
            1600
        },
    }
}

/// The banner shown for a placement, if it earns one.
pub open spec fn headline_of(spin: SpinKind, cleared: int) -> Option<Seq<char>> {
    match spin {
        SpinKind::NoSpin => if cleared == 0 {
            None
        } else if cleared == 1 {
            Some("SINGLE"@)
        } else if cleared == 2 {
            Some("DOUBLE"@)
        } else if cleared == 3 {
            Some("TRIPLE"@)
        } else {
            Some("TETRIS"@)
        },
        SpinKind::Mini => if cleared == 0 {
            Some("T-SPIN MINI"@)
        } else if cleared == 1 {
            Some("T-SPIN MINI SINGLE"@)
        } else {
            Some("T-SPIN MINI DOUBLE"@)
        },
        SpinKind::Full => if cleared == 0 {
            Some("T-SPIN"@)
        } else if cleared == 1 {
            Some("T-SPIN SINGLE"@)
        } else if cleared == 2 {
            Some("T-SPIN DOUBLE"@)
        } else {
            Some("T-SPIN TRIPLE"@)
        },
    }
}

/// Bonus per level for wiping the board with `cleared` rows.
pub open spec fn perfect_clear_bonus(cleared: int) -> int {
    if cleared == 1 {
        800
    } else if cleared == 2 {
        1200
    } else if cleared == 3 {
        1800
    } else {
        2000
    }
}

/// Every cell is empty.
pub open spec fn all_empty(cells: Seq<Option<Kind>>) -> bool {
    forall|i: int| 0 <= i < cells.len() ==> #[trigger] cells[i] is None
}

/// The piece tried by the rotation test `offset`.
pub open spec fn kicked(piece: Piece, to: u8, offset: (i16, i16)) -> Piece {
    Piece { rotation: to, x: (piece.x + offset.0) as i16, y: (piece.y + offset.1) as i16, ..piece }
}

/// Index of the first rotation test from `i` on whose piece fits, or
/// `tests.len()` when none does.
pub open spec fn first_fitting(cells: Seq<Option<Kind>>, piece: Piece, to: u8, tests: Seq<(i16, i16)>, i: int) -> int
    decreases tests.len() - i,
{
    if i >= tests.len() {
        tests.len() as int
    } else if piece_fits(cells, kicked(piece, to, tests[i])) {
        i
    } else {
        first_fitting(cells, piece, to, tests, i + 1)
    }
}

impl GameView {
    /// `piece` overlaps nothing on this game's grid.
    pub open spec fn fits(self, piece: Piece) -> bool {
        piece_fits(self.cells, piece)
    }

    /// The piece rests on the stack or the floor.
    pub open spec fn grounded(self) -> bool {
        !self.fits(self.piece.shifted(0, 1))
    }

    /// The counters have room for `extra` more points and one more scored
    /// placement.
    pub open spec fn counters_have_room(self, extra: int) -> bool {
        let combo_next = if self.combo + 1 > 0 { self.combo + 1 } else { 0 };
        &&& self.score + extra + (4400 + 50 * combo_next) * self.level <= u64::MAX
        &&& self.combo < i32::MAX
        &&& self.lines + HEIGHT <= u32::MAX
        &&& self.stats.len() == 7
        &&& forall|i: int| 0 <= i < 7 ==> #[trigger] self.stats[i] < u32::MAX
    }

    /// Nothing about a game can overflow in the next action: counters have
    /// room for one more drop and placement, and the piece is inside the
    /// working range.
    pub open spec fn headroom(self) -> bool {
        self.counters_have_room(2048) && piece_in_range(self.piece)
    }

    /// A game as it starts: an empty board, the first kind dealt from a
    /// fresh bag and spawned, nothing held, scored or timed yet.
    pub open spec fn is_fresh(self) -> bool {
        &&& self.cells == Seq::new(grid_len() as nat, |i: int| None::<Kind>)
        &&& self.dealt.len() == 1
        &&& self.piece == spawn_piece(self.dealt[0])
        &&& self.upcoming.len() == 13
        &&& self.hold is None
        &&& self.phase is Falling
        &&& self.score == 0
        &&& self.lines == 0
        &&& self.level == 1
        &&& self.elapsed == 0
        &&& self.stats == Seq::new(7, |i: int| if i == kind_index(self.dealt[0]) { 1u32 } else { 0u32 })
        &&& self.last_event is None
        &&& !self.hold_used
        &&& self.gravity_acc == 0
        &&& self.lock_acc == 0
        &&& self.lock_resets == 0
        &&& !self.rotated_last
        &&& !self.last_kick_was_final
        &&& self.combo == -1
        &&& !self.back_to_back
    }

    /// Gravity, lock timer, lock resets and rotation flags start over for a
    /// new piece.
    pub open spec fn with_piece_timers_reset(self) -> GameView {
        GameView {
            gravity_acc: 0,
            lock_acc: 0,
            lock_resets: 0,
            rotated_last: false,
            last_kick_was_final: false,
            ..self
        }
    }

    /// A successful move while grounded buys the player a little more time,
    /// but only up to `MAX_LOCK_RESETS` times per piece.
    pub open spec fn touch_lock_timer(self) -> GameView {
        if self.grounded() && self.lock_resets < MAX_LOCK_RESETS {
            GameView { lock_resets: (self.lock_resets + 1) as u32, lock_acc: 0, ..self }
        } else {
            self
        }
    }

    /// Move the piece `dx` columns if it fits there.
    pub open spec fn shift(self, dx: int) -> GameView {
        let candidate = self.piece.shifted(dx, 0);
        if self.fits(candidate) {
            GameView { piece: candidate, rotated_last: false, ..self }.touch_lock_timer()
        } else {
            self
        }
    }

    /// The piece one row lower.
    pub open spec fn stepped_down(self) -> GameView {
        GameView { piece: self.piece.shifted(0, 1), rotated_last: false, ..self }
    }

    /// Fall one row for a point and postpone gravity, or, when grounded,
    /// count as a move for the lock timer.
    pub open spec fn soft_drop(self) -> GameView {
        if !self.grounded() {
            let v = self.stepped_down();
            GameView {
                score: (v.score + 1) as u64,
                gravity_acc: saturating_sub(v.gravity_acc, (gravity_nanos(v.level as int) / SOFT_DROP_FACTOR) as u64),
                ..v
            }
        } else {
            self.touch_lock_timer()
        }
    }

    /// The bag after dealing its next kind; `batch` is the batch it shuffles
    /// in when it runs low.
    pub open spec fn after_deal(self, batch: Seq<Kind>) -> GameView {
        GameView {
            upcoming: if self.upcoming.len() > 7 {
                self.upcoming.drop_first()
            } else {
                self.upcoming.drop_first() + batch
            },
            dealt: self.dealt.push(self.upcoming[0]),
            ..self
        }
    }

    /// One more piece of `kind` in the statistics.
    pub open spec fn counted(self, kind: Kind) -> GameView {
        GameView {
            stats: self.stats.update(kind_index(kind), (self.stats[kind_index(kind)] + 1) as u32),
            ..self
        }
    }

    /// A new piece with no room to enter ends the game.
    pub open spec fn top_out_check(self) -> GameView {
        if !self.fits(self.piece) {
            GameView { phase: PhaseView::GameOver, ..self }
        } else {
            self
        }
    }

    /// Deal the next kind and spawn it; hold is available again.
    pub open spec fn spawn_next(self, batch: Seq<Kind>) -> GameView {
        let kind = self.upcoming[0];
        GameView {
            piece: spawn_piece(kind),
            hold_used: false,
            ..self.after_deal(batch).counted(kind)
        }.with_piece_timers_reset().top_out_check()
    }

    /// Stash the current kind and bring out the held one (or deal a new
    /// one), once per piece.
    pub open spec fn swap_hold(self, batch: Seq<Kind>) -> GameView {
        if self.hold_used {
            self
        } else {
            let kind = match self.hold {
                Some(k) => k,
                None => self.upcoming[0],
            };
            let v = match self.hold {
                Some(k) => self,
                None => self.after_deal(batch),
            };
            GameView {
                hold: Some(self.piece.kind),
                piece: spawn_piece(kind),
                hold_used: true,
                ..v.counted(kind)
            }.with_piece_timers_reset().top_out_check()
        }
    }

    /// A T-spin requires a T piece whose last action was a rotation and which
    /// is wedged into a corner: three of the four diagonals around its centre
    /// must be occupied.
    pub open spec fn detect_spin(self) -> SpinKind {
        if self.piece.kind != Kind::T || !self.rotated_last {
            SpinKind::NoSpin
        } else {
            let x = self.piece.x as int;
            let y = self.piece.y as int;
            let top_left = blocked_at(self.cells, x, y);
            let top_right = blocked_at(self.cells, x + 2, y);
            let bottom_left = blocked_at(self.cells, x, y + 2);
            let bottom_right = blocked_at(self.cells, x + 2, y + 2);
            let occupied = (if top_left { 1int } else { 0 }) + (if top_right { 1int } else { 0 }) + (
            if bottom_left {
                1int
            } else {
                0
            }) + (if bottom_right { 1int } else { 0 });
            if occupied < 3 {
                SpinKind::NoSpin
            } else {
                // The two corners the T's stem points between are its "front".
                let r = self.piece.rotation % 4;
                let front = if r == 0 {
                    top_left && top_right
                } else if r == 1 {
                    top_right && bottom_right
                } else if r == 2 {
                    bottom_left && bottom_right
                } else {
                    top_left && bottom_left
                };
                if front || self.last_kick_was_final {
                    SpinKind::Full
                } else {
                    SpinKind::Mini
                }
            }
        }
    }

    /// Points earned by a placement clearing `cleared` rows with `spin`.
    pub open spec fn award_points(self, cleared: int, spin: SpinKind) -> int {
        let level = self.level as int;
        let difficult = cleared > 0 && (cleared >= 4 || spin != SpinKind::NoSpin);
        let chained = difficult && self.back_to_back;
        let p0 = base_points(spin, cleared) * level;
        let p1 = if chained { p0 * 3 / 2 } else { p0 };
        let combo = self.combo + 1;
        let p2 = if cleared > 0 && combo > 0 { p1 + 50 * combo * level } else { p1 };
        if self.perfect_clear(cleared) {
            p2 + perfect_clear_bonus(cleared) * level
        } else {
            p2
        }
    }

    /// Clearing the full rows removes exactly `cleared` rows and leaves
    /// nothing behind.
    pub open spec fn perfect_clear(self, cleared: int) -> bool {
        cleared > 0 && full_rows_from(self.cells, 0).len() == cleared && all_empty(
            cleared_cells(self.cells),
        )
    }

    /// Score the placement and record what to show the player.
    pub open spec fn award(self, cleared: int, spin: SpinKind) -> GameView {
        let difficult = cleared > 0 && (cleared >= 4 || spin != SpinKind::NoSpin);
        let chained = difficult && self.back_to_back;
        let points = self.award_points(cleared, spin);
        let combo = if cleared > 0 { (self.combo + 1) as i32 } else { -1i32 };
        let headline = if self.perfect_clear(cleared) {
            Some("PERFECT CLEAR"@)
        } else {
            headline_of(spin, cleared)
        };
        GameView {
            score: (self.score + points) as u64,
            combo,
            back_to_back: if cleared > 0 { difficult } else { self.back_to_back },
            last_event: match headline {
                Some(h) => Some(
                    EventView {
                        headline: h,
                        back_to_back: chained,
                        combo: if combo > 0 { combo as u32 } else { 0 },
                        points: points as u64,
                    },
                ),
                None => self.last_event,
            },
            ..self
        }
    }

    /// Every cell of the piece is above the visible playfield.
    pub open spec fn locked_out(self) -> bool {
        forall|i: int| 0 <= i < 4 ==> #[trigger] self.piece.cell_y(i) < HIDDEN_ROWS
    }

    /// Write the piece into the grid, score it, and then end the game on a
    /// lock-out, flash the full rows, or deal the next piece.
    pub open spec fn lock_piece(self, batch: Seq<Kind>) -> GameView {
        let spin = self.detect_spin();
        let cells = locked_cells(self.cells, self.piece);
        let rows = full_rows_from(cells, 0);
        let cleared = rows.len() as int;
        let v = GameView { cells, ..self }.award(cleared, spin);
        if self.locked_out() && cleared == 0 {
            GameView { phase: PhaseView::GameOver, ..v }
        } else if cleared > 0 {
            let lines = (v.lines + cleared) as u32;
            GameView {
                lines,
                level: (1 + lines / LINES_PER_LEVEL) as u32,
                phase: PhaseView::Clearing { rows: rows.map_values(|r: int| r as i16), timer: CLEAR_FLASH },
                ..v
            }
        } else {
            v.spawn_next(batch)
        }
    }

    /// Drop the piece to where it lands, two points per row, and lock it.
    pub open spec fn hard_drop(self, batch: Seq<Kind>) -> GameView {
        let d = drop_distance_of(self.cells, self.piece);
        let v = if d > 0 {
            GameView { piece: self.piece.shifted(0, d), score: (self.score + 2 * d) as u64, rotated_last: false, ..self }
        } else {
            self
        };
        v.lock_piece(batch)
    }

    /// Turn the piece at the first kick offset where it fits, if any.
    pub open spec fn rotate(self, spin: Spin) -> GameView {
        let from = self.piece.rotation;
        let to = ((from + spin_steps(spin)) % 4) as u8;
        let tests = kick_tests(self.piece.kind, from as int, to as int);
        let i = first_fitting(self.cells, self.piece, to, tests, 0);
        if i < tests.len() {
            GameView {
                piece: kicked(self.piece, to, tests[i]),
                rotated_last: true,
                last_kick_was_final: i == tests.len() - 1,
                ..self
            }.touch_lock_timer()
        } else {
            self
        }
    }

    /// What `action` does to the game.
    pub open spec fn handle(self, action: Action, batch: Seq<Kind>) -> GameView {
        match action {
            Action::TogglePause => match self.phase {
                PhaseView::Falling => GameView { phase: PhaseView::Paused, ..self },
                PhaseView::Paused => GameView { phase: PhaseView::Falling, ..self },
                _ => self,
            },
            _ => if !(self.phase is Falling) {
                self
            } else {
                match action {
                    Action::MoveLeft => self.shift(-1),
                    Action::MoveRight => self.shift(1),
                    Action::SoftDrop => self.soft_drop(),
                    Action::HardDrop => self.hard_drop(batch),
                    Action::Rotate(spin) => self.rotate(spin),
                    Action::Hold => self.swap_hold(batch),
                    Action::TogglePause => self,
                }
            },
        }
    }

    /// The game after `actions` in order, the last one last; where the
    /// `i`-th action deals from the bag, `batches[i]` is the batch shuffled in.
    pub open spec fn handle_all(self, actions: Seq<Action>, batches: Seq<Seq<Kind>>) -> GameView
        decreases actions.len(),
    {
        if actions.len() == 0 {
            self
        } else {
            self.handle_all(actions.drop_last(), batches.drop_last()).handle(actions.last(), batches.last())
        }
    }

    /// The paused flag set explicitly: a falling game pauses, a paused one
    /// resumes; anything else is left as it is.
    pub open spec fn with_paused(self, paused: bool) -> GameView {
        if paused && self.phase is Falling {
            GameView { phase: PhaseView::Paused, ..self }
        } else if !paused && self.phase is Paused {
            GameView { phase: PhaseView::Falling, ..self }
        } else {
            self
        }
    }

    /// Gravity: while a full interval has accumulated, spend it on one row
    /// of fall; stop early once the piece lands.
    pub open spec fn fall(self, interval: u64) -> GameView
        decreases self.gravity_acc,
    {
        if interval == 0 {
            // Every row is due at once: the piece sinks until it lands.
            if self.grounded() {
                self
            } else {
                GameView {
                    piece: self.piece.shifted(0, drop_distance_of(self.cells, self.piece)),
                    rotated_last: false,
                    ..self
                }
            }
        } else if self.gravity_acc >= interval {
            let v = GameView { gravity_acc: (self.gravity_acc - interval) as u64, ..self };
            if !v.grounded() {
                v.stepped_down().fall(interval)
            } else {
                v
            }
        } else {
            self
        }
    }

    /// What `dt` nanoseconds of wall time do to the game.
    pub open spec fn update(self, dt: u64, batch: Seq<Kind>) -> GameView {
        match self.phase {
            PhaseView::Paused => self,
            PhaseView::GameOver => self,
            PhaseView::Clearing { rows, timer } => {
                let t = saturating_sub(timer, dt);
                let v = GameView { elapsed: (self.elapsed + dt) as u64, ..self };
                if t == 0 {
                    GameView { cells: cleared_cells(v.cells), phase: PhaseView::Falling, ..v }.spawn_next(batch)
                } else {
                    GameView { phase: PhaseView::Clearing { rows, timer: t }, ..v }
                }
            },
            PhaseView::Falling => {
                let v0 = GameView {
                    elapsed: (self.elapsed + dt) as u64,
                    gravity_acc: (self.gravity_acc + dt) as u64,
                    ..self
                };
                let v1 = v0.fall(gravity_nanos(self.level as int));
                if v1.grounded() {
                    let v2 = GameView { lock_acc: (v1.lock_acc + dt) as u64, ..v1 };
                    if v2.lock_acc >= LOCK_DELAY {
                        v2.lock_piece(batch)
                    } else {
                        v2
                    }
                } else {
                    GameView { lock_acc: 0, ..v1 }
                }
            },
        }
    }
}

impl View for Phase {
    type V = PhaseView;

    open spec fn view(&self) -> PhaseView {
        match self {
            Phase::Falling => PhaseView::Falling,
            Phase::Clearing { rows, timer } => PhaseView::Clearing { rows: rows@, timer: *timer },
            Phase::Paused => PhaseView::Paused,
            Phase::GameOver => PhaseView::GameOver,
        }
    }
}

impl View for Event {
    type V = EventView;

    open spec fn view(&self) -> EventView {
        EventView {
            headline: self.headline@,
            back_to_back: self.back_to_back,
            combo: self.combo,
            points: self.points,
        }
    }
}

pub struct Game {
    pub board: Board,
    pub piece: Piece,
    pub hold: Option<Kind>,
    pub phase: Phase,
    pub score: u64,
    pub lines: u32,
    pub level: u32,
    /// Nanoseconds of play, not counting pauses.
    pub elapsed: u64,
    /// Count of each kind spawned so far, indexed as in `ALL_KINDS`.
    pub stats: [u32; 7],
    pub last_event: Option<Event>,
    bag: Bag,
    hold_used: bool,
    gravity_acc: u64,
    lock_acc: u64,
    lock_resets: u32,
    /// The last successful action was a rotation, a prerequisite for a T-spin.
    rotated_last: bool,
    /// The last rotation succeeded only on the final kick test.
    last_kick_was_final: bool,
    /// Consecutive clearing placements minus one; -1 when the chain is broken.
    pub combo: i32,
    /// The last clearing placement was a difficult one.
    pub back_to_back: bool,
}

impl View for Game {
    type V = GameView;

    closed spec fn view(&self) -> GameView {
        GameView {
            cells: self.board@,
            piece: self.piece,
            hold: self.hold,
            phase: self.phase@,
            score: self.score,
            lines: self.lines,
            level: self.level,
            elapsed: self.elapsed,
            stats: self.stats@,
            last_event: match self.last_event {
                Some(e) => Some(e@),
                None => None,
            },
            upcoming: self.bag@,
            dealt: self.bag.dealt(),
            hold_used: self.hold_used,
            gravity_acc: self.gravity_acc,
            lock_acc: self.lock_acc,
            lock_resets: self.lock_resets,
            rotated_last: self.rotated_last,
            last_kick_was_final: self.last_kick_was_final,
            combo: self.combo,
            back_to_back: self.back_to_back,
        }
    }
}

/// `s` is a batch: the seven kinds in some order.
proof fn lemma_all_kinds_is_batch()
    ensures
        is_batch(all_kinds()),
{
}

/// Gravity only moves the piece down, spends accumulated time and clears the
/// rotation flag; the piece stays inside the grid's rows once it has moved.
proof fn lemma_fall_frame(v: GameView, interval: u64)
    requires
        piece_in_range(v.piece),
    ensures
        ({
            let w = v.fall(interval);
            &&& w.cells == v.cells
            &&& w.piece.kind == v.piece.kind
            &&& w.piece.rotation == v.piece.rotation
            &&& w.piece.x == v.piece.x
            &&& piece_in_range(w.piece)
            &&& w.score == v.score
            &&& w.lines == v.lines
            &&& w.level == v.level
            &&& w.stats == v.stats
            &&& w.combo == v.combo
            &&& w.upcoming == v.upcoming
            &&& w.phase == v.phase
            &&& w.elapsed == v.elapsed
            &&& w.lock_acc == v.lock_acc
            &&& w.gravity_acc <= v.gravity_acc
        }),
    decreases v.gravity_acc,
{
    if interval == 0 {
        crate::board::lemma_drop_from_bounds(
            v.cells,
            v.piece.kind,
            v.piece.rotation,
            v.piece.x as int,
            v.piece.y as int,
            0,
        );
    } else if v.gravity_acc >= interval {
        let u = GameView { gravity_acc: (v.gravity_acc - interval) as u64, ..v };
        if !u.grounded() {
            crate::board::lemma_fitting_piece_position(u.cells, u.piece.shifted(0, 1));
            lemma_fall_frame(u.stepped_down(), interval);
        }
    }
}

impl Game {
    /// The bag is consistent.
    pub closed spec fn wf(&self) -> bool {
        self.bag.wf()
    }

    /// A fresh game: empty board, first piece dealt and spawned.
    pub fn new() -> (game: Self)
        ensures
            game.wf(),
            game@.is_fresh(),
    {
        let mut bag = Bag::new();
        let kind = bag.next();
        let piece = Piece::spawn(kind, WIDTH, HIDDEN_ROWS);
        let mut game = Self {
            board: Board::new(),
            piece,
            hold: None,
            phase: Phase::Falling,
            score: 0,
            lines: 0,
            level: 1,
            elapsed: 0,
            stats: [0; 7],
            last_event: None,
            bag,
            hold_used: false,
            gravity_acc: 0,
            lock_acc: 0,
            lock_resets: 0,
            rotated_last: false,
            last_kick_was_final: false,
            combo: -1,
            back_to_back: false,
        };
        game.count_stat(kind);
        assert(game@.stats =~= Seq::new(7, |i: int| if i == kind_index(game@.dealt[0]) { 1u32 } else { 0u32 }));
        game
    }

    /// Start over with a fresh game.
    pub fn restart(&mut self)
        ensures
            final(self).wf(),
            final(self)@.is_fresh(),
    {
        *self = Self::new();
    }

    /// The game has ended.
    pub fn is_over(&self) -> (over: bool)
        ensures
            over == (self@.phase is GameOver),
    {
        match self.phase {
            Phase::GameOver => true,
            _ => false,
        }
    }

    /// The game is paused.
    pub fn is_paused(&self) -> (paused: bool)
        ensures
            paused == (self@.phase is Paused),
    {
        match self.phase {
            Phase::Paused => true,
            _ => false,
        }
    }

    /// A piece is in play and the game is running.
    fn is_falling(&self) -> (falling: bool)
        ensures
            falling == (self@.phase is Falling),
    {
        match self.phase {
            Phase::Falling => true,
            _ => false,
        }
    }

    /// The upcoming pieces the player can see.
    pub fn next_pieces(&self) -> (next: Vec<Kind>)
        requires
            self.wf(),
        ensures
            next@ == self@.upcoming.take(PREVIEW_COUNT as int),
    {
        proof {
            self.bag.lemma_upcoming_len();
        }
        self.bag.preview(PREVIEW_COUNT)
    }

    /// Hold is available for the current piece.
    pub fn can_hold(&self) -> (can: bool)
        ensures
            can == !self@.hold_used,
    {
        !self.hold_used
    }

    /// Where the current piece would land if dropped right now.
    pub fn ghost(&self) -> (landed: Piece)
        requires
            piece_droppable(self@.piece),
        ensures
            landed == self@.piece.shifted(0, drop_distance_of(self@.cells, self@.piece)),
    {
        self.board.ghost(&self.piece)
    }

    /// Nanoseconds a piece takes to fall one row at the current level.
    pub fn gravity_interval(&self) -> (interval: u64)
        ensures
            interval == gravity_nanos(self@.level as int),
    {
        gravity_interval_at(self.level)
    }

    /// Count one more piece of `kind`.
    fn count_stat(&mut self, kind: Kind)
        requires
            old(self).stats[kind_index(kind)] < u32::MAX,
        ensures
            final(self)@ == old(self)@.counted(kind),
            final(self).bag == old(self).bag,
    {
        let index = kind.index();
        self.stats[index] = self.stats[index] + 1;
        assert(self@.stats =~= old(self)@.counted(kind).stats);
    }

    /// Is the piece resting on the stack or the floor?
    fn grounded(&self) -> (grounded: bool)
        requires
            piece_below_limit(self.piece),
        ensures
            grounded == self@.grounded(),
    {
        proof {
            self.piece.shifted(0, 1).lemma_cells_in_range();
        }
        !self.board.fits(&self.piece.moved(0, 1))
    }

    /// Try to fall one row. Returns false if the piece is grounded.
    fn step_down(&mut self) -> (moved: bool)
        requires
            piece_below_limit(old(self).piece),
        ensures
            moved == !old(self)@.grounded(),
            final(self)@ == if moved {
                old(self)@.stepped_down()
            } else {
                old(self)@
            },
            final(self).bag == old(self).bag,
    {
        proof {
            self.piece.shifted(0, 1).lemma_cells_in_range();
        }
        let candidate = self.piece.moved(0, 1);
        if self.board.fits(&candidate) {
            self.piece = candidate;
            self.rotated_last = false;
            true
        } else {
            false
        }
    }

    /// A successful move while grounded buys the player a little more time,
    /// but only up to `MAX_LOCK_RESETS` times per piece.
    fn touch_lock_timer(&mut self)
        requires
            piece_below_limit(old(self).piece),
        ensures
            final(self)@ == old(self)@.touch_lock_timer(),
            final(self).bag == old(self).bag,
    {
        if self.grounded() && self.lock_resets < MAX_LOCK_RESETS {
            self.lock_resets += 1;
            self.lock_acc = 0;
        }
    }

    /// Can the game take `dt` more nanoseconds and one more action without
    /// any counter or coordinate overflowing?
    pub fn has_room(&self, dt: u64) -> (room: bool)
        ensures
            room == (self@.headroom() && self@.elapsed + dt <= u64::MAX && self@.gravity_acc + dt <= u64::MAX
                && self@.lock_acc + dt <= u64::MAX),
    {
        let combo_next: u128 = if self.combo >= 0 {
            self.combo as u128 + 1
        } else {
            0
        };
        let level = self.level as u128;
        assert((4400 + 50 * combo_next) * level <= (4400 + 50 * 0x8000_0000u128) * 0xffff_ffffu128) by (nonlinear_arith)
            requires
                combo_next <= 0x8000_0000,
                level <= 0xffff_ffff,
        ;
        let needed: u128 = self.score as u128 + 2048 + (4400 + 50 * combo_next) * level;
        let mut stats_ok = true;
        let mut i: usize = 0;
        while i < 7
            invariant
                i <= 7,
                stats_ok == forall|j: int| 0 <= j < i ==> #[trigger] self.stats@[j] < u32::MAX,
            decreases 7 - i,
        {
            if self.stats[i] == u32::MAX {
                stats_ok = false;
            }
            i += 1;
        }
        let p = self.piece;
        needed <= u64::MAX as u128 && self.combo < i32::MAX && self.lines as u64 + HEIGHT as u64 <= u32::MAX as u64
            && stats_ok && -1000 <= p.x && p.x <= 1000 && -1000 <= p.y && p.y <= 1000 && p.rotation <= 252
            && dt <= u64::MAX - self.elapsed && dt <= u64::MAX - self.gravity_acc && dt <= u64::MAX
            - self.lock_acc
    }

    /// Apply one player action.
    pub fn handle(&mut self, action: Action)
        requires
            old(self).wf(),
            old(self)@.phase is Falling && action != Action::TogglePause ==> old(self)@.headroom(),
        ensures
            final(self).wf(),
            exists|batch: Seq<Kind>| is_batch(batch) && final(self)@ == old(self)@.handle(action, batch),
    {
        proof {
            lemma_all_kinds_is_batch();
        }
        if let Action::TogglePause = action {
            if self.is_falling() {
                self.phase = Phase::Paused;
            } else if self.is_paused() {
                self.phase = Phase::Falling;
            }
            assert(self@ == old(self)@.handle(action, all_kinds()));
            return;
        }
        if !self.is_falling() {
            assert(self@ == old(self)@.handle(action, all_kinds()));
            return;
        }
        match action {
            Action::MoveLeft => {
                self.shift(-1);
                assert(self@ == old(self)@.handle(action, all_kinds()));
            },
            Action::MoveRight => {
                self.shift(1);
                assert(self@ == old(self)@.handle(action, all_kinds()));
            },
            Action::SoftDrop => {
                self.soft_drop();
                assert(self@ == old(self)@.handle(action, all_kinds()));
            },
            Action::HardDrop => {
                self.hard_drop();
                let ghost b = choose|b: Seq<Kind>| is_batch(b) && self@ == old(self)@.hard_drop(b);
                assert(self@ == old(self)@.handle(action, b));
            },
            Action::Rotate(spin) => {
                self.rotate(spin);
                assert(self@ == old(self)@.handle(action, all_kinds()));
            },
            Action::Hold => {
                self.swap_hold();
                let ghost b = choose|b: Seq<Kind>| is_batch(b) && self@ == old(self)@.swap_hold(b);
                assert(self@ == old(self)@.handle(action, b));
            },
            Action::TogglePause => {},
        }
    }

    /// Apply `actions` in order, as long as the game has room for the next
    /// one that needs any; returns how many were applied.
    pub fn handle_all(&mut self, actions: &[Action]) -> (applied: usize)
        requires
            old(self).wf(),
        ensures
            final(self).wf(),
            applied <= actions@.len(),
            applied < actions@.len() ==> final(self)@.phase is Falling && actions@[applied as int]
                != Action::TogglePause && !final(self)@.headroom(),
            exists|batches: Seq<Seq<Kind>>|
                batches.len() == applied && (forall|i: int| 0 <= i < applied ==> #[trigger] is_batch(batches[i]))
                    && final(self)@ == old(self)@.handle_all(actions@.take(applied as int), batches),
    {
        let ghost mut batches: Seq<Seq<Kind>> = Seq::empty();
        let mut i: usize = 0;
        assert(actions@.take(0) =~= Seq::<Action>::empty());
        while i < actions.len()
            invariant
                self.wf(),
                i <= actions@.len(),
                batches.len() == i,
                forall|j: int| 0 <= j < i ==> #[trigger] is_batch(batches[j]),
                self@ == old(self)@.handle_all(actions@.take(i as int), batches),
            decreases actions@.len() - i,
        {
            let action = actions[i];
            if self.is_falling() && action != Action::TogglePause && !self.has_room(0) {
                return i;
            }
            let ghost before = self@;
            self.handle(action);
            let ghost b = choose|b: Seq<Kind>| is_batch(b) && self@ == before.handle(actions@[i as int], b);
            proof {
                let taken = actions@.take(i + 1);
                let next_batches = batches.push(b);
                assert(taken.drop_last() =~= actions@.take(i as int));
                assert(next_batches.drop_last() =~= batches);
                assert(self@ == old(self)@.handle_all(taken, next_batches));
                batches = next_batches;
            }
            i += 1;
        }
        i
    }

    /// Set the paused flag explicitly.
    pub fn set_paused(&mut self, paused: bool)
        ensures
            final(self)@ == old(self)@.with_paused(paused),
            old(self).wf() ==> final(self).wf(),
    {
        if paused && self.is_falling() {
            self.phase = Phase::Paused;
        } else if !paused && self.is_paused() {
            self.phase = Phase::Falling;
        }
    }

    /// Move the piece sideways if it fits.
    fn shift(&mut self, dx: i16)
        requires
            piece_in_range(old(self).piece),
            dx == -1 || dx == 1,
        ensures
            final(self)@ == old(self)@.shift(dx as int),
            final(self).bag == old(self).bag,
    {
        proof {
            self.piece.shifted(dx as int, 0).lemma_cells_in_range();
        }
        let candidate = self.piece.moved(dx, 0);
        if self.board.fits(&candidate) {
            self.piece = candidate;
            self.rotated_last = false;
            self.touch_lock_timer();
        }
    }

    /// Fall one row on demand.
    fn soft_drop(&mut self)
        requires
            piece_in_range(old(self).piece),
            old(self).score < u64::MAX,
        ensures
            final(self)@ == old(self)@.soft_drop(),
            final(self).bag == old(self).bag,
    {
        if self.step_down() {
            self.score += 1;
            // Falling on demand also postpones the next gravity step.
            let cut = self.gravity_interval() / SOFT_DROP_FACTOR;
            self.gravity_acc = if self.gravity_acc >= cut {
                self.gravity_acc - cut
            } else {
                0
            };
        } else {
            self.touch_lock_timer();
        }
    }

    /// Drop the piece to where it lands and lock it.
    fn hard_drop(&mut self)
        requires
            old(self).wf(),
            old(self)@.headroom(),
        ensures
            final(self).wf(),
            exists|batch: Seq<Kind>| is_batch(batch) && final(self)@ == old(self)@.hard_drop(batch),
    {
        proof {
            self.piece.shifted(0, 1).lemma_cells_in_range();
        }
        let distance = self.board.drop_distance(&self.piece);
        if distance > 0 {
            self.piece = self.piece.moved(0, distance);
            self.score += 2 * distance as u64;
            self.rotated_last = false;
        }
        let ghost mid = self@;
        self.lock_piece();
        let ghost b = choose|b: Seq<Kind>| is_batch(b) && self@ == mid.lock_piece(b);
        assert(self@ == old(self)@.hard_drop(b));
    }

    /// Turn the piece, trying the kick offsets in order.
    fn rotate(&mut self, spin: Spin)
        requires
            piece_in_range(old(self).piece),
        ensures
            final(self)@ == old(self)@.rotate(spin),
            final(self).bag == old(self).bag,
    {
        let from = self.piece.rotation;
        let to = spin.apply(from);
        let tests = kicks(self.piece.kind, from, to);
        let ghost start = self@;
        let mut index: usize = 0;
        while index < tests.len()
            invariant
                index <= tests@.len(),
                from == start.piece.rotation,
                to == (from + spin_steps(spin)) % 4,
                tests@ == kick_tests(start.piece.kind, from as int, to as int),
                self@ == start,
                start == old(self)@,
                self.bag == old(self).bag,
                piece_in_range(self.piece),
                first_fitting(start.cells, start.piece, to, tests@, index as int) == first_fitting(
                    start.cells,
                    start.piece,
                    to,
                    tests@,
                    0,
                ),
            decreases tests@.len() - index,
        {
            let (dx, dy) = tests[index];
            proof {
                crate::tetromino::lemma_kick_offsets_small(start.piece.kind, from as int, to as int);
                assert(-2 <= dx <= 2 && -2 <= dy <= 2);
            }
            let mut candidate = self.piece;
            candidate.rotation = to;
            candidate.x = candidate.x + dx;
            candidate.y = candidate.y + dy;
            proof {
                candidate.lemma_cells_in_range();
                assert(candidate == kicked(start.piece, to, tests@[index as int]));
            }
            if self.board.fits(&candidate) {
                assert(first_fitting(start.cells, start.piece, to, tests@, index as int) == index);
                self.piece = candidate;
                self.rotated_last = true;
                self.last_kick_was_final = index == tests.len() - 1;
                let ghost moved = self@;
                assert(moved == GameView {
                    piece: kicked(start.piece, to, tests@[index as int]),
                    rotated_last: true,
                    last_kick_was_final: index == tests@.len() - 1,
                    ..start
                });
                proof {
                    let to_spec = ((start.piece.rotation + spin_steps(spin)) % 4) as u8;
                    assert(to_spec == to);
                    let tests_spec = kick_tests(start.piece.kind, start.piece.rotation as int, to_spec as int);
                    assert(tests_spec == tests@);
                    assert(first_fitting(start.cells, start.piece, to_spec, tests_spec, 0) == index);
                    assert(start.rotate(spin) == moved.touch_lock_timer());
                }
                self.touch_lock_timer();
                return;
            }
            index += 1;
        }
        assert(first_fitting(start.cells, start.piece, to, tests@, tests@.len() as int) == tests@.len());
    }

    /// Swap the piece with the held one, once per piece.
    fn swap_hold(&mut self)
        requires
            old(self).wf(),
            old(self)@.headroom(),
        ensures
            final(self).wf(),
            exists|batch: Seq<Kind>| is_batch(batch) && final(self)@ == old(self)@.swap_hold(batch),
    {
        proof {
            lemma_all_kinds_is_batch();
        }
        if self.hold_used {
            assert(self@ == old(self)@.swap_hold(all_kinds()));
            return;
        }
        let stashed = self.hold;
        self.hold = Some(self.piece.kind);
        let ghost before = self.bag@;
        proof {
            self.bag.lemma_upcoming_len();
        }
        let kind = match stashed {
            Some(kind) => kind,
            None => self.bag.next(),
        };
        let ghost batch = if stashed is None && before.len() <= 7 {
            self.bag@.skip(before.len() - 1)
        } else {
            all_kinds()
        };
        proof {
            if stashed is None {
                if before.len() <= 7 {
                    assert(self.bag@ =~= self.bag@.take(before.len() - 1) + self.bag@.skip(before.len() - 1));
                    assert(self.bag@ =~= before.drop_first() + batch);
                }
            }
        }
        let piece = Piece::spawn(kind, WIDTH, HIDDEN_ROWS);
        self.count_stat(kind);
        self.piece = piece;
        self.hold_used = true;
        self.reset_piece_timers();
        proof {
            spawn_piece(kind).lemma_cells_in_range();
        }
        if !self.board.fits(&self.piece) {
            self.phase = Phase::GameOver;
        }
        assert(self@ =~= old(self)@.swap_hold(batch));
    }

    /// Start the per-piece timers and flags over.
    fn reset_piece_timers(&mut self)
        ensures
            final(self)@ == old(self)@.with_piece_timers_reset(),
            final(self).bag == old(self).bag,
    {
        self.gravity_acc = 0;
        self.lock_acc = 0;
        self.lock_resets = 0;
        self.rotated_last = false;
        self.last_kick_was_final = false;
    }

    /// The spin credited to the piece if it locked now.
    pub fn detect_spin(&self) -> (spin: SpinKind)
        requires
            self@.piece.kind == Kind::T && self@.rotated_last ==> self@.piece.x + 2 <= i16::MAX && self@.piece.y + 2
                <= i16::MAX,
        ensures
            spin == self@.detect_spin(),
    {
        if self.piece.kind != Kind::T || !self.rotated_last {
            return SpinKind::NoSpin;
        }
        let x = self.piece.x;
        let y = self.piece.y;
        let top_left = self.board.is_blocked(x, y);
        let top_right = self.board.is_blocked(x + 2, y);
        let bottom_left = self.board.is_blocked(x, y + 2);
        let bottom_right = self.board.is_blocked(x + 2, y + 2);

        let occupied: u32 = (if top_left { 1 } else { 0 }) + (if top_right { 1 } else { 0 }) + (if bottom_left {
            1
        } else {
            0
        }) + (if bottom_right { 1 } else { 0 });
        if occupied < 3 {
            return SpinKind::NoSpin;
        }
        // The two corners the T's stem points between are its "front".
        let r = self.piece.rotation % 4;
        let front = if r == 0 {
            top_left && top_right
        } else if r == 1 {
            top_right && bottom_right
        } else if r == 2 {
            bottom_left && bottom_right
        } else {
            top_left && bottom_left
        };
        if front {
            SpinKind::Full
        } else if self.last_kick_was_final {
            // A rotation that only fit on the last kick counts in full.
            SpinKind::Full
        } else {
            SpinKind::Mini
        }
    }

    /// Lock the piece where it is and score the placement.
    fn lock_piece(&mut self)
        requires
            old(self).wf(),
            old(self)@.counters_have_room(0),
            piece_in_range(old(self).piece),
        ensures
            final(self).wf(),
            exists|batch: Seq<Kind>| is_batch(batch) && final(self)@ == old(self)@.lock_piece(batch),
    {
        proof {
            lemma_all_kinds_is_batch();
            self.piece.lemma_cells_in_range();
        }
        let spin = self.detect_spin();
        // Locking entirely above the visible playfield is a top-out.
        let cells = self.piece.cells();
        let locked_out = cells[0].1 < HIDDEN_ROWS && cells[1].1 < HIDDEN_ROWS && cells[2].1 < HIDDEN_ROWS
            && cells[3].1 < HIDDEN_ROWS;
        assert(locked_out == old(self)@.locked_out()) by {
            if !locked_out {
                assert(!(cells@[0].1 < HIDDEN_ROWS && cells@[1].1 < HIDDEN_ROWS && cells@[2].1 < HIDDEN_ROWS
                    && cells@[3].1 < HIDDEN_ROWS));
            }
        }

        self.board.lock(&self.piece);
        let rows = self.board.full_rows();
        let cleared = rows.len();
        proof {
            crate::board::lemma_kept_and_full_partition(self.board@, 0);
        }
        let ghost locked = self@;
        self.award(cleared, spin);
        let ghost awarded = self@;

        if locked_out && cleared == 0 {
            self.phase = Phase::GameOver;
            assert(self@ =~= old(self)@.lock_piece(all_kinds()));
            return;
        }

        if cleared > 0 {
            self.lines += cleared as u32;
            self.level = 1 + self.lines / LINES_PER_LEVEL;
            self.phase = Phase::Clearing { rows, timer: CLEAR_FLASH };
            proof {
                assert(rows@ =~= full_rows_from(locked.cells, 0).map_values(|r: int| r as i16));
            }
            assert(self@ =~= old(self)@.lock_piece(all_kinds()));
        } else {
            self.spawn_next();
            let ghost b = choose|b: Seq<Kind>| is_batch(b) && self@ == awarded.spawn_next(b);
            assert(self@ == old(self)@.lock_piece(b));
        }
    }

    /// Score the placement and record what to show the player.
    pub fn award(&mut self, cleared: usize, spin: SpinKind)
        requires
            old(self)@.counters_have_room(0),
        ensures
            final(self)@ == old(self)@.award(cleared as int, spin),
            old(self).wf() ==> final(self).wf(),
    {
        let level = self.level as u64;
        let ghost combo_next: int = if old(self).combo + 1 > 0 { old(self).combo + 1 } else { 0 };
        let (base, name): (u64, Option<&str>) = match spin {
            SpinKind::NoSpin => if cleared == 0 {
                (0, None)
            } else if cleared == 1 {
                (100, Some("SINGLE"))
            } else if cleared == 2 {
                (300, Some("DOUBLE"))
            } else if cleared == 3 {
                (500, Some("TRIPLE"))
            } else {
                (800, Some("TETRIS"))
            },
            SpinKind::Mini => if cleared == 0 {
                (100, Some("T-SPIN MINI"))
            } else if cleared == 1 {
                (200, Some("T-SPIN MINI SINGLE"))
            } else {
                (400, Some("T-SPIN MINI DOUBLE"))
            },
            SpinKind::Full => if cleared == 0 {
                (400, Some("T-SPIN"))
            } else if cleared == 1 {
                (800, Some("T-SPIN SINGLE"))
            } else if cleared == 2 {
                (1200, Some("T-SPIN DOUBLE"))
            } else {
                (1600, Some("T-SPIN TRIPLE"))
            },
        };
        assert(base == base_points(spin, cleared as int));

        // "Difficult" clears (tetrises and scoring spins) chain into a
        // back-to-back bonus.
        let difficult = cleared > 0 && (cleared >= 4 || spin != SpinKind::NoSpin);
        let chained = difficult && self.back_to_back;

        assert(base * level <= 1600 * level) by (nonlinear_arith)
            requires
                base <= 1600,
        ;
        let mut points = base * level;
        if chained {
            points = points * 3 / 2;
        }
        assert(points <= 2400 * level);
        assert(old(self)@.score + (4400 + 50 * combo_next) * level <= u64::MAX);
        assert(2400 * level + 50 * combo_next * level + 2000 * level == (4400 + 50 * combo_next) * level)
            by (nonlinear_arith);
        assert(0 <= 50 * combo_next * level) by (nonlinear_arith)
            requires
                combo_next >= 0,
                level >= 0,
        ;

        if cleared > 0 {
            self.combo += 1;
            if self.combo > 0 {
                assert(self.combo == combo_next);
                assert(50 * combo_next * level <= (4400 + 50 * combo_next) * level) by (nonlinear_arith)
                    requires
                        combo_next >= 0,
                        level >= 0,
                ;
                assert(50 * (self.combo as u64) <= 50 * i32::MAX);
                assert(50 * (self.combo as u64) * level == 50 * combo_next * level);
                points += 50 * self.combo as u64 * level;
            }
            self.back_to_back = difficult;
        } else {
            self.combo = -1;
        }
        assert(points <= 2400 * level + 50 * combo_next * level);

        // A perfect clear wipes the board completely: the biggest bonus there is.
        let perfect = cleared > 0 && self.is_board_clear_after(cleared);
        if perfect {
            let bonus: u64 = if cleared == 1 {
                800
            } else if cleared == 2 {
                1200
            } else if cleared == 3 {
                1800
            } else {
                2000
            };
            assert(bonus * level <= 2000 * level) by (nonlinear_arith)
                requires
                    bonus <= 2000,
            ;
            points += bonus * level;
        }
        assert(points == old(self)@.award_points(cleared as int, spin));
        assert(points <= 2400 * level + 50 * combo_next * level + 2000 * level);

        self.score += points;

        let headline = if perfect {
            Some("PERFECT CLEAR")
        } else {
            name
        };
        match headline {
            Some(text) => {
                let combo_shown: u32 = if self.combo > 0 {
                    self.combo as u32
                } else {
                    0
                };
                self.last_event = Some(Event { headline: text.to_owned(), back_to_back: chained, combo: combo_shown, points });
            },
            None => {},
        }
        assert(self@ =~= old(self)@.award(cleared as int, spin));
    }

    /// Would the board be completely empty once the pending rows collapse?
    fn is_board_clear_after(&self, cleared: usize) -> (clear: bool)
        ensures
            clear == (full_rows_from(self@.cells, 0).len() == cleared && all_empty(cleared_cells(self@.cells))),
    {
        let mut probe = self.board.clone();
        let removed = probe.clear_full_rows();
        removed == cleared && probe.is_empty()
    }

    /// Deal and spawn the next piece.
    fn spawn_next(&mut self)
        requires
            old(self).wf(),
            forall|i: int| 0 <= i < 7 ==> #[trigger] old(self).stats@[i] < u32::MAX,
        ensures
            final(self).wf(),
            exists|batch: Seq<Kind>| is_batch(batch) && final(self)@ == old(self)@.spawn_next(batch),
    {
        proof {
            lemma_all_kinds_is_batch();
        }
        let ghost before = self.bag@;
        proof {
            self.bag.lemma_upcoming_len();
        }
        let kind = self.bag.next();
        let ghost batch = if before.len() <= 7 {
            self.bag@.skip(before.len() - 1)
        } else {
            all_kinds()
        };
        proof {
            if before.len() <= 7 {
                assert(self.bag@ =~= self.bag@.take(before.len() - 1) + self.bag@.skip(before.len() - 1));
                assert(self.bag@ =~= before.drop_first() + batch);
            }
        }
        self.piece = Piece::spawn(kind, WIDTH, HIDDEN_ROWS);
        self.count_stat(kind);
        self.hold_used = false;
        self.reset_piece_timers();
        proof {
            spawn_piece(kind).lemma_cells_in_range();
        }
        // No room for the new piece: the stack has reached the ceiling.
        if !self.board.fits(&self.piece) {
            self.phase = Phase::GameOver;
        }
        assert(self@ =~= old(self)@.spawn_next(batch));
    }

    /// Advance the clock by `dt` nanoseconds of wall time.
    pub fn update(&mut self, dt: u64)
        requires
            old(self).wf(),
            old(self)@.phase is Falling || old(self)@.phase is Clearing ==> old(self)@.headroom()
                && old(self)@.elapsed + dt <= u64::MAX && old(self)@.gravity_acc + dt <= u64::MAX && old(self)@.lock_acc
                + dt <= u64::MAX,
        ensures
            final(self).wf(),
            exists|batch: Seq<Kind>| is_batch(batch) && final(self)@ == old(self)@.update(dt, batch),
    {
        proof {
            lemma_all_kinds_is_batch();
        }
        if self.is_paused() || self.is_over() {
            assert(self@ == old(self)@.update(dt, all_kinds()));
            return;
        }
        if self.is_falling() {
            self.tick_falling(dt);
        } else {
            self.tick_clearing(dt);
        }
    }

    /// Full rows are flashing; collapse them when the timer runs out.
    fn tick_clearing(&mut self, dt: u64)
        requires
            old(self).wf(),
            old(self)@.headroom(),
            old(self)@.phase is Clearing,
            old(self)@.elapsed + dt <= u64::MAX,
        ensures
            final(self).wf(),
            exists|batch: Seq<Kind>| is_batch(batch) && final(self)@ == old(self)@.update(dt, batch),
    {
        proof {
            lemma_all_kinds_is_batch();
        }
        self.elapsed += dt;
        let mut expired = false;
        if let Phase::Clearing { timer, .. } = &mut self.phase {
            *timer = if *timer >= dt {
                *timer - dt
            } else {
                0
            };
            expired = *timer == 0;
        }
        if expired {
            self.board.clear_full_rows();
            self.phase = Phase::Falling;
            let ghost mid = self@;
            self.spawn_next();
            let ghost b = choose|b: Seq<Kind>| is_batch(b) && self@ == mid.spawn_next(b);
            assert(self@ == old(self)@.update(dt, b));
        } else {
            assert(self@ =~= old(self)@.update(dt, all_kinds()));
        }
    }

    /// Gravity: spend whole intervals of accumulated time on rows of fall,
    /// stopping once the piece lands.
    fn apply_gravity(&mut self, interval: u64)
        requires
            piece_in_range(old(self).piece),
        ensures
            final(self)@ == old(self)@.fall(interval),
            final(self).bag == old(self).bag,
    {
        if interval == 0 {
            proof {
                self.piece.shifted(0, 1).lemma_cells_in_range();
                crate::board::lemma_drop_from_bounds(
                    self@.cells,
                    self.piece.kind,
                    self.piece.rotation,
                    self.piece.x as int,
                    self.piece.y as int,
                    0,
                );
                crate::board::lemma_drop_from_bounds(
                    self@.cells,
                    self.piece.kind,
                    self.piece.rotation,
                    self.piece.x as int,
                    self.piece.y as int,
                    1,
                );
            }
            let distance = self.board.drop_distance(&self.piece);
            if distance > 0 {
                self.piece = self.piece.moved(0, distance);
                self.rotated_last = false;
            }
            return;
        }
        let ghost v0 = self@;
        loop
            invariant_except_break
                self@.fall(interval) == v0.fall(interval),
                self.bag == old(self).bag,
                piece_in_range(self.piece),
                interval > 0,
            ensures
                self@ == v0.fall(interval),
                self.bag == old(self).bag,
            decreases self.gravity_acc,
        {
            if self.gravity_acc < interval {
                break;
            }
            self.gravity_acc -= interval;
            let ghost v = self@;
            if !self.step_down() {
                break;
            }
            proof {
                crate::board::lemma_fitting_piece_position(v.cells, v.piece.shifted(0, 1));
            }
        }
    }

    /// A tick while a piece is falling: gravity, then the lock timer.
    #[verifier::rlimit(30)]
    fn tick_falling(&mut self, dt: u64)
        requires
            old(self).wf(),
            old(self)@.headroom(),
            old(self)@.phase is Falling,
            old(self)@.elapsed + dt <= u64::MAX,
            old(self)@.gravity_acc + dt <= u64::MAX,
            old(self)@.lock_acc + dt <= u64::MAX,
        ensures
            final(self).wf(),
            exists|batch: Seq<Kind>| is_batch(batch) && final(self)@ == old(self)@.update(dt, batch),
    {
        proof {
            lemma_all_kinds_is_batch();
        }
        self.elapsed += dt;
        let interval = self.gravity_interval();
        self.gravity_acc += dt;
        let ghost v0 = self@;
        proof {
            lemma_fall_frame(v0, interval);
        }
        self.apply_gravity(interval);
        if self.grounded() {
            self.lock_acc += dt;
            if self.lock_acc >= LOCK_DELAY {
                let ghost v2 = self@;
                self.lock_piece();
                let ghost b = choose|b: Seq<Kind>| is_batch(b) && self@ == v2.lock_piece(b);
                assert(self@ == old(self)@.update(dt, b));
            } else {
                assert(self@ == old(self)@.update(dt, all_kinds()));
            }
        } else {
            self.lock_acc = 0;
            assert(self@ == old(self)@.update(dt, all_kinds()));
        }
    }
}

impl Default for Game {
    /// A fresh game.
    fn default() -> (game: Self)
        ensures
            game.wf(),
            game@.is_fresh(),
    {
        Self::new()
    }
}

/// Nanoseconds a piece takes to fall one row at `level`.
pub fn gravity_interval_at(level: u32) -> (interval: u64)
    ensures
        interval == gravity_nanos(level as int),
{
    match level {
        0 => 1_239_157_373,
        1 => 1_000_000_000,
        2 => 793_000_000,
        3 => 617_796_000,
        4 => 472_729_139,
        5 => 355_196_928,
        6 => 262_003_550,
        7 => 189_677_245,
        8 => 134_734_731,
        9 => 93_882_249,
        10 => 64_151_585,
        11 => 42_976_258,
        12 => 28_217_678,
        13 => 18_153_329,
        14 => 11_439_342,
        15 => 7_058_616,
        16 => 4_263_557,
        17 => 2_520_084,
        18 => 1_457_139,
        19 => 823_907,
        20 => 455_398,
        21 => 245_968,
        22 => 129_771,
        23 => 66_852,
        24 => 33_614,
        25 => 16_490,
        26 => 7_889,
        27 => 3_679,
        28 => 1_672,
        29 => 740,
        30 => 319,
        31 => 134,
        32 => 54,
        33 => 22,
        34 => 8,
        35 => 3,
        36 => 1,
        _ => 0,
    }
}

} // verus!
