//! Piece shapes, rotation, Super Rotation System (SRS) kick tables and pieces.

use rand::seq::SliceRandom;
use vstd::prelude::*;

verus! {

/// The seven one-sided tetrominoes.
#[derive(Debug, Clone, Copy, PartialEq, Eq, Structural)]
pub enum Kind {
    I,
    O,
    T,
    S,
    Z,
    J,
    L,
}

/// Every kind, in the order used for statistics.
pub const ALL_KINDS: [Kind; 7] = [Kind::I, Kind::O, Kind::T, Kind::S, Kind::Z, Kind::J, Kind::L];

/// Position of a kind in `ALL_KINDS`.
pub open spec fn kind_index(kind: Kind) -> int {
    match kind {
        Kind::I => 0,
        Kind::O => 1,
        Kind::T => 2,
        Kind::S => 3,
        Kind::Z => 4,
        Kind::J => 5,
        Kind::L => 6,
    }
}

/// The kinds in statistics order, as a sequence.
pub open spec fn all_kinds() -> Seq<Kind> {
    seq![Kind::I, Kind::O, Kind::T, Kind::S, Kind::Z, Kind::J, Kind::L]
}

/// Cell offsets `(x, y)` of a kind in rotation state `rotation` (0..4);
/// `y` grows downwards, matching the board's row indexing.
pub open spec fn shape_cells(kind: Kind, rotation: int) -> Seq<(i8, i8)> {
    match kind {
        Kind::I => if rotation == 0 {
            seq![(0i8, 1i8), (1, 1), (2, 1), (3, 1)]
        } else if rotation == 1 {
            seq![(2i8, 0i8), (2, 1), (2, 2), (2, 3)]
        } else if rotation == 2 {
            seq![(0i8, 2i8), (1, 2), (2, 2), (3, 2)]
        } else {
            seq![(1i8, 0i8), (1, 1), (1, 2), (1, 3)]
        },
        Kind::O => seq![(1i8, 0i8), (2, 0), (1, 1), (2, 1)],
        Kind::T => if rotation == 0 {
            seq![(1i8, 0i8), (0, 1), (1, 1), (2, 1)]
        } else if rotation == 1 {
            seq![(1i8, 0i8), (1, 1), (2, 1), (1, 2)]
        } else if rotation == 2 {
            seq![(0i8, 1i8), (1, 1), (2, 1), (1, 2)]
        } else {
            seq![(1i8, 0i8), (0, 1), (1, 1), (1, 2)]
        },
        Kind::S => if rotation == 0 {
            seq![(1i8, 0i8), (2, 0), (0, 1), (1, 1)]
        } else if rotation == 1 {
            seq![(1i8, 0i8), (1, 1), (2, 1), (2, 2)]
        } else if rotation == 2 {
            seq![(1i8, 1i8), (2, 1), (0, 2), (1, 2)]
        } else {
            seq![(0i8, 0i8), (0, 1), (1, 1), (1, 2)]
        },
        Kind::Z => if rotation == 0 {
            seq![(0i8, 0i8), (1, 0), (1, 1), (2, 1)]
        } else if rotation == 1 {
            seq![(2i8, 0i8), (1, 1), (2, 1), (1, 2)]
        } else if rotation == 2 {
            seq![(0i8, 1i8), (1, 1), (1, 2), (2, 2)]
        } else {
            seq![(1i8, 0i8), (0, 1), (1, 1), (0, 2)]
        },
        Kind::J => if rotation == 0 {
            seq![(0i8, 0i8), (0, 1), (1, 1), (2, 1)]
        } else if rotation == 1 {
            seq![(1i8, 0i8), (2, 0), (1, 1), (1, 2)]
        } else if rotation == 2 {
            seq![(0i8, 1i8), (1, 1), (2, 1), (2, 2)]
        } else {
            seq![(1i8, 0i8), (1, 1), (0, 2), (1, 2)]
        },
        Kind::L => if rotation == 0 {
            seq![(2i8, 0i8), (0, 1), (1, 1), (2, 1)]
        } else if rotation == 1 {
            seq![(1i8, 0i8), (1, 1), (1, 2), (2, 2)]
        } else if rotation == 2 {
            seq![(0i8, 1i8), (1, 1), (2, 1), (0, 2)]
        } else {
            seq![(0i8, 0i8), (1, 0), (1, 1), (1, 2)]
        },
    }
}

/// Side of the square box the kind rotates in.
pub open spec fn box_side(kind: Kind) -> int {
    match kind {
        Kind::I => 4,
        Kind::O => 4,
        _ => 3,
    }
}

/// Every rotation state of every kind has four pairwise distinct cells, all
/// inside the kind's rotation box.
pub proof fn lemma_shapes_are_well_formed(kind: Kind, rotation: int)
    requires
        0 <= rotation < 4,
    ensures
        shape_cells(kind, rotation).len() == 4,
        forall|i: int, j: int|
            0 <= i < j < 4 ==> shape_cells(kind, rotation)[i] != shape_cells(kind, rotation)[j],
        forall|i: int|
            0 <= i < 4 ==> 0 <= #[trigger] shape_cells(kind, rotation)[i].0 < box_side(kind) && 0
                <= shape_cells(kind, rotation)[i].1 < box_side(kind),
{
}

/// One of the four cells in `cells` is `(x, y)`.
pub open spec fn occupies(cells: Seq<(i8, i8)>, x: int, y: int) -> bool {
    ||| cells[0].0 == x && cells[0].1 == y
    ||| cells[1].0 == x && cells[1].1 == y
    ||| cells[2].0 == x && cells[2].1 == y
    ||| cells[3].0 == x && cells[3].1 == y
}

/// Each rotation state is the one before it turned a quarter clockwise
/// inside the kind's box: cell `(x, y)` of one state becomes
/// `(side - 1 - y, x)` of the next. The O piece is the same in every state.
pub proof fn lemma_rotation_turns_a_quarter(kind: Kind, rotation: int)
    requires
        0 <= rotation < 4,
    ensures
        kind != Kind::O ==> forall|x: int, y: int|
            #[trigger] occupies(shape_cells(kind, (rotation + 1) % 4), x, y) == occupies(
                shape_cells(kind, rotation),
                y,
                box_side(kind) - 1 - x,
            ),
        kind == Kind::O ==> shape_cells(kind, rotation) == shape_cells(kind, 0),
{
}

impl Kind {
    /// All four rotation states of this kind.
    fn shape(self) -> (table: [[(i8, i8); 4]; 4])
        ensures
            forall|r: int| 0 <= r < 4 ==> (#[trigger] table@[r])@ == shape_cells(self, r),
    {
        let table = match self {
            Kind::I => [
                [(0, 1), (1, 1), (2, 1), (3, 1)],
                [(2, 0), (2, 1), (2, 2), (2, 3)],
                [(0, 2), (1, 2), (2, 2), (3, 2)],
                [(1, 0), (1, 1), (1, 2), (1, 3)],
            ],
            Kind::O => [
                [(1, 0), (2, 0), (1, 1), (2, 1)],
                [(1, 0), (2, 0), (1, 1), (2, 1)],
                [(1, 0), (2, 0), (1, 1), (2, 1)],
                [(1, 0), (2, 0), (1, 1), (2, 1)],
            ],
            Kind::T => [
                [(1, 0), (0, 1), (1, 1), (2, 1)],
                [(1, 0), (1, 1), (2, 1), (1, 2)],
                [(0, 1), (1, 1), (2, 1), (1, 2)],
                [(1, 0), (0, 1), (1, 1), (1, 2)],
            ],
            Kind::S => [
                [(1, 0), (2, 0), (0, 1), (1, 1)],
                [(1, 0), (1, 1), (2, 1), (2, 2)],
                [(1, 1), (2, 1), (0, 2), (1, 2)],
                [(0, 0), (0, 1), (1, 1), (1, 2)],
            ],
            Kind::Z => [
                [(0, 0), (1, 0), (1, 1), (2, 1)],
                [(2, 0), (1, 1), (2, 1), (1, 2)],
                [(0, 1), (1, 1), (1, 2), (2, 2)],
                [(1, 0), (0, 1), (1, 1), (0, 2)],
            ],
            Kind::J => [
                [(0, 0), (0, 1), (1, 1), (2, 1)],
                [(1, 0), (2, 0), (1, 1), (1, 2)],
                [(0, 1), (1, 1), (2, 1), (2, 2)],
                [(1, 0), (1, 1), (0, 2), (1, 2)],
            ],
            Kind::L => [
                [(2, 0), (0, 1), (1, 1), (2, 1)],
                [(1, 0), (1, 1), (1, 2), (2, 2)],
                [(0, 1), (1, 1), (2, 1), (0, 2)],
                [(0, 0), (1, 0), (1, 1), (1, 2)],
            ],
        };
        proof {
            assert(table@[0]@ =~= shape_cells(self, 0));
            assert(table@[1]@ =~= shape_cells(self, 1));
            assert(table@[2]@ =~= shape_cells(self, 2));
            assert(table@[3]@ =~= shape_cells(self, 3));
        }
        table
    }

    /// The four occupied cells for a rotation state, relative to the piece origin.
    pub fn cells(self, rotation: u8) -> (cells: [(i8, i8); 4])
        ensures
            cells@ == shape_cells(self, (rotation % 4) as int),
    {
        let table = self.shape();
        let r = (rotation % 4) as usize;
        table[r]
    }

    /// The colour this kind is drawn in.
    pub fn color(self) -> (color: Color)
        ensures
            color == color_of(self),
    {
        match self {
            Kind::I => Color::Cyan,
            Kind::O => Color::Yellow,
            Kind::T => Color::Magenta,
            Kind::S => Color::Green,
            Kind::Z => Color::Red,
            Kind::J => Color::Blue,
            Kind::L => Color::LightRed,
        }
    }

    /// Side of the rotation bounding box: 4 for I and O (O sits in the middle
    /// of a four-wide box), 3 for the rest.
    pub fn box_size(self) -> (size: i16)
        ensures
            size == box_side(self),
    {
        match self {
            Kind::I => 4,
            Kind::O => 4,
            _ => 3,
        }
    }

    /// Position of this kind in `ALL_KINDS`.
    pub fn index(self) -> (index: usize)
        ensures
            index == kind_index(self),
            all_kinds()[index as int] == self,
    {
        match self {
            Kind::I => 0,
            Kind::O => 1,
            Kind::T => 2,
            Kind::S => 3,
            Kind::Z => 4,
            Kind::J => 5,
            Kind::L => 6,
        }
    }
}

/// The terminal palette entries pieces are drawn in.
#[derive(Debug, Clone, Copy, PartialEq, Eq, Structural)]
pub enum Color {
    Cyan,
    Yellow,
    Magenta,
    Green,
    Red,
    Blue,
    LightRed,
}

/// The colour each kind is drawn in.
pub open spec fn color_of(kind: Kind) -> Color {
    match kind {
        Kind::I => Color::Cyan,
        Kind::O => Color::Yellow,
        Kind::T => Color::Magenta,
        Kind::S => Color::Green,
        Kind::Z => Color::Red,
        Kind::J => Color::Blue,
        Kind::L => Color::LightRed,
    }
}

/// Rotation direction requested by the player.
#[derive(Debug, Clone, Copy, PartialEq, Eq, Structural)]
pub enum Spin {
    Cw,
    Ccw,
    Flip,
}

/// Quarter turns clockwise that a spin adds to the rotation state.
pub open spec fn spin_steps(spin: Spin) -> int {
    match spin {
        Spin::Cw => 1,
        Spin::Ccw => 3,
        Spin::Flip => 2,
    }
}

/// The rotation state (0..4) reached from `rotation` by `spin`.
pub open spec fn turned(rotation: int, spin: Spin) -> int {
    (rotation + spin_steps(spin)) % 4
}

impl Spin {
    /// The rotation state after this spin.
    pub fn apply(self, rotation: u8) -> (next: u8)
        requires
            rotation + spin_steps(self) <= u8::MAX,
        ensures
            next == turned(rotation as int, self),
    {
        match self {
            Spin::Cw => (rotation + 1) % 4,
            Spin::Ccw => (rotation + 3) % 4,
            Spin::Flip => (rotation + 2) % 4,
        }
    }
}

/// Four clockwise turns, or two half turns, bring a rotation state back to
/// itself, and a turn one way is undone by a turn the other way.
pub proof fn lemma_turns_return(rotation: int)
    requires
        0 <= rotation < 4,
    ensures
        turned(turned(turned(turned(rotation, Spin::Cw), Spin::Cw), Spin::Cw), Spin::Cw) == rotation,
        turned(turned(rotation, Spin::Flip), Spin::Flip) == rotation,
        turned(turned(rotation, Spin::Cw), Spin::Ccw) == rotation,
        turned(turned(rotation, Spin::Ccw), Spin::Cw) == rotation,
{
}

/// Row of the SRS tables for the quarter turn `from -> to` (both in 0..4),
/// or -1 for a half turn or no turn.
pub open spec fn kick_row(from: int, to: int) -> int {
    if from == 0 && to == 1 {
        0
    } else if from == 1 && to == 0 {
        1
    } else if from == 1 && to == 2 {
        2
    } else if from == 2 && to == 1 {
        3
    } else if from == 2 && to == 3 {
        4
    } else if from == 3 && to == 2 {
        5
    } else if from == 3 && to == 0 {
        6
    } else if from == 0 && to == 3 {
        7
    } else {
        -1
    }
}

/// The SRS kick table for J, L, S, T and Z, in screen coordinates (`y` downwards).
pub open spec fn kicks_jlstz(row: int) -> Seq<(i16, i16)> {
    if row == 0 || row == 3 {
        seq![(0i16, 0i16), (-1i16, 0i16), (-1i16, -1i16), (0i16, 2i16), (-1i16, 2i16)]
    } else if row == 1 || row == 2 {
        seq![(0i16, 0i16), (1i16, 0i16), (1i16, 1i16), (0i16, -2i16), (1i16, -2i16)]
    } else if row == 4 || row == 7 {
        seq![(0i16, 0i16), (1i16, 0i16), (1i16, -1i16), (0i16, 2i16), (1i16, 2i16)]
    } else {
        seq![(0i16, 0i16), (-1i16, 0i16), (-1i16, 1i16), (0i16, -2i16), (-1i16, -2i16)]
    }
}

/// The SRS kick table for I, in screen coordinates (`y` downwards).
pub open spec fn kicks_i(row: int) -> Seq<(i16, i16)> {
    if row == 0 || row == 5 {
        seq![(0i16, 0i16), (-2i16, 0i16), (1i16, 0i16), (-2i16, 1i16), (1i16, -2i16)]
    } else if row == 1 || row == 4 {
        seq![(0i16, 0i16), (2i16, 0i16), (-1i16, 0i16), (2i16, -1i16), (-1i16, 2i16)]
    } else if row == 2 || row == 7 {
        seq![(0i16, 0i16), (-1i16, 0i16), (2i16, 0i16), (-1i16, -2i16), (2i16, 1i16)]
    } else {
        seq![(0i16, 0i16), (1i16, 0i16), (-2i16, 0i16), (1i16, 2i16), (-2i16, -1i16)]
    }
}

/// Candidate offsets tried, in order, when rotating `from -> to`.
pub open spec fn kick_tests(kind: Kind, from: int, to: int) -> Seq<(i16, i16)> {
    let row = kick_row(from % 4, to % 4);
    if kind == Kind::O {
        // The O piece is rotationally symmetric, so it never needs to kick.
        seq![(0i16, 0i16)]
    } else if row < 0 {
        // Half turns are not part of SRS: the simple case, a nudge up so a flip
        // against the floor can succeed, then one column either way.
        seq![(0i16, 0i16), (0i16, -1i16), (1i16, 0i16), (-1i16, 0i16)]
    } else if kind == Kind::I {
        kicks_i(row)
    } else {
        kicks_jlstz(row)
    }
}

/// The published SRS tests for a clockwise quarter turn from rotation state
/// `from` (0 spawn, 1 R, 2 two turns, 3 L), with `y` pointing down the
/// screen.
pub open spec fn srs_clockwise(kind: Kind, from: int) -> Seq<(int, int)> {
    if kind == Kind::I {
        if from == 0 {
            seq![(0, 0), (-2, 0), (1, 0), (-2, 1), (1, -2)]
        } else if from == 1 {
            seq![(0, 0), (-1, 0), (2, 0), (-1, -2), (2, 1)]
        } else if from == 2 {
            seq![(0, 0), (2, 0), (-1, 0), (2, -1), (-1, 2)]
        } else {
            seq![(0, 0), (1, 0), (-2, 0), (1, 2), (-2, -1)]
        }
    } else {
        if from == 0 {
            seq![(0, 0), (-1, 0), (-1, -1), (0, 2), (-1, 2)]
        } else if from == 1 {
            seq![(0, 0), (1, 0), (1, 1), (0, -2), (1, -2)]
        } else if from == 2 {
            seq![(0, 0), (1, 0), (1, -1), (0, 2), (1, 2)]
        } else {
            seq![(0, 0), (-1, 0), (-1, 1), (0, -2), (-1, -2)]
        }
    }
}

/// Which tests a rotation tries: a clockwise quarter turn tries the
/// published SRS row for that exact transition; turning back tries the same
/// offsets negated; a half turn tries staying put, one row up, then one
/// column right and left; the O piece only ever tries staying put.
pub proof fn lemma_kicks_follow_srs(kind: Kind, from: int)
    requires
        0 <= from < 4,
    ensures
        kind != Kind::O ==> {
            let cw = srs_clockwise(kind, from);
            let forward = kick_tests(kind, from, (from + 1) % 4);
            let back = kick_tests(kind, (from + 1) % 4, from);
            &&& forward.len() == 5 && back.len() == 5
            &&& forall|i: int|
                0 <= i < 5 ==> #[trigger] forward[i].0 == cw[i].0 && forward[i].1 == cw[i].1 && back[i].0 == -cw[i].0
                    && back[i].1 == -cw[i].1
        },
        kind != Kind::O ==> kick_tests(kind, from, (from + 2) % 4) == seq![
            (0i16, 0i16),
            (0i16, -1i16),
            (1i16, 0i16),
            (-1i16, 0i16),
        ],
        kind == Kind::O ==> kick_tests(kind, from, (from + 1) % 4) == seq![(0i16, 0i16)] && kick_tests(
            kind,
            (from + 1) % 4,
            from,
        ) == seq![(0i16, 0i16)],
{
}

/// Every kick moves a piece by at most two cells each way.
pub proof fn lemma_kick_offsets_small(kind: Kind, from: int, to: int)
    ensures
        forall|i: int|
            0 <= i < kick_tests(kind, from, to).len() ==> -2 <= #[trigger] kick_tests(kind, from, to)[i].0 <= 2
                && -2 <= kick_tests(kind, from, to)[i].1 <= 2,
        1 <= kick_tests(kind, from, to).len() <= 5,
{
}

/// Candidate offsets to try, in order, when rotating `from` -> `to`.
pub fn kicks(kind: Kind, from: u8, to: u8) -> (tests: Vec<(i16, i16)>)
    ensures
        tests@ == kick_tests(kind, from as int, to as int),
{
    if kind == Kind::O {
        let v = vec![(0i16, 0i16)];
        assert(v@ =~= kick_tests(kind, from as int, to as int));
        return v;
    }
    let f = from % 4;
    let t = to % 4;
    let row: u8 = if f == 0 && t == 1 {
        0
    } else if f == 1 && t == 0 {
        1
    } else if f == 1 && t == 2 {
        2
    } else if f == 2 && t == 1 {
        3
    } else if f == 2 && t == 3 {
        4
    } else if f == 3 && t == 2 {
        5
    } else if f == 3 && t == 0 {
        6
    } else if f == 0 && t == 3 {
        7
    } else {
        let v = vec![(0i16, 0i16), (0, -1), (1, 0), (-1, 0)];
        assert(v@ =~= kick_tests(kind, from as int, to as int));
        return v;
    };
    assert(row as int == kick_row((from % 4) as int, (to % 4) as int));
    let v = if kind == Kind::I {
        if row == 0 || row == 5 {
            vec![(0i16, 0i16), (-2, 0), (1, 0), (-2, 1), (1, -2)]
        } else if row == 1 || row == 4 {
            vec![(0i16, 0i16), (2, 0), (-1, 0), (2, -1), (-1, 2)]
        } else if row == 2 || row == 7 {
            vec![(0i16, 0i16), (-1, 0), (2, 0), (-1, -2), (2, 1)]
        } else {
            vec![(0i16, 0i16), (1, 0), (-2, 0), (1, 2), (-2, -1)]
        }
    } else {
        if row == 0 || row == 3 {
            vec![(0i16, 0i16), (-1, 0), (-1, -1), (0, 2), (-1, 2)]
        } else if row == 1 || row == 2 {
            vec![(0i16, 0i16), (1, 0), (1, 1), (0, -2), (1, -2)]
        } else if row == 4 || row == 7 {
            vec![(0i16, 0i16), (1, 0), (1, -1), (0, 2), (1, 2)]
        } else {
            vec![(0i16, 0i16), (-1, 0), (-1, 1), (0, -2), (-1, -2)]
        }
    };
    assert(v@ =~= kick_tests(kind, from as int, to as int));
    v
}

/// Half of `a`, rounded toward zero as Rust's integer division does.
pub open spec fn half_toward_zero(a: int) -> int {
    if a >= 0 {
        a / 2
    } else {
        -((-a) / 2)
    }
}

/// A piece in play: a kind, a rotation state and a board position.
#[derive(Debug, Clone, Copy, PartialEq, Eq, Structural)]
pub struct Piece {
    pub kind: Kind,
    pub rotation: u8,
    /// Board column of the bounding box's left edge.
    pub x: i16,
    /// Board row of the bounding box's top edge.
    pub y: i16,
}

impl Piece {
    /// Offset of cell `i` (0..4) from the piece origin.
    pub open spec fn offset(self, i: int) -> (i8, i8) {
        shape_cells(self.kind, (self.rotation % 4) as int)[i]
    }

    /// Absolute column of cell `i`.
    pub open spec fn cell_x(self, i: int) -> int {
        self.x + self.offset(i).0
    }

    /// Absolute row of cell `i`.
    pub open spec fn cell_y(self, i: int) -> int {
        self.y + self.offset(i).1
    }

    /// The absolute coordinates of every cell are representable as `i16`.
    pub open spec fn cells_in_range(self) -> bool {
        forall|i: int| 0 <= i < 4 ==> #[trigger] self.cell_x(i) <= i16::MAX && self.cell_y(i) <= i16::MAX
    }

    /// A piece whose box is not near the top of the `i16` range has all its
    /// cells representable.
    pub proof fn lemma_cells_in_range(self)
        requires
            self.x <= i16::MAX - 4,
            self.y <= i16::MAX - 4,
        ensures
            self.cells_in_range(),
    {
        lemma_shapes_are_well_formed(self.kind, (self.rotation % 4) as int);
        assert forall|i: int| 0 <= i < 4 implies #[trigger] self.cell_x(i) <= i16::MAX && self.cell_y(i) <= i16::MAX by {
            assert(0 <= shape_cells(self.kind, (self.rotation % 4) as int)[i].0 < 4);
        }
    }

    /// The same piece shifted by `(dx, dy)`.
    pub open spec fn shifted(self, dx: int, dy: int) -> Piece {
        Piece { x: (self.x + dx) as i16, y: (self.y + dy) as i16, ..self }
    }

    /// A piece at its spawn position: horizontally centred and straddling the
    /// ceiling, so its lower half is visible the moment it appears.
    pub fn spawn(kind: Kind, board_width: i16, hidden_rows: i16) -> (piece: Self)
        requires
            board_width - box_side(kind) >= i16::MIN,
            hidden_rows - 1 >= i16::MIN,
        ensures
            piece.kind == kind,
            piece.rotation == 0,
            piece.x == half_toward_zero(board_width - box_side(kind)),
            piece.y == hidden_rows - 1,
    {
        let span = board_width - kind.box_size();
        let x = if span >= 0 {
            span / 2
        } else {
            -((-(span as i32)) / 2) as i16
        };
        Self { kind, rotation: 0, x, y: hidden_rows - 1 }
    }

    /// Absolute board coordinates of the piece's four cells.
    pub fn cells(&self) -> (out: [(i16, i16); 4])
        requires
            self.cells_in_range(),
        ensures
            forall|i: int| 0 <= i < 4 ==> (#[trigger] out@[i]).0 == self.cell_x(i) && out@[i].1 == self.cell_y(i),
    {
        let offsets = self.kind.cells(self.rotation);
        proof {
            lemma_shapes_are_well_formed(self.kind, (self.rotation % 4) as int);
        }
        let mut out = [(0i16, 0i16); 4];
        let mut i: usize = 0;
        while i < 4
            invariant
                0 <= i <= 4,
                offsets@ == shape_cells(self.kind, (self.rotation % 4) as int),
                self.cells_in_range(),
                forall|j: int| 0 <= j < 4 ==> 0 <= #[trigger] offsets@[j].0 && 0 <= offsets@[j].1,
                forall|j: int| 0 <= j < i ==> (#[trigger] out@[j]).0 == self.cell_x(j) && out@[j].1 == self.cell_y(j),
            decreases 4 - i,
        {
            let (dx, dy) = offsets[i];
            assert(self.cell_x(i as int) <= i16::MAX);
            out[i] = (self.x + dx as i16, self.y + dy as i16);
            i += 1;
        }
        out
    }

    /// The same piece moved by `(dx, dy)`.
    pub fn moved(&self, dx: i16, dy: i16) -> (piece: Self)
        requires
            i16::MIN <= self.x + dx <= i16::MAX,
            i16::MIN <= self.y + dy <= i16::MAX,
        ensures
            piece == self.shifted(dx as int, dy as int),
            piece.x == self.x + dx,
            piece.y == self.y + dy,
    {
        Self { x: self.x + dx, y: self.y + dy, ..*self }
    }
}

/// The random number generator the bag shuffles with.
#[verifier::external_type_specification]
#[verifier::external_body]
pub struct ExThreadRng(rand::rngs::ThreadRng);

/// Calls `rand::rng()`: a handle to the thread-local generator. Nothing is
/// claimed of its state. On a thread's first use it seeds the generator from
/// the operating system and panics if that fails, which no `requires` here
/// can rule out.
#[verifier::external_body]
fn thread_rng() -> rand::rngs::ThreadRng {
    rand::rng()
}

/// Calls `SliceRandom::shuffle` on the seven kinds: the claim is only that
/// the result is a rearrangement of the input (the same multiset of kinds);
/// which rearrangement comes out depends on the generator.
#[verifier::external_body]
fn shuffle_kinds(kinds: &mut [Kind; 7], rng: &mut rand::rngs::ThreadRng)
    ensures
        final(kinds)@.to_multiset() == old(kinds)@.to_multiset(),
{
    kinds.shuffle(rng);
}

/// `s` is a rearrangement of the seven kinds: each kind exactly once.
pub open spec fn is_batch(s: Seq<Kind>) -> bool {
    s.to_multiset() == all_kinds().to_multiset()
}

/// A sequence made of whole batches, one after another.
pub open spec fn in_batches(s: Seq<Kind>) -> bool
    decreases s.len(),
{
    if s.len() == 0 {
        true
    } else if s.len() < 7 {
        false
    } else {
        is_batch(s.take(7)) && in_batches(s.skip(7))
    }
}

/// A batch has seven entries, holds every kind, and repeats none.
pub proof fn lemma_batch_holds_each_kind_once(s: Seq<Kind>)
    requires
        is_batch(s),
    ensures
        s.len() == 7,
        s.no_duplicates(),
        forall|k: Kind| #[trigger] s.contains(k),
{
    broadcast use vstd::seq_lib::group_to_multiset_ensures;

    let all = all_kinds();
    assert(all.no_duplicates());
    all.lemma_multiset_has_no_duplicates();
    assert forall|k: Kind| all.contains(k) by {
        assert(all[kind_index(k)] == k);
    }
    assert forall|x: Kind| s.to_multiset().contains(x) implies s.to_multiset().count(x) == 1 by {
        assert(all.contains(x));
    }
    s.lemma_multiset_has_no_duplicates_conv();
    assert(s.to_multiset().len() == s.len());
    assert(all.to_multiset().len() == all.len());
    assert(s.len() == all.len());
    assert forall|k: Kind| s.contains(k) by {
        assert(all.contains(k));
        assert(all.to_multiset().count(k) > 0);
    }
}

/// Appending a batch to a sequence of whole batches keeps it whole.
pub proof fn lemma_in_batches_append(s: Seq<Kind>, b: Seq<Kind>)
    requires
        in_batches(s),
        is_batch(b),
    ensures
        in_batches(s + b),
    decreases s.len(),
{
    broadcast use vstd::seq_lib::group_to_multiset_ensures;

    if s.len() == 0 {
        assert(s + b =~= b);
        lemma_batch_holds_each_kind_once(b);
        assert(b.take(7) =~= b);
        assert(b.skip(7) =~= Seq::<Kind>::empty());
        assert(in_batches(b.skip(7)));
        assert(in_batches(s + b));
    } else {
        lemma_in_batches_append(s.skip(7), b);
        assert((s + b).take(7) =~= s.take(7));
        assert((s + b).skip(7) =~= s.skip(7) + b);
    }
}

/// Every aligned group of seven in a sequence of whole batches is a batch.
pub proof fn lemma_in_batches_groups(s: Seq<Kind>, g: int)
    requires
        in_batches(s),
        0 <= g,
        7 * g + 7 <= s.len(),
    ensures
        is_batch(s.subrange(7 * g, 7 * g + 7)),
    decreases g,
{
    if g == 0 {
        assert(s.subrange(0, 7) =~= s.take(7));
    } else {
        lemma_in_batches_groups(s.skip(7), g - 1);
        assert(s.skip(7).subrange(7 * (g - 1), 7 * (g - 1) + 7) =~= s.subrange(7 * g, 7 * g + 7));
    }
}

/// The "7-bag" randomiser: every permutation of the seven kinds is dealt
/// before any kind repeats, which is what modern Tetris guidelines specify.
pub struct Bag {
    queue: Vec<Kind>,
    rng: rand::rngs::ThreadRng,
    dealt: Ghost<Seq<Kind>>,
}

impl View for Bag {
    type V = Seq<Kind>;

    /// The upcoming kinds, next first.
    closed spec fn view(&self) -> Seq<Kind> {
        self.queue@
    }
}

impl Bag {
    /// Every kind dealt so far, first first.
    pub closed spec fn dealt(&self) -> Seq<Kind> {
        self.dealt@
    }

    /// Every kind ever put in the bag, in order: those dealt, then those
    /// still upcoming.
    pub closed spec fn history(&self) -> Seq<Kind> {
        self.dealt@ + self.queue@
    }

    /// Between deals the bag holds one or two batches' worth of upcoming
    /// kinds, and what was dealt followed by what is queued is a run of whole
    /// batches.
    pub closed spec fn wf(&self) -> bool {
        &&& 7 <= self.queue@.len() <= 14
        &&& in_batches(self.dealt@ + self.queue@)
    }

    /// A bag holds at least a batch's worth of upcoming kinds.
    pub proof fn lemma_upcoming_len(&self)
        requires
            self.wf(),
        ensures
            7 <= self@.len() <= 14,
    {
    }

    /// The bag deals kinds in the order it shows them: if `later` grew out
    /// of `earlier` (its history extends `earlier`'s) and has dealt `n` more
    /// kinds, where `n` is at most what `earlier` showed as upcoming, those
    /// kinds are the first `n` that `earlier` showed.
    pub proof fn lemma_deals_what_it_shows(earlier: &Bag, later: &Bag)
        requires
            earlier.history().is_prefix_of(later.history()),
            earlier.dealt().len() <= later.dealt().len() <= earlier.dealt().len() + earlier@.len(),
        ensures
            later.dealt() == earlier.dealt() + earlier@.take(later.dealt().len() - earlier.dealt().len()),
    {
        let n = later.dealt().len() - earlier.dealt().len();
        assert forall|k: int| 0 <= k < later.dealt().len() implies #[trigger] later.dealt()[k] == (earlier.dealt()
            + earlier@.take(n))[k] by {
            assert(later.dealt()[k] == later.history()[k]);
            assert(later.history()[k] == earlier.history()[k]);
        }
        assert(later.dealt() =~= earlier.dealt() + earlier@.take(n));
    }

    /// Each aligned group of seven kinds dealt by a bag holds every kind once.
    pub proof fn lemma_each_seven_dealt_hold_every_kind(&self, g: int)
        requires
            self.wf(),
            0 <= g,
            7 * g + 7 <= self.dealt().len(),
        ensures
            self.dealt().subrange(7 * g, 7 * g + 7).len() == 7,
            self.dealt().subrange(7 * g, 7 * g + 7).no_duplicates(),
            forall|k: Kind| #[trigger] self.dealt().subrange(7 * g, 7 * g + 7).contains(k),
    {
        let all = self.dealt@ + self.queue@;
        lemma_in_batches_groups(all, g);
        assert(all.subrange(7 * g, 7 * g + 7) =~= self.dealt().subrange(7 * g, 7 * g + 7));
        lemma_batch_holds_each_kind_once(self.dealt().subrange(7 * g, 7 * g + 7));
    }

    /// A fresh bag holding two shuffled batches.
    pub fn new() -> (bag: Self)
        ensures
            bag.wf(),
            bag.dealt() == Seq::<Kind>::empty(),
            bag@.len() == 14,
            is_batch(bag@.take(7)),
            is_batch(bag@.skip(7)),
    {
        let mut bag = Self { queue: Vec::with_capacity(14), rng: thread_rng(), dealt: Ghost(Seq::empty()) };
        bag.refill();
        let ghost first = bag.queue@;
        assert(first.skip(0) =~= first);
        bag.refill();
        proof {
            assert(bag.queue@.take(7) =~= first);
            assert(first =~= Seq::<Kind>::empty() + first);
            lemma_in_batches_append(Seq::<Kind>::empty(), first);
            lemma_in_batches_append(first, bag.queue@.skip(7));
            assert(first + bag.queue@.skip(7) =~= bag.queue@);
            assert(bag.dealt@ + bag.queue@ =~= bag.queue@);
        }
        bag
    }

    /// Append one freshly shuffled batch.
    fn refill(&mut self)
        requires
            old(self).queue@.len() <= 14,
        ensures
            final(self).queue@.len() == old(self).queue@.len() + 7,
            final(self).queue@.take(old(self).queue@.len() as int) == old(self).queue@,
            is_batch(final(self).queue@.skip(old(self).queue@.len() as int)),
            final(self).dealt() == old(self).dealt(),
    {
        let mut batch = ALL_KINDS;
        assert(batch@ =~= all_kinds());
        let ghost unshuffled = batch@;
        shuffle_kinds(&mut batch, &mut self.rng);
        assert(batch@.to_multiset() == unshuffled.to_multiset());
        assert(is_batch(batch@));
        let ghost before = self.queue@;
        let mut i: usize = 0;
        while i < 7
            invariant
                i <= 7,
                self.queue@.len() == before.len() + i,
                self.queue@.take(before.len() as int) == before,
                self.queue@.skip(before.len() as int) == batch@.take(i as int),
                self.dealt() == old(self).dealt(),
            decreases 7 - i,
        {
            self.queue.push(batch[i]);
            i += 1;
            assert(self.queue@.take(before.len() as int) =~= before);
            assert(self.queue@.skip(before.len() as int) =~= batch@.take(i as int));
        }
        assert(batch@.take(7) =~= batch@);
        assert(self.queue@.skip(before.len() as int) == batch@);
        assert(old(self).queue@ == before);
        assert(is_batch(self.queue@.skip(old(self).queue@.len() as int)));
    }

    /// Deal the next kind.
    pub fn next(&mut self) -> (kind: Kind)
        requires
            old(self).wf(),
        ensures
            final(self).wf(),
            kind == old(self)@[0],
            final(self).dealt() == old(self).dealt().push(kind),
            old(self).history().is_prefix_of(final(self).history()),
            old(self)@.len() > 7 ==> final(self)@ == old(self)@.drop_first(),
            old(self)@.len() <= 7 ==> final(self)@.take(old(self)@.len() - 1) == old(self)@.drop_first()
                && final(self)@.len() == old(self)@.len() + 6
                && is_batch(final(self)@.skip(old(self)@.len() - 1)),
    {
        let ghost before = self.queue@;
        if self.queue.len() <= 7 {
            self.refill();
            assert(before.len() <= 7);
            proof {
                lemma_in_batches_append(self.dealt@ + before, self.queue@.skip(before.len() as int));
                assert(self.dealt@ + before + self.queue@.skip(before.len() as int) =~= self.dealt@ + self.queue@);
            }
        }
        let ghost refilled = self.queue@;
        let kind = self.queue.remove(0);
        proof {
            assert(in_batches(self.dealt@ + refilled));
            let old_all = self.dealt@ + refilled;
            assert(refilled =~= self.queue@.insert(0, kind));
            self.dealt@ = self.dealt@.push(kind);
            assert(self.dealt@ + self.queue@ =~= old_all);
            if before.len() <= 7 {
                assert(self.queue@.take(before.len() - 1) =~= before.drop_first());
                assert(self.queue@.skip(before.len() - 1) =~= refilled.skip(before.len() as int));
            } else {
                assert(self.queue@ =~= before.drop_first());
            }
        }
        kind
    }

    /// Peek at the upcoming kinds without consuming them.
    pub fn preview(&self, count: usize) -> (upcoming: Vec<Kind>)
        ensures
            upcoming@ == self@.take(if count < self@.len() { count as int } else { self@.len() as int }),
    {
        let n = if count < self.queue.len() {
            count
        } else {
            self.queue.len()
        };
        let mut out: Vec<Kind> = Vec::with_capacity(n);
        let mut i: usize = 0;
        while i < n
            invariant
                n <= self@.len(),
                i <= n,
                self@ == self.queue@,
                out@ == self@.take(i as int),
            decreases n - i,
        {
            out.push(self.queue[i]);
            i += 1;
            assert(out@ =~= self@.take(i as int));
        }
        out
    }
}

impl Default for Bag {
    /// A fresh bag holding two shuffled batches.
    fn default() -> (bag: Self)
        ensures
            bag.wf(),
            bag.dealt() == Seq::<Kind>::empty(),
            bag@.len() == 14,
            is_batch(bag@.take(7)),
            is_batch(bag@.skip(7)),
    {
        Self::new()
    }
}

} // verus!
