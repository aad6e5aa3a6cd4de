//! The playfield: a fixed grid of locked cells plus collision and line-clear logic.

use vstd::prelude::*;
use crate::tetromino::{Kind, Piece, lemma_shapes_are_well_formed, shape_cells};

verus! {

pub const WIDTH: i16 = 10;

/// Rows above the visible playfield, where pieces spawn and rotate.
pub const HIDDEN_ROWS: i16 = 4;

pub const VISIBLE_ROWS: i16 = 20;

pub const HEIGHT: i16 = HIDDEN_ROWS + VISIBLE_ROWS;

/// Number of cells in the grid.
pub open spec fn grid_len() -> int {
    WIDTH * HEIGHT
}

/// Is `(x, y)` a cell of the grid?
pub open spec fn in_grid(x: int, y: int) -> bool {
    0 <= x < WIDTH && 0 <= y < HEIGHT
}

/// Position of cell `(x, y)` in the row-major cell sequence.
pub open spec fn cell_index(x: int, y: int) -> int {
    y * 10 + x
}

/// The content of cell `(x, y)`; everything outside the grid reads as empty.
pub open spec fn cell_at(cells: Seq<Option<Kind>>, x: int, y: int) -> Option<Kind> {
    if in_grid(x, y) {
        cells[cell_index(x, y)]
    } else {
        None
    }
}

/// Walls and floor block; the open sky above the grid does not; inside the
/// grid a cell blocks when it is filled.
pub open spec fn blocked_at(cells: Seq<Option<Kind>>, x: int, y: int) -> bool {
    if !(0 <= x < WIDTH) || y >= HEIGHT {
        true
    } else if y < 0 {
        false
    } else {
        cells[cell_index(x, y)] is Some
    }
}

/// A piece of `kind` in rotation state `rotation` with its box at `(x, y)`
/// overlaps nothing.
pub open spec fn fits_at(cells: Seq<Option<Kind>>, kind: Kind, rotation: u8, x: int, y: int) -> bool {
    let offsets = shape_cells(kind, (rotation % 4) as int);
    forall|i: int| 0 <= i < 4 ==> !#[trigger] blocked_at(cells, x + offsets[i].0, y + offsets[i].1)
}

/// The piece overlaps nothing where it stands.
pub open spec fn piece_fits(cells: Seq<Option<Kind>>, piece: Piece) -> bool {
    fits_at(cells, piece.kind, piece.rotation, piece.x as int, piece.y as int)
}

/// `cells` with `(x, y)` set to `value`; positions outside the grid are ignored.
pub open spec fn set_cell(cells: Seq<Option<Kind>>, x: int, y: int, value: Option<Kind>) -> Seq<
    Option<Kind>,
> {
    if in_grid(x, y) {
        cells.update(cell_index(x, y), value)
    } else {
        cells
    }
}

/// `cells` with the piece's four cells written in, in order.
pub open spec fn locked_cells(cells: Seq<Option<Kind>>, piece: Piece) -> Seq<Option<Kind>> {
    let v = Some(piece.kind);
    let c0 = set_cell(cells, piece.cell_x(0), piece.cell_y(0), v);
    let c1 = set_cell(c0, piece.cell_x(1), piece.cell_y(1), v);
    let c2 = set_cell(c1, piece.cell_x(2), piece.cell_y(2), v);
    set_cell(c2, piece.cell_x(3), piece.cell_y(3), v)
}

/// Every cell of row `y` is filled.
pub open spec fn row_full(cells: Seq<Option<Kind>>, y: int) -> bool {
    forall|x: int| 0 <= x < WIDTH ==> #[trigger] cells[cell_index(x, y)] is Some
}

/// The rows of `lo..HEIGHT` that are not full, top to bottom.
pub open spec fn kept_rows(cells: Seq<Option<Kind>>, lo: int) -> Seq<int>
    decreases HEIGHT - lo,
{
    if lo >= HEIGHT || lo < 0 {
        Seq::empty()
    } else if row_full(cells, lo) {
        kept_rows(cells, lo + 1)
    } else {
        seq![lo].add(kept_rows(cells, lo + 1))
    }
}

/// The rows of `lo..HEIGHT` that are full, top to bottom.
pub open spec fn full_rows_from(cells: Seq<Option<Kind>>, lo: int) -> Seq<int>
    decreases HEIGHT - lo,
{
    if lo >= HEIGHT || lo < 0 {
        Seq::empty()
    } else if row_full(cells, lo) {
        seq![lo].add(full_rows_from(cells, lo + 1))
    } else {
        full_rows_from(cells, lo + 1)
    }
}

/// The grid after every full row is removed and the rows above fall into
/// place: `n` empty rows on top, then the surviving rows in their order.
pub open spec fn cleared_cells(cells: Seq<Option<Kind>>) -> Seq<Option<Kind>> {
    let kept = kept_rows(cells, 0);
    let n = HEIGHT - kept.len();
    Seq::new(
        grid_len() as nat,
        |i: int|
            if i / 10 < n {
                None
            } else {
                cells[cell_index(i % 10, kept[i / 10 - n])]
            },
    )
}

/// How far a piece of `kind`/`rotation` at `(x, y)` can still fall, once it
/// has already been moved down by `d` rows.
pub open spec fn drop_from(cells: Seq<Option<Kind>>, kind: Kind, rotation: u8, x: int, y: int, d: int) -> int
    decreases HEIGHT - y - d,
{
    if d < 0 {
        0
    } else if fits_at(cells, kind, rotation, x, y + d + 1) {
        proof {
            lemma_shapes_are_well_formed(kind, (rotation % 4) as int);
            assert(!blocked_at(cells, x + shape_cells(kind, (rotation % 4) as int)[0].0, y + d + 1 + shape_cells(kind, (rotation % 4) as int)[0].1));
        }
        drop_from(cells, kind, rotation, x, y, d + 1)
    } else {
        d
    }
}

/// How many rows the piece can fall before it lands.
pub open spec fn drop_distance_of(cells: Seq<Option<Kind>>, piece: Piece) -> int {
    drop_from(cells, piece.kind, piece.rotation, piece.x as int, piece.y as int, 0)
}

/// A locked-in playfield. `None` is empty; `Some(kind)` keeps the colour of
/// whichever piece came to rest there.
#[derive(Debug)]
pub struct Board {
    cells: Vec<Option<Kind>>,
}

impl View for Board {
    type V = Seq<Option<Kind>>;

    /// The cells, row by row; a board always has one per cell of the grid.
    closed spec fn view(&self) -> Seq<Option<Kind>> {
        if self.cells@.len() == grid_len() {
            self.cells@
        } else {
            Seq::new(grid_len() as nat, |i: int| None::<Kind>)
        }
    }
}

impl Board {
    /// A board has one entry per cell of the grid.
    pub proof fn lemma_has_every_cell(&self)
        ensures
            self@.len() == grid_len(),
    {
    }

    /// The grid holds exactly one entry per cell.
    #[verifier::type_invariant]
    spec fn has_every_cell(self) -> bool {
        self.cells@.len() == grid_len()
    }

    /// An empty playfield.
    pub fn new() -> (board: Self)
        ensures
            board@ == Seq::new(grid_len() as nat, |i: int| None::<Kind>),
    {
        let mut cells: Vec<Option<Kind>> = Vec::with_capacity((WIDTH * HEIGHT) as usize);
        let mut i: usize = 0;
        while i < (WIDTH * HEIGHT) as usize
            invariant
                i <= grid_len(),
                cells@.len() == i,
                forall|j: int| 0 <= j < i ==> cells@[j] is None,
            decreases grid_len() - i,
        {
            cells.push(None);
            i += 1;
        }
        let board = Self { cells };
        assert(board@ =~= Seq::new(grid_len() as nat, |i: int| None::<Kind>));
        board
    }

    /// Position of cell `(x, y)` in the cell vector.
    fn index(x: i16, y: i16) -> (i: usize)
        requires
            in_grid(x as int, y as int),
        ensures
            i == cell_index(x as int, y as int),
            i < grid_len(),
    {
        (y * WIDTH + x) as usize
    }

    /// The content of cell `(x, y)`; outside the grid everything is empty.
    pub fn get(&self, x: i16, y: i16) -> (cell: Option<Kind>)
        ensures
            cell == cell_at(self@, x as int, y as int),
    {
        proof {
            use_type_invariant(self);
        }
        if 0 <= x && x < WIDTH && 0 <= y && y < HEIGHT {
            self.cells[Self::index(x, y)]
        } else {
            None
        }
    }

    /// Overwrite cell `(x, y)`; positions outside the grid are ignored.
    pub fn set(&mut self, x: i16, y: i16, kind: Option<Kind>)
        ensures
            final(self)@ == set_cell(old(self)@, x as int, y as int, kind),
    {
        proof {
            use_type_invariant(&*self);
        }
        if 0 <= x && x < WIDTH && 0 <= y && y < HEIGHT {
            let i = Self::index(x, y);
            self.cells[i] = kind;
        }
    }

    /// Is this cell blocked, either by a wall/floor or by a locked cell?
    pub fn is_blocked(&self, x: i16, y: i16) -> (blocked: bool)
        ensures
            blocked == blocked_at(self@, x as int, y as int),
    {
        proof {
            use_type_invariant(self);
        }
        if !(0 <= x && x < WIDTH) || y >= HEIGHT {
            return true;
        }
        // Above the field is open air: pieces may rotate and move up there.
        if y < 0 {
            return false;
        }
        self.cells[Self::index(x, y)].is_some()
    }

    /// Can this piece occupy its current position without overlapping anything?
    pub fn fits(&self, piece: &Piece) -> (fits: bool)
        requires
            piece.cells_in_range(),
        ensures
            fits == piece_fits(self@, *piece),
    {
        let cells = piece.cells();
        let mut i: usize = 0;
        while i < 4
            invariant
                0 <= i <= 4,
                forall|j: int| 0 <= j < 4 ==> (#[trigger] cells@[j]).0 == piece.cell_x(j) && cells@[j].1 == piece.cell_y(j),
                forall|j: int| 0 <= j < i ==> !#[trigger] blocked_at(self@, piece.cell_x(j), piece.cell_y(j)),
            decreases 4 - i,
        {
            let (x, y) = cells[i];
            if self.is_blocked(x, y) {
                return false;
            }
            i += 1;
        }
        assert forall|i: int| 0 <= i < 4 implies !#[trigger] blocked_at(
            self@,
            piece.x + shape_cells(piece.kind, (piece.rotation % 4) as int)[i].0,
            piece.y + shape_cells(piece.kind, (piece.rotation % 4) as int)[i].1,
        ) by {
            assert(!blocked_at(self@, piece.cell_x(i), piece.cell_y(i)));
        }
        true
    }

    /// Write the piece's cells into the grid.
    pub fn lock(&mut self, piece: &Piece)
        requires
            piece.cells_in_range(),
        ensures
            final(self)@ == locked_cells(old(self)@, *piece),
    {
        let cells = piece.cells();
        let (x0, y0) = cells[0];
        self.set(x0, y0, Some(piece.kind));
        let (x1, y1) = cells[1];
        self.set(x1, y1, Some(piece.kind));
        let (x2, y2) = cells[2];
        self.set(x2, y2, Some(piece.kind));
        let (x3, y3) = cells[3];
        self.set(x3, y3, Some(piece.kind));
    }

    /// Is every cell of row `y` filled?
    fn row_is_full(&self, y: i16) -> (full: bool)
        requires
            0 <= y < HEIGHT,
        ensures
            full == row_full(self@, y as int),
    {
        proof {
            use_type_invariant(self);
        }
        let mut x: i16 = 0;
        while x < WIDTH
            invariant
                0 <= x <= WIDTH,
                0 <= y < HEIGHT,
                self.cells@.len() == grid_len(),
                self@ == self.cells@,
                forall|k: int| 0 <= k < x ==> #[trigger] self@[cell_index(k, y as int)] is Some,
            decreases WIDTH - x,
        {
            if self.cells[Self::index(x, y)].is_none() {
                return false;
            }
            x += 1;
        }
        true
    }

    /// Remove every full row, shifting the rows above down. Returns how many
    /// rows were cleared.
    pub fn clear_full_rows(&mut self) -> (cleared: usize)
        ensures
            final(self)@ == cleared_cells(old(self)@),
            cleared == full_rows_from(old(self)@, 0).len(),
            cleared == HEIGHT - kept_rows(old(self)@, 0).len(),
    {
        proof {
            use_type_invariant(&*self);
        }
        let ghost start = self@;
        let mut write: i16 = HEIGHT - 1;
        let mut cleared: usize = 0;
        let mut read: i16 = HEIGHT;
        proof {
            lemma_kept_and_full_partition(start, HEIGHT as int);
        }
        while read > 0
            invariant
                0 <= read <= HEIGHT,
                self.cells@.len() == grid_len(),
                self@ == self.cells@,
                start.len() == grid_len(),
                kept_rows(start, read as int).len() + full_rows_from(start, read as int).len() == HEIGHT - read,
                write == HEIGHT - 1 - kept_rows(start, read as int).len(),
                cleared == full_rows_from(start, read as int).len(),
                // Rows below the write position hold the surviving rows, in order.
                forall|t: int, x: int|
                    write < t < HEIGHT && 0 <= x < WIDTH ==> #[trigger] self@[cell_index(x, t)] == start[cell_index(
                        x,
                        kept_rows(start, read as int)[t - write - 1],
                    )],
                // Rows above the read position are untouched.
                forall|t: int, x: int|
                    0 <= t < read && 0 <= x < WIDTH ==> #[trigger] self@[cell_index(x, t)] == start[cell_index(x, t)],
            decreases read,
        {
            read -= 1;
            proof {
                lemma_kept_and_full_partition(start, read as int);
                lemma_row_full_same(self@, start, read as int);
            }
            let full = self.row_is_full(read);
            if full {
                cleared += 1;
                assert forall|t: int, x: int|
                    write < t < HEIGHT && 0 <= x < WIDTH implies #[trigger] self@[cell_index(x, t)] == start[cell_index(
                        x,
                        kept_rows(start, read as int)[t - write - 1],
                    )] by {
                    assert(kept_rows(start, read as int) == kept_rows(start, read + 1));
                }
            } else {
                let ghost before = self@;
                let ghost kept_below = kept_rows(start, read + 1);
                assert(kept_rows(start, read as int) == seq![read as int].add(kept_below));
                if write != read {
                    let mut x: i16 = 0;
                    while x < WIDTH
                        invariant
                            0 <= x <= WIDTH,
                            0 <= read < write < HEIGHT,
                            self.cells@.len() == grid_len(),
                            self@ == self.cells@,
                            before.len() == grid_len(),
                            forall|t: int, k: int|
                                0 <= t < HEIGHT && t != write && 0 <= k < WIDTH ==> #[trigger] self@[cell_index(k, t)]
                                    == before[cell_index(k, t)],
                            forall|k: int|
                                0 <= k < x ==> #[trigger] self@[cell_index(k, write as int)] == before[cell_index(
                                    k,
                                    read as int,
                                )],
                            forall|k: int|
                                x <= k < WIDTH ==> #[trigger] self@[cell_index(k, write as int)] == before[cell_index(
                                    k,
                                    write as int,
                                )],
                        decreases WIDTH - x,
                    {
                        let cell = self.cells[Self::index(x, read)];
                        let i = Self::index(x, write);
                        self.cells[i] = cell;
                        x += 1;
                    }
                }
                assert forall|t: int, x: int|
                    write - 1 < t < HEIGHT && 0 <= x < WIDTH implies #[trigger] self@[cell_index(x, t)] == start[cell_index(
                        x,
                        kept_rows(start, read as int)[t - (write - 1) - 1],
                    )] by {
                    if t == write {
                        assert(kept_rows(start, read as int)[0] == read);
                    } else {
                        assert(kept_rows(start, read as int)[t - write] == kept_below[t - write - 1]);
                    }
                }
                write -= 1;
            }
        }
        // Everything at or above `write` is now vacated.
        let ghost packed = self@;
        let mut y: i16 = 0;
        while y <= write
            invariant
                0 <= y <= write + 1,
                -1 <= write < HEIGHT,
                self.cells@.len() == grid_len(),
                self@ == self.cells@,
                forall|t: int, x: int|
                    0 <= t < y && 0 <= x < WIDTH ==> #[trigger] self@[cell_index(x, t)] is None,
                forall|t: int, x: int|
                    y <= t < HEIGHT && 0 <= x < WIDTH ==> #[trigger] self@[cell_index(x, t)] == packed[cell_index(x, t)],
            decreases write + 1 - y,
        {
            let mut x: i16 = 0;
            while x < WIDTH
                invariant
                    0 <= x <= WIDTH,
                    0 <= y <= write < HEIGHT,
                    self.cells@.len() == grid_len(),
                    self@ == self.cells@,
                    forall|t: int, k: int|
                        0 <= t < y && 0 <= k < WIDTH ==> #[trigger] self@[cell_index(k, t)] is None,
                    forall|k: int| 0 <= k < x ==> #[trigger] self@[cell_index(k, y as int)] is None,
                    forall|t: int, k: int|
                        y <= t < HEIGHT && 0 <= k < WIDTH && !(t == y && k < x) ==> #[trigger] self@[cell_index(k, t)]
                            == packed[cell_index(k, t)],
                decreases WIDTH - x,
            {
                let i = Self::index(x, y);
                self.cells[i] = None;
                x += 1;
            }
            y += 1;
        }
        proof {
            lemma_cells_eq_pointwise(self@, cleared_cells(start));
        }
        cleared
    }

    /// Indices of every currently full row, top to bottom.
    pub fn full_rows(&self) -> (rows: Vec<i16>)
        ensures
            rows@.len() == full_rows_from(self@, 0).len(),
            forall|i: int| 0 <= i < rows@.len() ==> #[trigger] rows@[i] as int == full_rows_from(self@, 0)[i],
            forall|i: int, j: int| 0 <= i < j < rows@.len() ==> rows@[i] < rows@[j],
            forall|y: i16| rows@.contains(y) <==> 0 <= y < HEIGHT && row_full(self@, y as int),
    {
        let mut rows: Vec<i16> = Vec::new();
        let mut y: i16 = HEIGHT;
        let mut found: Vec<i16> = Vec::new();
        // Scan bottom-up, then reverse, so the result follows the recursion.
        while y > 0
            invariant
                0 <= y <= HEIGHT,
                found@.len() == full_rows_from(self@, y as int).len(),
                forall|i: int|
                    0 <= i < found@.len() ==> #[trigger] found@[i] as int == full_rows_from(self@, y as int)[found@.len()
                        - 1 - i],
            decreases y,
        {
            y -= 1;
            if self.row_is_full(y) {
                found.push(y);
            }
        }
        let mut k: usize = found.len();
        while k > 0
            invariant
                k <= found@.len(),
                found@.len() == full_rows_from(self@, 0).len(),
                forall|i: int|
                    0 <= i < found@.len() ==> #[trigger] found@[i] as int == full_rows_from(self@, 0)[found@.len() - 1
                        - i],
                rows@.len() == found@.len() - k,
                forall|i: int| 0 <= i < rows@.len() ==> #[trigger] rows@[i] as int == full_rows_from(self@, 0)[i],
            decreases k,
        {
            k -= 1;
            rows.push(found[k]);
        }
        proof {
            lemma_full_rows_are_the_full_rows(self@, 0);
            lemma_kept_and_full_partition(self@, 0);
            let fr = full_rows_from(self@, 0);
            assert forall|y: i16| rows@.contains(y) <==> 0 <= y < HEIGHT && row_full(self@, y as int) by {
                if rows@.contains(y) {
                    let i = choose|i: int| 0 <= i < rows@.len() && rows@[i] == y;
                    assert(0 <= i < fr.len());
                    assert(rows@[i] as int == fr[i]);
                    assert(0 <= fr[i] < HEIGHT);
                    assert(fr.contains(y as int));
                    assert(0 <= y < HEIGHT && row_full(self@, y as int));
                }
                if 0 <= y < HEIGHT && row_full(self@, y as int) {
                    assert(fr.contains(y as int));
                    let i = choose|i: int| 0 <= i < fr.len() && fr[i] == y as int;
                    assert(rows@[i] as int == fr[i]);
                    assert(rows@[i] == y);
                    assert(rows@.contains(y));
                }
            }
        }
        rows
    }

    /// True when no cell anywhere is filled; used for perfect-clear bonuses.
    pub fn is_empty(&self) -> (empty: bool)
        ensures
            empty == (forall|i: int| 0 <= i < self@.len() ==> #[trigger] self@[i] is None),
    {
        proof {
            use_type_invariant(self);
        }
        let mut i: usize = 0;
        while i < self.cells.len()
            invariant
                i <= self@.len(),
                self@ == self.cells@,
                forall|j: int| 0 <= j < i ==> #[trigger] self@[j] is None,
            decreases self@.len() - i,
        {
            if self.cells[i].is_some() {
                return false;
            }
            i += 1;
        }
        true
    }

    /// How far this piece can fall before it lands.
    pub fn drop_distance(&self, piece: &Piece) -> (distance: i16)
        requires
            piece.shifted(0, 1).cells_in_range(),
            piece.y + 1 <= i16::MAX,
            piece.y >= HEIGHT - i16::MAX,
        ensures
            distance == drop_distance_of(self@, *piece),
            distance >= 0,
            distance == 0 || piece.y + distance < HEIGHT,
    {
        let mut distance: i16 = 0;
        proof {
            lemma_shapes_are_well_formed(piece.kind, (piece.rotation % 4) as int);
        }
        loop
            invariant
                0 <= distance,
                distance == 0 || piece.y + distance < HEIGHT,
                piece.y + 1 <= i16::MAX,
                piece.y >= HEIGHT - i16::MAX,
                piece.shifted(0, distance + 1).cells_in_range(),
                drop_from(self@, piece.kind, piece.rotation, piece.x as int, piece.y as int, distance as int)
                    == drop_distance_of(self@, *piece),
                forall|j: int|
                    0 <= j < 4 ==> 0 <= #[trigger] shape_cells(piece.kind, (piece.rotation % 4) as int)[j].1 < 4,
            decreases HEIGHT - piece.y - distance,
        {
            let candidate = piece.moved(0, distance + 1);
            if !self.fits(&candidate) {
                return distance;
            }
            proof {
                assert(!blocked_at(self@, candidate.cell_x(0), candidate.cell_y(0)));
            }
            distance += 1;
        }
    }

    /// Where the piece would come to rest if hard-dropped from here.
    pub fn ghost(&self, piece: &Piece) -> (landed: Piece)
        requires
            piece.shifted(0, 1).cells_in_range(),
            piece.y + 1 <= i16::MAX,
            piece.y >= HEIGHT - i16::MAX,
        ensures
            landed == piece.shifted(0, drop_distance_of(self@, *piece)),
    {
        let d = self.drop_distance(piece);
        piece.moved(0, d)
    }
}

impl Clone for Board {
    /// A copy of this board with the same cells.
    fn clone(&self) -> (copy: Self)
        ensures
            copy@ == self@,
    {
        proof {
            use_type_invariant(self);
        }
        let mut cells: Vec<Option<Kind>> = Vec::with_capacity(self.cells.len());
        let mut i: usize = 0;
        while i < self.cells.len()
            invariant
                i <= self@.len(),
                self@ == self.cells@,
                self@.len() == grid_len(),
                cells@ == self@.subrange(0, i as int),
            decreases self@.len() - i,
        {
            cells.push(self.cells[i]);
            i += 1;
            assert(cells@ =~= self@.subrange(0, i as int));
        }
        assert(cells@ =~= self@);
        Self { cells }
    }
}

impl Default for Board {
    /// An empty playfield.
    fn default() -> (board: Self)
        ensures
            board@ == Seq::new(grid_len() as nat, |i: int| None::<Kind>),
    {
        Self::new()
    }
}

/// Reading a cell gives back what was last written there; writing one cell
/// leaves every other cell as it was, and a write outside the grid changes
/// nothing.
pub proof fn lemma_get_after_set(cells: Seq<Option<Kind>>, x: int, y: int, value: Option<Kind>, qx: int, qy: int)
    requires
        cells.len() == grid_len(),
    ensures
        set_cell(cells, x, y, value).len() == grid_len(),
        cell_at(set_cell(cells, x, y, value), qx, qy) == if in_grid(x, y) && qx == x && qy == y {
            value
        } else {
            cell_at(cells, qx, qy)
        },
{
}

/// Locking writes the piece's kind into each of its cells inside the grid
/// and leaves every cell it does not cover as it was.
pub proof fn lemma_lock_writes_the_piece(cells: Seq<Option<Kind>>, piece: Piece, qx: int, qy: int)
    requires
        cells.len() == grid_len(),
    ensures
        locked_cells(cells, piece).len() == grid_len(),
        (exists|i: int| 0 <= i < 4 && #[trigger] piece.cell_x(i) == qx && piece.cell_y(i) == qy) && in_grid(qx, qy)
            ==> cell_at(locked_cells(cells, piece), qx, qy) == Some(piece.kind),
        !(exists|i: int| 0 <= i < 4 && #[trigger] piece.cell_x(i) == qx && piece.cell_y(i) == qy) ==> cell_at(
            locked_cells(cells, piece),
            qx,
            qy,
        ) == cell_at(cells, qx, qy),
{
    let v = Some(piece.kind);
    let c0 = set_cell(cells, piece.cell_x(0), piece.cell_y(0), v);
    let c1 = set_cell(c0, piece.cell_x(1), piece.cell_y(1), v);
    let c2 = set_cell(c1, piece.cell_x(2), piece.cell_y(2), v);
    lemma_get_after_set(cells, piece.cell_x(0), piece.cell_y(0), v, qx, qy);
    lemma_get_after_set(c0, piece.cell_x(1), piece.cell_y(1), v, qx, qy);
    lemma_get_after_set(c1, piece.cell_x(2), piece.cell_y(2), v, qx, qy);
    lemma_get_after_set(c2, piece.cell_x(3), piece.cell_y(3), v, qx, qy);
}

/// A drop never goes up, and a piece that moved lands inside the grid.
pub proof fn lemma_drop_from_bounds(cells: Seq<Option<Kind>>, kind: Kind, rotation: u8, x: int, y: int, d: int)
    requires
        d >= 0,
    ensures
        drop_from(cells, kind, rotation, x, y, d) >= d,
        drop_from(cells, kind, rotation, x, y, d) == d || y + drop_from(cells, kind, rotation, x, y, d) < HEIGHT,
    decreases HEIGHT - y - d,
{
    lemma_shapes_are_well_formed(kind, (rotation % 4) as int);
    if fits_at(cells, kind, rotation, x, y + d + 1) {
        let offsets = shape_cells(kind, (rotation % 4) as int);
        assert(!blocked_at(cells, x + offsets[0].0, y + d + 1 + offsets[0].1));
        lemma_drop_from_bounds(cells, kind, rotation, x, y, d + 1);
    }
}

/// From a position where the piece fits, dropping comes to rest where the
/// piece still fits and one row lower it would not.
proof fn lemma_drop_from_lands(cells: Seq<Option<Kind>>, kind: Kind, rotation: u8, x: int, y: int, d: int)
    requires
        d >= 0,
        fits_at(cells, kind, rotation, x, y + d),
    ensures
        drop_from(cells, kind, rotation, x, y, d) >= d,
        fits_at(cells, kind, rotation, x, y + drop_from(cells, kind, rotation, x, y, d)),
        !fits_at(cells, kind, rotation, x, y + drop_from(cells, kind, rotation, x, y, d) + 1),
        y + drop_from(cells, kind, rotation, x, y, d) < HEIGHT,
    decreases HEIGHT - y - d,
{
    lemma_shapes_are_well_formed(kind, (rotation % 4) as int);
    let offsets = shape_cells(kind, (rotation % 4) as int);
    assert(!blocked_at(cells, x + offsets[0].0, y + d + offsets[0].1));
    if fits_at(cells, kind, rotation, x, y + d + 1) {
        assert(!blocked_at(cells, x + offsets[0].0, y + d + 1 + offsets[0].1));
        lemma_drop_from_lands(cells, kind, rotation, x, y, d + 1);
    }
}

/// Dropping stops where one row lower would not fit, and where it moved at
/// all the piece fits.
proof fn lemma_drop_from_stops(cells: Seq<Option<Kind>>, kind: Kind, rotation: u8, x: int, y: int, d: int)
    requires
        d >= 0,
    ensures
        !fits_at(cells, kind, rotation, x, y + drop_from(cells, kind, rotation, x, y, d) + 1),
        drop_from(cells, kind, rotation, x, y, d) > d ==> fits_at(
            cells,
            kind,
            rotation,
            x,
            y + drop_from(cells, kind, rotation, x, y, d),
        ),
    decreases HEIGHT - y - d,
{
    lemma_shapes_are_well_formed(kind, (rotation % 4) as int);
    if fits_at(cells, kind, rotation, x, y + d + 1) {
        let offsets = shape_cells(kind, (rotation % 4) as int);
        assert(!blocked_at(cells, x + offsets[0].0, y + d + 1 + offsets[0].1));
        lemma_drop_from_stops(cells, kind, rotation, x, y, d + 1);
    }
}

/// The ghost of any piece is where it comes to rest: it is the piece moved
/// straight down, no higher than before and inside the grid's rows once it
/// has moved; it fits wherever it moved to (and wherever the piece already
/// fitted); it cannot fall one row further; and the ghost of the ghost is
/// the ghost itself.
pub proof fn lemma_ghost_rests_on_the_stack(cells: Seq<Option<Kind>>, piece: Piece)
    requires
        piece.y < i16::MAX,
    ensures
        ({
            let d = drop_distance_of(cells, piece);
            let g = piece.shifted(0, d);
            &&& d >= 0
            &&& d == 0 || piece.y + d < HEIGHT
            &&& g.kind == piece.kind && g.rotation == piece.rotation && g.x == piece.x && g.y == piece.y + d
            &&& (d > 0 || piece_fits(cells, piece)) ==> piece_fits(cells, g)
            &&& piece_fits(cells, piece) ==> piece.y + d < HEIGHT
            &&& !piece_fits(cells, g.shifted(0, 1))
            &&& drop_distance_of(cells, g) == 0
            &&& g.shifted(0, drop_distance_of(cells, g)) == g
        }),
{
    let (k, r, x, y) = (piece.kind, piece.rotation, piece.x as int, piece.y as int);
    lemma_drop_from_bounds(cells, k, r, x, y, 0);
    lemma_drop_from_stops(cells, k, r, x, y, 0);
    let d = drop_distance_of(cells, piece);
    let g = piece.shifted(0, d);
    assert(g.y == piece.y + d);
    assert(g.shifted(0, 1).y == g.y + 1);
    if piece_fits(cells, piece) {
        lemma_fitting_piece_position(cells, piece);
        if d == 0 {
            assert(g == piece);
        }
    }
    assert(!fits_at(cells, k, r, x, g.y + 1));
    assert(drop_from(cells, k, r, x, g.y as int, 0) == 0);
    assert(g.shifted(0, 0) == g);
}

/// After the full rows are cleared no row is full, and clearing again
/// removes nothing.
pub proof fn lemma_clearing_leaves_no_full_row(cells: Seq<Option<Kind>>)
    requires
        cells.len() == grid_len(),
    ensures
        full_rows_from(cleared_cells(cells), 0).len() == 0,
        cleared_cells(cleared_cells(cells)) == cleared_cells(cells),
{
    let after = cleared_cells(cells);
    let kept = kept_rows(cells, 0);
    let n = HEIGHT - kept.len();
    lemma_kept_and_full_partition(cells, 0);
    lemma_kept_rows_are_not_full(cells, 0);
    assert forall|y: int| 0 <= y < HEIGHT implies !row_full(after, y) by {
        lemma_cleared_cell(cells, 0, y);
        if y < n {
            assert(after[cell_index(0, y)] is None);
        } else {
            let src = kept[y - n];
            assert(!row_full(cells, src));
            let x = choose|x: int| 0 <= x < WIDTH && !(cells[cell_index(x, src)] is Some);
            lemma_cleared_cell(cells, x, y);
        }
    }
    lemma_no_full_rows(after, 0);
    lemma_no_full_rows_kept(after, 0);
    lemma_kept_and_full_partition(after, 0);
    assert forall|t: int, x: int| 0 <= t < HEIGHT && 0 <= x < WIDTH implies #[trigger] cleared_cells(after)[cell_index(x, t)] == after[cell_index(x, t)] by {
        lemma_cleared_cell(after, x, t);
        assert(kept_rows(after, 0)[t] == t);
    }
    lemma_cells_eq_pointwise(cleared_cells(after), after);
}

/// A cell of the cleared grid, spelled out.
proof fn lemma_cleared_cell(cells: Seq<Option<Kind>>, x: int, y: int)
    requires
        0 <= x < WIDTH,
        0 <= y < HEIGHT,
    ensures
        cleared_cells(cells).len() == grid_len(),
        cleared_cells(cells)[cell_index(x, y)] == (if y < HEIGHT - kept_rows(cells, 0).len() {
            None
        } else {
            cells[cell_index(x, kept_rows(cells, 0)[y - (HEIGHT - kept_rows(cells, 0).len())])]
        }),
{
    let i = cell_index(x, y);
    assert(i / 10 == y);
    assert(i % 10 == x);
}

/// The rows kept by a clear are exactly the rows that are not full.
proof fn lemma_kept_rows_are_not_full(cells: Seq<Option<Kind>>, lo: int)
    requires
        0 <= lo <= HEIGHT,
    ensures
        forall|i: int| 0 <= i < kept_rows(cells, lo).len() ==> !row_full(cells, #[trigger] kept_rows(cells, lo)[i]),
    decreases HEIGHT - lo,
{
    if lo < HEIGHT {
        lemma_kept_rows_are_not_full(cells, lo + 1);
        if !row_full(cells, lo) {
            assert forall|i: int| 0 <= i < kept_rows(cells, lo).len() implies !row_full(
                cells,
                #[trigger] kept_rows(cells, lo)[i],
            ) by {
                if i > 0 {
                    assert(kept_rows(cells, lo)[i] == kept_rows(cells, lo + 1)[i - 1]);
                }
            }
        } else {
            assert(kept_rows(cells, lo) == kept_rows(cells, lo + 1));
        }
    }
}

/// With no full row from `lo` on, no full rows are found there.
proof fn lemma_no_full_rows(cells: Seq<Option<Kind>>, lo: int)
    requires
        0 <= lo <= HEIGHT,
        forall|y: int| lo <= y < HEIGHT ==> !row_full(cells, y),
    ensures
        full_rows_from(cells, lo).len() == 0,
    decreases HEIGHT - lo,
{
    if lo < HEIGHT {
        lemma_no_full_rows(cells, lo + 1);
    }
}

/// With no full row from `lo` on, every row from `lo` on is kept, in order.
proof fn lemma_no_full_rows_kept(cells: Seq<Option<Kind>>, lo: int)
    requires
        0 <= lo <= HEIGHT,
        forall|y: int| lo <= y < HEIGHT ==> !row_full(cells, y),
    ensures
        kept_rows(cells, lo).len() == HEIGHT - lo,
        forall|i: int| 0 <= i < HEIGHT - lo ==> #[trigger] kept_rows(cells, lo)[i] == lo + i,
    decreases HEIGHT - lo,
{
    if lo < HEIGHT {
        lemma_no_full_rows_kept(cells, lo + 1);
        assert forall|i: int| 0 <= i < HEIGHT - lo implies #[trigger] kept_rows(cells, lo)[i] == lo + i by {
            if i > 0 {
                assert(kept_rows(cells, lo)[i] == kept_rows(cells, lo + 1)[i - 1]);
            }
        }
    }
}

/// A piece that fits has every cell in the grid's columns and above the
/// floor, so its box lies within a few cells of the grid.
pub proof fn lemma_fitting_piece_position(cells: Seq<Option<Kind>>, piece: Piece)
    requires
        piece_fits(cells, piece),
    ensures
        -3 <= piece.x < WIDTH,
        piece.y < HEIGHT,
{
    lemma_shapes_are_well_formed(piece.kind, (piece.rotation % 4) as int);
    let offsets = shape_cells(piece.kind, (piece.rotation % 4) as int);
    assert(!blocked_at(cells, piece.x + offsets[0].0, piece.y + offsets[0].1));
}

/// The full rows are listed top to bottom, each once, and they are exactly
/// the rows that are full.
pub proof fn lemma_full_rows_are_the_full_rows(cells: Seq<Option<Kind>>, lo: int)
    requires
        0 <= lo <= HEIGHT,
    ensures
        forall|i: int, j: int|
            0 <= i < j < full_rows_from(cells, lo).len() ==> full_rows_from(cells, lo)[i] < full_rows_from(cells, lo)[j],
        forall|y: int| #[trigger] full_rows_from(cells, lo).contains(y) <==> lo <= y < HEIGHT && row_full(cells, y),
    decreases HEIGHT - lo,
{
    if lo < HEIGHT {
        lemma_full_rows_are_the_full_rows(cells, lo + 1);
        lemma_kept_and_full_partition(cells, lo + 1);
        let rest = full_rows_from(cells, lo + 1);
        if row_full(cells, lo) {
            let all = full_rows_from(cells, lo);
            assert(all == seq![lo].add(rest));
            assert forall|i: int, j: int| 0 <= i < j < all.len() implies all[i] < all[j] by {
                if i == 0 {
                    assert(all[j] == rest[j - 1]);
                } else {
                    assert(all[i] == rest[i - 1] && all[j] == rest[j - 1]);
                }
            }
            assert forall|y: int| all.contains(y) <==> lo <= y < HEIGHT && row_full(cells, y) by {
                if all.contains(y) {
                    let i = choose|i: int| 0 <= i < all.len() && all[i] == y;
                    if i > 0 {
                        assert(rest[i - 1] == y);
                        assert(rest.contains(y));
                    }
                }
                if lo <= y < HEIGHT && row_full(cells, y) {
                    if y == lo {
                        assert(all[0] == y);
                    } else {
                        assert(rest.contains(y));
                        let i = choose|i: int| 0 <= i < rest.len() && rest[i] == y;
                        assert(all[i + 1] == y);
                    }
                }
            }
        }
    }
}

/// The rows of `lo..HEIGHT` are split between the full ones and the kept ones.
pub proof fn lemma_kept_and_full_partition(cells: Seq<Option<Kind>>, lo: int)
    requires
        0 <= lo <= HEIGHT,
    ensures
        kept_rows(cells, lo).len() + full_rows_from(cells, lo).len() == HEIGHT - lo,
        forall|i: int| 0 <= i < kept_rows(cells, lo).len() ==> lo <= #[trigger] kept_rows(cells, lo)[i] < HEIGHT,
        forall|i: int| 0 <= i < full_rows_from(cells, lo).len() ==> lo <= #[trigger] full_rows_from(cells, lo)[i] < HEIGHT,
    decreases HEIGHT - lo,
{
    if lo < HEIGHT {
        lemma_kept_and_full_partition(cells, lo + 1);
    }
}

/// Two grids that agree on row `y` agree on whether it is full.
proof fn lemma_row_full_same(a: Seq<Option<Kind>>, b: Seq<Option<Kind>>, y: int)
    requires
        forall|x: int| 0 <= x < WIDTH ==> #[trigger] a[cell_index(x, y)] == b[cell_index(x, y)],
    ensures
        row_full(a, y) == row_full(b, y),
{
    if row_full(a, y) {
        assert forall|x: int| 0 <= x < WIDTH implies #[trigger] b[cell_index(x, y)] is Some by {
            assert(a[cell_index(x, y)] is Some);
        }
    }
    if row_full(b, y) {
        assert forall|x: int| 0 <= x < WIDTH implies #[trigger] a[cell_index(x, y)] is Some by {
            assert(b[cell_index(x, y)] is Some);
        }
    }
}

/// Two grids that agree on every cell are equal.
proof fn lemma_cells_eq_pointwise(a: Seq<Option<Kind>>, b: Seq<Option<Kind>>)
    requires
        a.len() == grid_len(),
        b.len() == grid_len(),
        forall|t: int, x: int| 0 <= t < HEIGHT && 0 <= x < WIDTH ==> #[trigger] a[cell_index(x, t)] == b[cell_index(x, t)],
    ensures
        a == b,
{
    assert forall|i: int| 0 <= i < grid_len() implies a[i] == b[i] by {
        let t = i / 10;
        let x = i % 10;
        assert(i == cell_index(x, t));
        assert(a[cell_index(x, t)] == b[cell_index(x, t)]);
    }
    assert(a =~= b);
}

} // verus!
