//! What a game shows: the one-line JSON state report of the control socket,
//! what each visible cell of the playfield holds, and how the banner of the
//! last placement is highlighted.

use vstd::prelude::*;
use vstd::string::*;
use crate::board::{Board, HIDDEN_ROWS, VISIBLE_ROWS, WIDTH, cell_at, drop_distance_of};
use crate::game::{Event, Game, GameView, Phase, PhaseView, PREVIEW_COUNT, lemma_droppable_cells, piece_droppable};
use crate::tetromino::{Kind, Piece};
use crate::text::{decimal, push_decimal, push_signed, same_text, signed_decimal, starts_with};

verus! {

/// Parts separated by commas.
pub open spec fn joined(parts: Seq<Seq<char>>) -> Seq<char>
    decreases parts.len(),
{
    if parts.len() == 0 {
        Seq::empty()
    } else if parts.len() == 1 {
        parts[0]
    } else {
        joined(parts.drop_last()).add(","@).add(parts.last())
    }
}

/// A JSON array of already-rendered parts.
pub open spec fn list(parts: Seq<Seq<char>>) -> Seq<char> {
    "["@.add(joined(parts)).add("]"@)
}

/// Parts one after another.
pub open spec fn concat(parts: Seq<Seq<char>>) -> Seq<char>
    decreases parts.len(),
{
    if parts.len() == 0 {
        Seq::empty()
    } else {
        concat(parts.drop_last()).add(parts.last())
    }
}

/// The text of a kind: its name.
pub open spec fn kind_name(kind: Kind) -> Seq<char> {
    match kind {
        Kind::I => "I"@,
        Kind::O => "O"@,
        Kind::T => "T"@,
        Kind::S => "S"@,
        Kind::Z => "Z"@,
        Kind::J => "J"@,
        Kind::L => "L"@,
    }
}

/// A kind as a JSON string.
pub open spec fn quoted_kind(kind: Kind) -> Seq<char> {
    "\""@.add(kind_name(kind)).add("\""@)
}

/// The name a phase is reported by.
pub open spec fn phase_label(phase: PhaseView) -> Seq<char> {
    match phase {
        PhaseView::Falling => "falling"@,
        PhaseView::Clearing { .. } => "clearing"@,
        PhaseView::Paused => "paused"@,
        PhaseView::GameOver => "gameover"@,
    }
}

/// A board cell as `[x,y]` in visible-row coordinates; negative `y` is
/// still above the well.
pub open spec fn cell_text(x: int, y: int) -> Seq<char> {
    list(seq![signed_decimal(x), signed_decimal(y - HIDDEN_ROWS)])
}

/// The four cells of a piece.
pub open spec fn cells_text(piece: Piece) -> Seq<char> {
    list(Seq::new(4, |i: int| cell_text(piece.cell_x(i), piece.cell_y(i))))
}

/// One visible row of the locked stack: a kind name per filled cell, `.`
/// per empty one.
pub open spec fn row_text(cells: Seq<Option<Kind>>, row: int) -> Seq<char> {
    concat(
        Seq::new(
            WIDTH as nat,
            |col: int|
                match cell_at(cells, col, row + HIDDEN_ROWS) {
                    Some(k) => kind_name(k),
                    None => "."@,
                },
        ),
    )
}

/// The letter a locked block of `kind` is shown as.
pub open spec fn letter(kind: Kind) -> char {
    match kind {
        Kind::I => 'I',
        Kind::O => 'O',
        Kind::T => 'T',
        Kind::S => 'S',
        Kind::Z => 'Z',
        Kind::J => 'J',
        Kind::L => 'L',
    }
}

/// One-character parts put one after another give one character each.
proof fn lemma_concat_single_chars(parts: Seq<Seq<char>>)
    requires
        forall|i: int| 0 <= i < parts.len() ==> #[trigger] parts[i].len() == 1,
    ensures
        concat(parts).len() == parts.len(),
        forall|i: int| 0 <= i < parts.len() ==> #[trigger] concat(parts)[i] == parts[i][0],
    decreases parts.len(),
{
    if parts.len() > 0 {
        lemma_concat_single_chars(parts.drop_last());
        assert forall|i: int| 0 <= i < parts.len() implies #[trigger] concat(parts)[i] == parts[i][0] by {
            if i < parts.len() - 1 {
                assert(parts.drop_last()[i] == parts[i]);
            }
        }
    }
}

/// Each reported grid row has one character per column: the letter of the
/// locked block there, or `.` where the cell is empty.
pub proof fn lemma_grid_rows_show_the_stack(cells: Seq<Option<Kind>>, row: int)
    ensures
        row_text(cells, row).len() == WIDTH,
        forall|col: int|
            0 <= col < WIDTH ==> #[trigger] row_text(cells, row)[col] == match cell_at(cells, col, row + HIDDEN_ROWS) {
                Some(k) => letter(k),
                None => '.',
            },
{
    reveal_strlit("I");
    reveal_strlit("O");
    reveal_strlit("T");
    reveal_strlit("S");
    reveal_strlit("Z");
    reveal_strlit("J");
    reveal_strlit("L");
    reveal_strlit(".");
    let parts = Seq::new(
        WIDTH as nat,
        |col: int|
            match cell_at(cells, col, row + HIDDEN_ROWS) {
                Some(k) => kind_name(k),
                None => "."@,
            },
    );
    assert forall|i: int| 0 <= i < parts.len() implies #[trigger] parts[i].len() == 1 && parts[i][0] == match cell_at(
        cells,
        i,
        row + HIDDEN_ROWS,
    ) {
        Some(k) => letter(k),
        None => '.',
    } by {
        match cell_at(cells, i, row + HIDDEN_ROWS) {
            Some(k) => {
                match k {
                    Kind::I => {},
                    Kind::O => {},
                    Kind::T => {},
                    Kind::S => {},
                    Kind::Z => {},
                    Kind::J => {},
                    Kind::L => {},
                }
            },
            None => {},
        }
    }
    lemma_concat_single_chars(parts);
}

/// The visible rows of the locked stack, top to bottom.
pub open spec fn grid_text(cells: Seq<Option<Kind>>) -> Seq<char> {
    list(Seq::new(VISIBLE_ROWS as nat, |row: int| "\""@.add(row_text(cells, row)).add("\""@)))
}

/// The first visible row from `row` down with a filled cell in `col`, or
/// the number of visible rows when there is none.
pub open spec fn first_filled(cells: Seq<Option<Kind>>, col: int, row: int) -> int
    decreases VISIBLE_ROWS - row,
{
    if row >= VISIBLE_ROWS {
        VISIBLE_ROWS as int
    } else if cell_at(cells, col, row + HIDDEN_ROWS) is Some {
        row
    } else {
        first_filled(cells, col, row + 1)
    }
}

/// Rows from the highest filled cell in a column down to the floor.
pub open spec fn column_height(cells: Seq<Option<Kind>>, col: int) -> int {
    VISIBLE_ROWS - first_filled(cells, col, 0)
}

/// Heights of all columns.
pub open spec fn heights_text(cells: Seq<Option<Kind>>) -> Seq<char> {
    list(Seq::new(WIDTH as nat, |col: int| decimal(column_height(cells, col) as nat)))
}

/// The empty cells of `col` in visible rows `top..row`, as `[col,row]`.
pub open spec fn column_holes(cells: Seq<Option<Kind>>, col: int, top: int, row: int) -> Seq<Seq<char>>
    decreases row - top,
{
    if row <= top {
        Seq::empty()
    } else {
        let earlier = column_holes(cells, col, top, row - 1);
        if cell_at(cells, col, row - 1 + HIDDEN_ROWS) is None {
            earlier.push(list(seq![decimal(col as nat), decimal((row - 1) as nat)]))
        } else {
            earlier
        }
    }
}

/// Every buried empty cell in the columns before `col`: the empty cells
/// below each column's surface.
pub open spec fn holes_before(cells: Seq<Option<Kind>>, col: int) -> Seq<Seq<char>>
    decreases col,
{
    if col <= 0 {
        Seq::empty()
    } else {
        let h = column_height(cells, col - 1);
        let earlier = holes_before(cells, col - 1);
        if h == 0 {
            earlier
        } else {
            earlier.add(column_holes(cells, col - 1, VISIBLE_ROWS - h, VISIBLE_ROWS as int))
        }
    }
}

/// Visible cell `(col, row)` holds a locked block.
pub open spec fn filled_at(cells: Seq<Option<Kind>>, col: int, row: int) -> bool {
    cell_at(cells, col, row + HIDDEN_ROWS) is Some
}

/// Visible cell `(col, row)` is empty and buried: some cell above it in the
/// same column is filled.
pub open spec fn is_hole(cells: Seq<Option<Kind>>, col: int, row: int) -> bool {
    &&& 0 <= row < VISIBLE_ROWS
    &&& !filled_at(cells, col, row)
    &&& exists|above: int| 0 <= above < row && #[trigger] filled_at(cells, col, above)
}

/// How a hole is reported: `[col,row]`.
pub open spec fn hole_text(col: int, row: int) -> Seq<char> {
    list(seq![decimal(col as nat), decimal(row as nat)])
}

/// The first filled row from `row` down is filled, and every row between is
/// empty.
proof fn lemma_first_filled(cells: Seq<Option<Kind>>, col: int, row: int)
    requires
        0 <= row <= VISIBLE_ROWS,
    ensures
        row <= first_filled(cells, col, row) <= VISIBLE_ROWS,
        forall|r: int| row <= r < first_filled(cells, col, row) ==> !#[trigger] filled_at(cells, col, r),
        first_filled(cells, col, row) < VISIBLE_ROWS ==> filled_at(cells, col, first_filled(cells, col, row)),
    decreases VISIBLE_ROWS - row,
{
    if row < VISIBLE_ROWS && !filled_at(cells, col, row) {
        lemma_first_filled(cells, col, row + 1);
    }
}

/// A column's reported height counts the rows from its topmost filled
/// visible cell down to the floor, and is zero when nothing in the column
/// is filled.
pub proof fn lemma_heights_count_from_the_top_block(cells: Seq<Option<Kind>>, col: int)
    ensures
        0 <= column_height(cells, col) <= VISIBLE_ROWS,
        column_height(cells, col) == 0 <==> forall|r: int| 0 <= r < VISIBLE_ROWS ==> !#[trigger] filled_at(cells, col, r),
        column_height(cells, col) > 0 ==> filled_at(cells, col, VISIBLE_ROWS - column_height(cells, col)),
        forall|r: int| 0 <= r < VISIBLE_ROWS - column_height(cells, col) ==> !#[trigger] filled_at(cells, col, r),
{
    lemma_first_filled(cells, col, 0);
}

/// The holes listed for one column between rows `top` and `row` are the
/// empty cells there, each once.
proof fn lemma_column_holes(cells: Seq<Option<Kind>>, col: int, top: int, row: int)
    requires
        0 <= top <= row,
    ensures
        forall|t: Seq<char>|
            #[trigger] column_holes(cells, col, top, row).contains(t) <==> exists|r: int|
                top <= r < row && !filled_at(cells, col, r) && t == #[trigger] hole_text(col, r),
    decreases row - top,
{
    if row > top {
        lemma_column_holes(cells, col, top, row - 1);
        let earlier = column_holes(cells, col, top, row - 1);
        let all = column_holes(cells, col, top, row);
        assert forall|t: Seq<char>| #[trigger] all.contains(t) <==> exists|r: int|
            top <= r < row && !filled_at(cells, col, r) && t == #[trigger] hole_text(col, r) by {
            if all.contains(t) {
                let i = choose|i: int| 0 <= i < all.len() && all[i] == t;
                if i < earlier.len() {
                    assert(all[i] == earlier[i]);
                    assert(earlier.contains(t));
                    let r = choose|r: int| top <= r < row - 1 && !filled_at(cells, col, r) && t == #[trigger] hole_text(col, r);
                    assert(top <= r < row && !filled_at(cells, col, r) && t == hole_text(col, r));
                } else {
                    assert(t == hole_text(col, row - 1));
                }
            }
            if exists|r: int| top <= r < row && !filled_at(cells, col, r) && t == #[trigger] hole_text(col, r) {
                let r = choose|r: int| top <= r < row && !filled_at(cells, col, r) && t == #[trigger] hole_text(col, r);
                if r < row - 1 {
                    assert(earlier.contains(t));
                    let i = choose|i: int| 0 <= i < earlier.len() && earlier[i] == t;
                    assert(all[i] == t);
                } else {
                    assert(all[all.len() - 1] == t);
                }
            }
        }
    }
}

/// The holes listed for the columns before `col` are exactly the holes of
/// those columns.
proof fn lemma_holes_before(cells: Seq<Option<Kind>>, col: int)
    requires
        0 <= col <= WIDTH,
    ensures
        forall|t: Seq<char>|
            #[trigger] holes_before(cells, col).contains(t) <==> exists|c: int, r: int|
                0 <= c < col && is_hole(cells, c, r) && t == #[trigger] hole_text(c, r),
    decreases col,
{
    if col > 0 {
        let c = col - 1;
        lemma_holes_before(cells, c);
        lemma_first_filled(cells, c, 0);
        let ff = first_filled(cells, c, 0);
        let h = column_height(cells, c);
        let earlier = holes_before(cells, c);
        let all = holes_before(cells, col);
        if h == 0 {
            assert forall|t: Seq<char>| #[trigger] all.contains(t) <==> exists|c2: int, r: int|
                0 <= c2 < col && is_hole(cells, c2, r) && t == #[trigger] hole_text(c2, r) by {
                if exists|c2: int, r: int| 0 <= c2 < col && is_hole(cells, c2, r) && t == #[trigger] hole_text(c2, r) {
                    let (c2, r) = choose|c2: int, r: int|
                        0 <= c2 < col && is_hole(cells, c2, r) && t == #[trigger] hole_text(c2, r);
                    if c2 == c {
                        let above = choose|above: int| 0 <= above < r && #[trigger] filled_at(cells, c, above);
                        assert(!filled_at(cells, c, above));
                    }
                }
            }
        } else {
            let ch = column_holes(cells, c, ff, VISIBLE_ROWS as int);
            lemma_column_holes(cells, c, ff, VISIBLE_ROWS as int);
            assert(all == earlier.add(ch));
            assert forall|t: Seq<char>| #[trigger] all.contains(t) <==> exists|c2: int, r: int|
                0 <= c2 < col && is_hole(cells, c2, r) && t == #[trigger] hole_text(c2, r) by {
                if all.contains(t) {
                    let i = choose|i: int| 0 <= i < all.len() && all[i] == t;
                    if i < earlier.len() {
                        assert(earlier[i] == t);
                        assert(earlier.contains(t));
                        let (c2, r) = choose|c2: int, r: int|
                            0 <= c2 < c && is_hole(cells, c2, r) && t == #[trigger] hole_text(c2, r);
                        assert(0 <= c2 < col && is_hole(cells, c2, r) && t == hole_text(c2, r));
                    } else {
                        assert(ch[i - earlier.len()] == t);
                        assert(ch.contains(t));
                        let r = choose|r: int|
                            ff <= r < VISIBLE_ROWS && !filled_at(cells, c, r) && t == #[trigger] hole_text(c, r);
                        assert(r != ff);
                        assert(filled_at(cells, c, ff));
                        assert(is_hole(cells, c, r));
                    }
                }
                if exists|c2: int, r: int| 0 <= c2 < col && is_hole(cells, c2, r) && t == #[trigger] hole_text(c2, r) {
                    let (c2, r) = choose|c2: int, r: int|
                        0 <= c2 < col && is_hole(cells, c2, r) && t == #[trigger] hole_text(c2, r);
                    if c2 < c {
                        assert(earlier.contains(t));
                        let i = choose|i: int| 0 <= i < earlier.len() && earlier[i] == t;
                        assert(all[i] == t);
                    } else {
                        let above = choose|above: int| 0 <= above < r && #[trigger] filled_at(cells, c, above);
                        assert(ff <= above);
                        assert(ff <= r < VISIBLE_ROWS && !filled_at(cells, c, r) && t == hole_text(c, r));
                        assert(ch.contains(t));
                        let i = choose|i: int| 0 <= i < ch.len() && ch[i] == t;
                        assert(all[earlier.len() + i] == t);
                    }
                }
            }
        }
    }
}

/// The reported holes are exactly the buried empty cells: every visible
/// cell that is empty with a filled cell somewhere above it in its column,
/// down to and including the bottom row, is listed, and nothing else is.
pub proof fn lemma_holes_are_the_buried_empty_cells(cells: Seq<Option<Kind>>)
    ensures
        forall|t: Seq<char>|
            #[trigger] holes_before(cells, WIDTH as int).contains(t) ==> exists|c: int, r: int|
                0 <= c < WIDTH && is_hole(cells, c, r) && t == #[trigger] hole_text(c, r),
        forall|c: int, r: int|
            0 <= c < WIDTH && #[trigger] is_hole(cells, c, r) ==> holes_before(cells, WIDTH as int).contains(
                hole_text(c, r),
            ),
{
    lemma_holes_before(cells, WIDTH as int);
    assert forall|c: int, r: int| 0 <= c < WIDTH && #[trigger] is_hole(cells, c, r) implies holes_before(
        cells,
        WIDTH as int,
    ).contains(hole_text(c, r)) by {
        let t = hole_text(c, r);
        assert(0 <= c < WIDTH && is_hole(cells, c, r) && t == hole_text(c, r));
    }
}

/// Score, lines, level, phase and hold.
pub open spec fn status_text(v: GameView) -> Seq<char> {
    "\"score\":"@.add(decimal(v.score as nat)).add(","@).add("\"lines\":"@).add(decimal(v.lines as nat)).add(
        ","@,
    ).add("\"level\":"@).add(decimal(v.level as nat)).add(","@).add("\"phase\":\""@).add(phase_label(v.phase)).add(
        "\","@,
    ).add("\"can_hold\":"@).add(if v.hold_used { "false"@ } else { "true"@ }).add(","@).add(
        match v.hold {
            Some(k) => "\"hold\":\""@.add(kind_name(k)).add("\","@),
            None => "\"hold\":null,"@,
        },
    )
}

/// The upcoming kinds, the current piece and its ghost.
pub open spec fn pieces_text(v: GameView) -> Seq<char> {
    let ghost_piece = v.piece.shifted(0, drop_distance_of(v.cells, v.piece));
    "\"next\":"@.add(list(v.upcoming.take(PREVIEW_COUNT as int).map_values(|k: Kind| quoted_kind(k)))).add(
        ","@,
    ).add("\"current\":\""@).add(kind_name(v.piece.kind)).add("\","@).add("\"rotation\":"@).add(
        decimal(v.piece.rotation as nat),
    ).add(","@).add("\"piece\":"@).add(cells_text(v.piece)).add(","@).add("\"ghost\":"@).add(
        cells_text(ghost_piece),
    ).add(","@)
}

/// The locked stack: its rows, column heights and buried holes.
pub open spec fn stack_text(cells: Seq<Option<Kind>>) -> Seq<char> {
    "\"grid\":"@.add(grid_text(cells)).add(","@).add("\"heights\":"@).add(heights_text(cells)).add(","@).add(
        "\"holes\":"@,
    ).add(list(holes_before(cells, WIDTH as int)))
}

/// The report of a game: one JSON object.
pub open spec fn state_text(v: GameView) -> Seq<char> {
    "{"@.add(status_text(v)).add(pieces_text(v)).add(stack_text(v.cells)).add("}"@)
}

/// The name of a kind.
fn kind_str(kind: Kind) -> (name: &'static str)
    ensures
        name@ == kind_name(kind),
{
    match kind {
        Kind::I => "I",
        Kind::O => "O",
        Kind::T => "T",
        Kind::S => "S",
        Kind::Z => "Z",
        Kind::J => "J",
        Kind::L => "L",
    }
}

/// The name a phase is reported by.
pub fn phase_name(phase: &Phase) -> (name: &'static str)
    ensures
        name@ == phase_label(phase@),
{
    match phase {
        Phase::Falling => "falling",
        Phase::Clearing { .. } => "clearing",
        Phase::Paused => "paused",
        Phase::GameOver => "gameover",
    }
}

/// Append `parts` as a JSON array.
fn push_list(out: &mut String, parts: &Vec<String>)
    ensures
        final(out)@ == old(out)@.add(list(parts@.map_values(|p: String| p@))),
{
    let ghost texts = parts@.map_values(|p: String| p@);
    out.append("[");
    let mut i: usize = 0;
    while i < parts.len()
        invariant
            i <= parts@.len(),
            texts == parts@.map_values(|p: String| p@),
            out@ == old(out)@.add("["@).add(joined(texts.take(i as int))),
        decreases parts@.len() - i,
    {
        let ghost before = out@;
        if i > 0 {
            out.append(",");
        }
        out.append(parts[i].as_str());
        proof {
            let t = texts.take(i + 1);
            assert(t.drop_last() =~= texts.take(i as int));
            assert(t.last() == parts@[i as int]@);
            if i == 0 {
                assert(joined(texts.take(0)) =~= Seq::<char>::empty());
                assert(joined(t) == t[0]);
            }
            assert(out@ =~= old(out)@.add("["@).add(joined(t)));
        }
        i += 1;
    }
    assert(texts.take(parts@.len() as int) =~= texts);
    out.append("]");
}

/// Append a board cell as `[x,y]` in visible-row coordinates.
fn push_cell(out: &mut String, x: i16, y: i16)
    ensures
        final(out)@ == old(out)@.add(cell_text(x as int, y as int)),
{
    let mut parts: Vec<String> = Vec::new();
    let mut a = String::new();
    push_signed(&mut a, x as i32);
    parts.push(a);
    let mut b = String::new();
    push_signed(&mut b, y as i32 - HIDDEN_ROWS as i32);
    parts.push(b);
    let ghost texts = parts@.map_values(|p: String| p@);
    assert(texts =~= seq![signed_decimal(x as int), signed_decimal(y - HIDDEN_ROWS)]);
    push_list(out, &parts);
}

/// The four cells of a piece as a JSON array of `[x,y]` pairs.
pub fn cells_json(cells: &[(i16, i16); 4]) -> (text: String)
    ensures
        text@ == list(Seq::new(4, |i: int| cell_text(cells@[i].0 as int, cells@[i].1 as int))),
{
    let mut parts: Vec<String> = Vec::new();
    let mut i: usize = 0;
    while i < 4
        invariant
            i <= 4,
            parts@.len() == i,
            forall|j: int| 0 <= j < i ==> #[trigger] parts@[j]@ == cell_text(cells@[j].0 as int, cells@[j].1 as int),
        decreases 4 - i,
    {
        let mut part = String::new();
        let (x, y) = cells[i];
        push_cell(&mut part, x, y);
        assert(part@ =~= cell_text(x as int, y as int));
        parts.push(part);
        i += 1;
    }
    let mut out = String::new();
    push_list(&mut out, &parts);
    assert(parts@.map_values(|p: String| p@) =~= Seq::new(4, |i: int| cell_text(cells@[i].0 as int, cells@[i].1 as int)));
    assert(out@ =~= list(Seq::new(4, |i: int| cell_text(cells@[i].0 as int, cells@[i].1 as int))));
    out
}

/// Rows from the highest filled cell in a column down to the floor.
pub fn column_height_of(board: &Board, col: i16) -> (height: i16)
    requires
        0 <= col < WIDTH,
    ensures
        height == column_height(board@, col as int),
        0 <= height <= VISIBLE_ROWS,
{
    let mut row: i16 = 0;
    while row < VISIBLE_ROWS
        invariant
            0 <= row <= VISIBLE_ROWS,
            0 <= col < WIDTH,
            first_filled(board@, col as int, row as int) == first_filled(board@, col as int, 0),
        decreases VISIBLE_ROWS - row,
    {
        if board.get(col, row + HIDDEN_ROWS).is_some() {
            return VISIBLE_ROWS - row;
        }
        row += 1;
    }
    0
}

/// Everything a driver needs, so it never has to read the screen.
pub fn state_json(game: &Game) -> (json: String)
    requires
        game.wf(),
        piece_droppable(game@.piece),
    ensures
        json@ == state_text(game@),
{
    let mut out = String::new();
    out.append("{");
    assert(out@ =~= "{"@);
    push_status(&mut out, game);
    push_pieces(&mut out, game);
    push_stack(&mut out, &game.board);
    out.append("}");
    out
}

/// Append score, lines, level, phase and hold.
#[verifier::rlimit(50)]
fn push_status(out: &mut String, game: &Game)
    ensures
        final(out)@ == old(out)@.add(status_text(game@)),
{
    let ghost base = out@;
    out.append("\"score\":");
    push_decimal(out, game.score);
    out.append(",");
    out.append("\"lines\":");
    push_decimal(out, game.lines as u64);
    out.append(",");
    out.append("\"level\":");
    push_decimal(out, game.level as u64);
    out.append(",");
    out.append("\"phase\":\"");
    out.append(phase_name(&game.phase));
    out.append("\",");
    out.append("\"can_hold\":");
    out.append(if game.can_hold() { "true" } else { "false" });
    out.append(",");
    match game.hold {
        Some(kind) => {
            let ghost mid = out@;
            out.append("\"hold\":\"");
            out.append(kind_str(kind));
            out.append("\",");
            assert(out@ =~= mid.add("\"hold\":\""@.add(kind_name(kind)).add("\","@)));
        },
        None => out.append("\"hold\":null,"),
    }
    assert(out@ =~= base.add(status_text(game@)));
}

/// The four cells of a piece as a JSON array of `[x,y]` pairs.
fn piece_json(piece: &Piece) -> (text: String)
    requires
        piece.cells_in_range(),
    ensures
        text@ == cells_text(*piece),
{
    let cells = piece.cells();
    let text = cells_json(&cells);
    assert(Seq::new(4, |i: int| cell_text(cells@[i].0 as int, cells@[i].1 as int)) =~= Seq::new(
        4,
        |i: int| cell_text(piece.cell_x(i), piece.cell_y(i)),
    ));
    text
}

/// Append the upcoming kinds as a JSON array.
fn push_next(out: &mut String, game: &Game)
    requires
        game.wf(),
    ensures
        final(out)@ == old(out)@.add(list(game@.upcoming.take(PREVIEW_COUNT as int).map_values(|k: Kind| quoted_kind(k)))),
{
    let ghost v = game@;
    let next = game.next_pieces();
    let mut names: Vec<String> = Vec::new();
    let mut i: usize = 0;
    while i < next.len()
        invariant
            i <= next@.len(),
            names@.len() == i,
            forall|j: int| 0 <= j < i ==> #[trigger] names@[j]@ == quoted_kind(next@[j]),
        decreases next@.len() - i,
    {
        let mut name = String::new();
        name.append("\"");
        name.append(kind_str(next[i]));
        name.append("\"");
        assert(name@ =~= quoted_kind(next@[i as int]));
        names.push(name);
        i += 1;
    }
    push_list(out, &names);
    assert(names@.map_values(|p: String| p@) =~= v.upcoming.take(PREVIEW_COUNT as int).map_values(
        |k: Kind| quoted_kind(k),
    ));
}

/// Append the upcoming kinds, the current piece and its ghost.
#[verifier::rlimit(60)]
fn push_pieces(out: &mut String, game: &Game)
    requires
        game.wf(),
        piece_droppable(game@.piece),
    ensures
        final(out)@ == old(out)@.add(pieces_text(game@)),
{
    let ghost base = out@;
    let ghost v = game@;
    out.append("\"next\":");
    push_next(out, game);
    out.append(",");
    out.append("\"current\":\"");
    out.append(kind_str(game.piece.kind));
    out.append("\",");
    out.append("\"rotation\":");
    push_decimal(out, game.piece.rotation as u64);
    out.append(",");
    out.append("\"piece\":");
    proof {
        lemma_droppable_cells(v.cells, v.piece);
    }
    let piece_text = piece_json(&game.piece);
    out.append(piece_text.as_str());
    out.append(",");
    out.append("\"ghost\":");
    let landed = game.ghost();
    let ghost_text = piece_json(&landed);
    out.append(ghost_text.as_str());
    out.append(",");
    assert(out@ =~= base.add(pieces_text(v)));
}

/// Append the grid, the column heights and the holes.
fn push_stack(out: &mut String, board: &Board)
    ensures
        final(out)@ == old(out)@.add(stack_text(board@)),
{
    let ghost base = out@;
    out.append("\"grid\":");
    push_grid(out, board);
    out.append(",");
    out.append("\"heights\":");
    push_heights(out, board);
    out.append(",");
    out.append("\"holes\":");
    push_holes(out, board);
    assert(out@ =~= base.add(stack_text(board@)));
}

/// Append the visible rows of the locked stack.
fn push_grid(out: &mut String, board: &Board)
    ensures
        final(out)@ == old(out)@.add(grid_text(board@)),
{
    let mut rows: Vec<String> = Vec::new();
    let mut row: i16 = 0;
    while row < VISIBLE_ROWS
        invariant
            0 <= row <= VISIBLE_ROWS,
            rows@.len() == row,
            forall|j: int| 0 <= j < row ==> #[trigger] rows@[j]@ == "\""@.add(row_text(board@, j)).add("\""@),
        decreases VISIBLE_ROWS - row,
    {
        let mut text = String::new();
        text.append("\"");
        let ghost start = text@;
        let ghost looks = Seq::new(
            WIDTH as nat,
            |col: int|
                match cell_at(board@, col, row + HIDDEN_ROWS) {
                    Some(k) => kind_name(k),
                    None => "."@,
                },
        );
        let mut col: i16 = 0;
        while col < WIDTH
            invariant
                0 <= col <= WIDTH,
                0 <= row < VISIBLE_ROWS,
                looks == Seq::new(
                    WIDTH as nat,
                    |c: int|
                        match cell_at(board@, c, row + HIDDEN_ROWS) {
                            Some(k) => kind_name(k),
                            None => "."@,
                        },
                ),
                text@ == start.add(concat(looks.take(col as int))),
            decreases WIDTH - col,
        {
            match board.get(col, row + HIDDEN_ROWS) {
                Some(kind) => text.append(kind_str(kind)),
                None => text.append("."),
            }
            proof {
                let t = looks.take(col + 1);
                assert(t.drop_last() =~= looks.take(col as int));
                assert(text@ =~= start.add(concat(t)));
            }
            col += 1;
        }
        assert(looks.take(WIDTH as int) =~= looks);
        text.append("\"");
        assert(text@ =~= "\""@.add(row_text(board@, row as int)).add("\""@));
        rows.push(text);
        row += 1;
    }
    push_list(out, &rows);
    assert(rows@.map_values(|p: String| p@) =~= Seq::new(
        VISIBLE_ROWS as nat,
        |row: int| "\""@.add(row_text(board@, row)).add("\""@),
    ));
}

/// Append the height of every column.
fn push_heights(out: &mut String, board: &Board)
    ensures
        final(out)@ == old(out)@.add(heights_text(board@)),
{
    let mut parts: Vec<String> = Vec::new();
    let mut col: i16 = 0;
    while col < WIDTH
        invariant
            0 <= col <= WIDTH,
            parts@.len() == col,
            forall|j: int| 0 <= j < col ==> #[trigger] parts@[j]@ == decimal(column_height(board@, j) as nat),
        decreases WIDTH - col,
    {
        let h = column_height_of(board, col);
        let mut text = String::new();
        push_decimal(&mut text, h as u64);
        assert(text@ =~= decimal(column_height(board@, col as int) as nat));
        parts.push(text);
        col += 1;
    }
    push_list(out, &parts);
    assert(parts@.map_values(|p: String| p@) =~= Seq::new(
        WIDTH as nat,
        |col: int| decimal(column_height(board@, col) as nat),
    ));
}

/// Append every buried empty cell.
fn push_holes(out: &mut String, board: &Board)
    ensures
        final(out)@ == old(out)@.add(list(holes_before(board@, WIDTH as int))),
{
    let mut holes: Vec<String> = Vec::new();
    let mut col: i16 = 0;
    while col < WIDTH
        invariant
            0 <= col <= WIDTH,
            holes@.map_values(|p: String| p@) == holes_before(board@, col as int),
        decreases WIDTH - col,
    {
        let height = column_height_of(board, col);
        if height > 0 {
            let top = VISIBLE_ROWS - height;
            let ghost earlier = holes@.map_values(|p: String| p@);
            let mut row = top;
            while row < VISIBLE_ROWS
                invariant
                    0 <= col < WIDTH,
                    0 <= top <= row <= VISIBLE_ROWS,
                    holes@.map_values(|p: String| p@) == earlier.add(column_holes(board@, col as int, top as int, row as int)),
                decreases VISIBLE_ROWS - row,
            {
                if board.get(col, row + HIDDEN_ROWS).is_none() {
                    let mut text = String::new();
                    let mut parts: Vec<String> = Vec::new();
                    let mut a = String::new();
                    push_decimal(&mut a, col as u64);
                    parts.push(a);
                    let mut b = String::new();
                    push_decimal(&mut b, row as u64);
                    parts.push(b);
                    assert(parts@.map_values(|p: String| p@) =~= seq![decimal(col as nat), decimal(row as nat)]);
                    push_list(&mut text, &parts);
                    assert(text@ =~= list(seq![decimal(col as nat), decimal(row as nat)]));
                    let ghost prev = holes@;
                    holes.push(text);
                    assert(holes@.map_values(|p: String| p@) =~= prev.map_values(|p: String| p@).push(text@));
                }
                row += 1;
                assert(holes@.map_values(|p: String| p@) =~= earlier.add(
                    column_holes(board@, col as int, top as int, row as int),
                ));
            }
        }
        col += 1;
        assert(holes@.map_values(|p: String| p@) =~= holes_before(board@, col as int));
    }
    push_list(out, &holes);
}

/// What a visible cell of the playfield shows.
#[derive(Debug, Clone, Copy, PartialEq, Eq, Structural)]
pub enum Look {
    Empty,
    /// A locked cell or a cell of the falling piece.
    Block(Kind),
    /// Where the falling piece would land.
    Shadow(Kind),
    /// A full row about to collapse.
    Flash,
}

/// Some cell of `piece` is at `(x, y)`.
pub open spec fn covers(piece: Piece, x: int, y: int) -> bool {
    exists|i: int| 0 <= i < 4 && #[trigger] piece.cell_x(i) == x && piece.cell_y(i) == y
}

/// What visible cell `(col, row)` shows: the falling piece over its ghost
/// over the stack while the piece is in play, lit rows while they clear.
pub open spec fn look_at(v: GameView, col: int, row: int) -> Look {
    let y = row + HIDDEN_ROWS;
    let in_play = v.phase is Falling || v.phase is Paused;
    let ghost_piece = v.piece.shifted(0, drop_distance_of(v.cells, v.piece));
    if in_play && covers(v.piece, col, y) {
        Look::Block(v.piece.kind)
    } else if in_play && covers(ghost_piece, col, y) {
        Look::Shadow(v.piece.kind)
    } else if v.phase matches PhaseView::Clearing { rows, .. } && rows.contains(y as i16) {
        Look::Flash
    } else {
        match cell_at(v.cells, col, y) {
            Some(k) => Look::Block(k),
            None => Look::Empty,
        }
    }
}

/// Is some cell of `cells` at `(x, y)`?
fn any_cell_at(cells: &[(i16, i16); 4], x: i16, y: i16) -> (found: bool)
    ensures
        found == exists|i: int| 0 <= i < 4 && #[trigger] cells@[i].0 == x && cells@[i].1 == y,
{
    let mut i: usize = 0;
    while i < 4
        invariant
            i <= 4,
            forall|j: int| 0 <= j < i ==> !(#[trigger] cells@[j].0 == x && cells@[j].1 == y),
        decreases 4 - i,
    {
        if cells[i].0 == x && cells[i].1 == y {
            return true;
        }
        i += 1;
    }
    false
}

impl Game {
    /// What visible cell `(col, row)` of the playfield shows.
    pub fn cell_look(&self, col: i16, row: i16) -> (look: Look)
        requires
            self.wf(),
            piece_droppable(self@.piece),
            0 <= row < VISIBLE_ROWS,
        ensures
            look == look_at(self@, col as int, row as int),
    {
        let ghost v = self@;
        let y = row + HIDDEN_ROWS;
        let in_play = match self.phase {
            Phase::Falling | Phase::Paused => true,
            _ => false,
        };
        if in_play {
            proof {
                lemma_droppable_cells(v.cells, v.piece);
            }
            let cells = self.piece.cells();
            let on_piece = any_cell_at(&cells, col, y);
            proof {
                if on_piece {
                    let i = choose|i: int| 0 <= i < 4 && #[trigger] cells@[i].0 == col && cells@[i].1 == y;
                    assert(v.piece.cell_x(i) == col && v.piece.cell_y(i) == y);
                } else {
                    assert forall|i: int| 0 <= i < 4 implies !(#[trigger] v.piece.cell_x(i) == col && v.piece.cell_y(i) == y) by {
                        assert(cells@[i].0 == v.piece.cell_x(i));
                    }
                }
            }
            if on_piece {
                return Look::Block(self.piece.kind);
            }
            let landed = self.ghost();
            let ghost_cells = landed.cells();
            let on_ghost = any_cell_at(&ghost_cells, col, y);
            proof {
                if on_ghost {
                    let i = choose|i: int| 0 <= i < 4 && #[trigger] ghost_cells@[i].0 == col && ghost_cells@[i].1 == y;
                    assert(landed.cell_x(i) == col && landed.cell_y(i) == y);
                } else {
                    assert forall|i: int| 0 <= i < 4 implies !(#[trigger] landed.cell_x(i) == col && landed.cell_y(i) == y) by {
                        assert(ghost_cells@[i].0 == landed.cell_x(i));
                    }
                }
            }
            if on_ghost {
                return Look::Shadow(self.piece.kind);
            }
        }
        let flashing = match &self.phase {
            Phase::Clearing { rows, .. } => {
                let mut found = false;
                let mut i: usize = 0;
                while i < rows.len()
                    invariant
                        i <= rows@.len(),
                        found == exists|j: int| 0 <= j < i && rows@[j] == y,
                    decreases rows@.len() - i,
                {
                    if rows[i] == y {
                        found = true;
                    }
                    i += 1;
                }
                proof {
                    if found {
                        let j = choose|j: int| 0 <= j < i && rows@[j] == y;
                        assert(rows@.contains(y));
                    } else {
                        assert(!rows@.contains(y));
                    }
                }
                found
            },
            _ => false,
        };
        if flashing {
            return Look::Flash;
        }
        match self.board.get(col, y) {
            Some(kind) => Look::Block(kind),
            None => Look::Empty,
        }
    }
}

/// How the banner of a placement is highlighted.
#[derive(Debug, Clone, Copy, PartialEq, Eq, Structural)]
pub enum Tone {
    PerfectClear,
    Tetris,
    TSpin,
    Plain,
}

/// The highlight of a banner: perfect clears and tetrises have their own,
/// every T-spin banner shares one, the rest are plain.
pub open spec fn tone_of(headline: Seq<char>) -> Tone {
    if headline == "PERFECT CLEAR"@ {
        Tone::PerfectClear
    } else if headline == "TETRIS"@ {
        Tone::Tetris
    } else if "T-SPIN"@.is_prefix_of(headline) {
        Tone::TSpin
    } else {
        Tone::Plain
    }
}

impl Event {
    /// How this event's banner is highlighted.
    pub fn tone(&self) -> (tone: Tone)
        ensures
            tone == tone_of(self.headline@),
    {
        let headline = self.headline.as_str();
        if same_text(headline, "PERFECT CLEAR") {
            Tone::PerfectClear
        } else if same_text(headline, "TETRIS") {
            Tone::Tetris
        } else if starts_with(headline, "T-SPIN") {
            Tone::TSpin
        } else {
            Tone::Plain
        }
    }
}

} // verus!
