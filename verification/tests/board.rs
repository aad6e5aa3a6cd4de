use ratatui_tetris::board::{Board, HEIGHT, HIDDEN_ROWS, WIDTH};
use ratatui_tetris::tetromino::{Kind, Piece};

fn fill_row(board: &mut Board, y: i16, gap: Option<i16>) {
    for x in 0..WIDTH {
        if Some(x) != gap {
            board.set(x, y, Some(Kind::I));
        }
    }
}

#[test]
fn walls_and_floor_block_but_open_sky_does_not() {
    let board = Board::new();
    assert!(board.is_blocked(-1, 5));
    assert!(board.is_blocked(WIDTH, 5));
    assert!(board.is_blocked(0, HEIGHT));
    assert!(!board.is_blocked(0, -3));
    assert!(!board.is_blocked(0, 0));
}

#[test]
fn clearing_one_row_shifts_the_stack_down() {
    let mut board = Board::new();
    fill_row(&mut board, HEIGHT - 1, None);
    board.set(3, HEIGHT - 2, Some(Kind::T));

    assert_eq!(board.clear_full_rows(), 1);
    assert_eq!(board.get(3, HEIGHT - 1), Some(Kind::T));
    assert_eq!(board.get(3, HEIGHT - 2), None);
}

#[test]
fn a_tetris_clears_four_rows_at_once() {
    let mut board = Board::new();
    for y in (HEIGHT - 4)..HEIGHT {
        fill_row(&mut board, y, None);
    }
    assert_eq!(board.clear_full_rows(), 4);
    assert!(board.is_empty());
}

#[test]
fn non_adjacent_rows_clear_and_close_the_gaps() {
    let mut board = Board::new();
    fill_row(&mut board, HEIGHT - 1, None);
    fill_row(&mut board, HEIGHT - 3, None);
    // A lone marker on the row between the two full ones.
    board.set(0, HEIGHT - 2, Some(Kind::T));

    assert_eq!(board.clear_full_rows(), 2);
    assert_eq!(board.get(0, HEIGHT - 1), Some(Kind::T));
    for y in 0..(HEIGHT - 1) {
        for x in 0..WIDTH {
            assert_eq!(board.get(x, y), None, "cell ({x},{y}) should be empty");
        }
    }
}

#[test]
fn a_row_with_a_gap_is_not_cleared() {
    let mut board = Board::new();
    fill_row(&mut board, HEIGHT - 1, Some(4));
    assert_eq!(board.clear_full_rows(), 0);
    assert!(!board.is_empty());
}

#[test]
fn ghost_lands_on_the_floor_of_an_empty_board() {
    let board = Board::new();
    let piece = Piece::spawn(Kind::O, WIDTH, HIDDEN_ROWS);
    let ghost = board.ghost(&piece);
    let lowest = ghost.cells().iter().map(|c| c.1).max().unwrap();
    assert_eq!(lowest, HEIGHT - 1);
}

#[test]
fn ghost_rests_on_top_of_the_stack() {
    let mut board = Board::new();
    fill_row(&mut board, HEIGHT - 1, None);
    let piece = Piece::spawn(Kind::O, WIDTH, HIDDEN_ROWS);
    let ghost = board.ghost(&piece);
    let lowest = ghost.cells().iter().map(|c| c.1).max().unwrap();
    assert_eq!(lowest, HEIGHT - 2);
}

#[test]
fn full_rows_lists_every_full_row_top_to_bottom() {
    let mut board = Board::new();
    fill_row(&mut board, HEIGHT - 1, None);
    fill_row(&mut board, HEIGHT - 2, Some(0));
    fill_row(&mut board, HEIGHT - 3, None);
    assert_eq!(board.full_rows(), vec![HEIGHT - 3, HEIGHT - 1]);
}

#[test]
fn clearing_twice_clears_nothing_the_second_time() {
    let mut board = Board::new();
    fill_row(&mut board, HEIGHT - 1, None);
    fill_row(&mut board, HEIGHT - 2, Some(7));
    fill_row(&mut board, 5, None);
    assert_eq!(board.clear_full_rows(), 2);
    assert!(board.full_rows().is_empty());
    assert_eq!(board.clear_full_rows(), 0);
    // The row with a gap fell to the floor, gap and all.
    assert_eq!(board.get(7, HEIGHT - 1), None);
    assert_eq!(board.get(6, HEIGHT - 1), Some(Kind::I));
}

#[test]
fn cells_outside_the_grid_read_empty_and_ignore_writes() {
    let mut board = Board::new();
    board.set(-1, 0, Some(Kind::Z));
    board.set(WIDTH, 0, Some(Kind::Z));
    board.set(0, HEIGHT, Some(Kind::Z));
    assert!(board.is_empty());
    assert_eq!(board.get(-1, 0), None);
    assert_eq!(board.get(0, -1), None);
}

#[test]
fn locking_writes_the_four_cells_of_the_piece() {
    let mut board = Board::new();
    let piece = Piece { kind: Kind::T, rotation: 0, x: 2, y: 10 };
    board.lock(&piece);
    assert_eq!(board.get(3, 10), Some(Kind::T));
    assert_eq!(board.get(2, 11), Some(Kind::T));
    assert_eq!(board.get(3, 11), Some(Kind::T));
    assert_eq!(board.get(4, 11), Some(Kind::T));
    assert_eq!(board.get(2, 10), None);
    assert!(!board.fits(&piece));
    assert!(board.fits(&piece.moved(0, -2)));
}

#[test]
fn drop_distance_counts_rows_to_the_floor() {
    let board = Board::new();
    let piece = Piece { kind: Kind::I, rotation: 0, x: 3, y: 0 };
    // The I lies in row 1 of its box, so it can fall to row HEIGHT - 1.
    assert_eq!(board.drop_distance(&piece), HEIGHT - 2);
    let ghost = board.ghost(&piece);
    assert!(board.fits(&ghost));
    assert!(!board.fits(&ghost.moved(0, 1)));
}

#[test]
fn a_cloned_board_keeps_every_cell_and_stands_alone() {
    let mut board = Board::default();
    assert!(board.is_empty());
    fill_row(&mut board, HEIGHT - 1, Some(2));
    let copy = board.clone();
    board.set(2, HEIGHT - 1, Some(Kind::O));
    for x in 0..WIDTH {
        let expected = if x == 2 { None } else { Some(Kind::I) };
        assert_eq!(copy.get(x, HEIGHT - 1), expected);
    }
    assert_eq!(board.get(2, HEIGHT - 1), Some(Kind::O));
}

#[test]
fn full_rows_are_listed_top_to_bottom() {
    let mut board = Board::new();
    fill_row(&mut board, HEIGHT - 1, None);
    fill_row(&mut board, HEIGHT - 2, Some(0));
    fill_row(&mut board, HEIGHT - 5, None);
    fill_row(&mut board, 0, None);
    assert_eq!(board.full_rows(), vec![0, HEIGHT - 5, HEIGHT - 1]);
    assert_eq!(board.clone().clear_full_rows(), 3);
}

#[test]
fn the_ghost_of_a_ghost_is_itself() {
    let mut board = Board::new();
    fill_row(&mut board, HEIGHT - 1, Some(4));
    for piece in [
        Piece::spawn(Kind::T, WIDTH, HIDDEN_ROWS),
        Piece { kind: Kind::I, rotation: 1, x: 2, y: -10 },
        Piece { kind: Kind::S, rotation: 0, x: 3, y: HEIGHT - 2 },
    ] {
        let ghost = board.ghost(&piece);
        assert_eq!((ghost.kind, ghost.rotation, ghost.x), (piece.kind, piece.rotation, piece.x));
        assert!(ghost.y >= piece.y);
        assert!(!board.fits(&ghost.moved(0, 1)));
        assert_eq!(board.drop_distance(&ghost), 0);
        assert_eq!(board.ghost(&ghost).y, ghost.y);
    }
}
