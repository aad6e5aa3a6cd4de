use ratatui_tetris::tetromino::{ALL_KINDS, Bag, Color, Kind, Piece, Spin, kicks};

#[test]
fn every_rotation_has_four_distinct_cells() {
    for kind in ALL_KINDS {
        for rotation in 0..4u8 {
            let cells = kind.cells(rotation);
            let mut seen = cells.to_vec();
            seen.sort_unstable();
            seen.dedup();
            assert_eq!(seen.len(), 4, "{kind:?} r{rotation} has duplicate cells");
        }
    }
}

#[test]
fn rotations_stay_inside_the_bounding_box() {
    for kind in ALL_KINDS {
        let size = kind.box_size() as i8;
        for rotation in 0..4u8 {
            for (x, y) in kind.cells(rotation) {
                assert!(
                    (0..size).contains(&x) && (0..size).contains(&y),
                    "{kind:?} r{rotation} cell ({x},{y}) escapes its {size}x{size} box"
                );
            }
        }
    }
}

#[test]
fn rotating_four_times_returns_to_start() {
    for kind in ALL_KINDS {
        let mut r = 0u8;
        for _ in 0..4 {
            r = Spin::Cw.apply(r);
        }
        assert_eq!(r, 0, "{kind:?} did not cycle back to spawn rotation");
    }
}

#[test]
fn bag_deals_each_kind_once_per_seven() {
    let mut bag = Bag::new();
    for _ in 0..10 {
        let mut batch: Vec<Kind> = (0..7).map(|_| bag.next()).collect();
        batch.sort_unstable_by_key(|k| format!("{k:?}"));
        batch.dedup();
        assert_eq!(batch.len(), 7, "a bag of seven repeated a kind");
    }
}

#[test]
fn preview_matches_the_pieces_that_are_dealt() {
    let mut bag = Bag::new();
    let expected: Vec<Kind> = bag.preview(5).to_vec();
    let actual: Vec<Kind> = (0..5).map(|_| bag.next()).collect();
    assert_eq!(expected, actual);
}

#[test]
fn a_fresh_bag_holds_two_whole_batches() {
    let bag = Bag::new();
    let all = bag.preview(100);
    assert_eq!(all.len(), 14);
    for half in [&all[..7], &all[7..]] {
        for kind in ALL_KINDS {
            assert_eq!(half.iter().filter(|&&k| k == kind).count(), 1);
        }
    }
}

#[test]
fn the_preview_never_runs_short() {
    let mut bag = Bag::new();
    for _ in 0..50 {
        assert!(bag.preview(7).len() == 7);
        bag.next();
    }
}

#[test]
fn spins_turn_by_their_quarter_turns() {
    assert_eq!(Spin::Cw.apply(0), 1);
    assert_eq!(Spin::Cw.apply(3), 0);
    assert_eq!(Spin::Ccw.apply(0), 3);
    assert_eq!(Spin::Ccw.apply(2), 1);
    assert_eq!(Spin::Flip.apply(1), 3);
    assert_eq!(Spin::Flip.apply(6), 0);
    // A clockwise turn undone by a counter-clockwise one.
    assert_eq!(Spin::Ccw.apply(Spin::Cw.apply(2)), 2);
}

#[test]
fn kick_tables_follow_srs() {
    assert_eq!(kicks(Kind::O, 0, 1), vec![(0, 0)]);
    assert_eq!(kicks(Kind::T, 0, 1), vec![(0, 0), (-1, 0), (-1, -1), (0, 2), (-1, 2)]);
    assert_eq!(kicks(Kind::T, 3, 2), vec![(0, 0), (-1, 0), (-1, 1), (0, -2), (-1, -2)]);
    assert_eq!(kicks(Kind::I, 0, 1), vec![(0, 0), (-2, 0), (1, 0), (-2, 1), (1, -2)]);
    assert_eq!(kicks(Kind::I, 4, 5), vec![(0, 0), (-2, 0), (1, 0), (-2, 1), (1, -2)]);
    assert_eq!(kicks(Kind::J, 0, 2), vec![(0, 0), (0, -1), (1, 0), (-1, 0)]);
}

#[test]
fn pieces_spawn_centred_straddling_the_ceiling() {
    let i = Piece::spawn(Kind::I, 10, 4);
    assert_eq!((i.x, i.y, i.rotation), (3, 3, 0));
    let t = Piece::spawn(Kind::T, 10, 4);
    assert_eq!((t.x, t.y), (3, 3));
    let narrow = Piece::spawn(Kind::T, 0, 4);
    assert_eq!(narrow.x, -1);
    let cells = t.cells();
    assert_eq!(cells, [(4, 3), (3, 4), (4, 4), (5, 4)]);
    let moved = t.moved(-2, 5);
    assert_eq!((moved.x, moved.y, moved.kind), (1, 8, Kind::T));
}

#[test]
fn kinds_index_in_statistics_order() {
    for (i, kind) in ALL_KINDS.iter().enumerate() {
        assert_eq!(kind.index(), i);
    }
}

#[test]
fn each_kind_has_its_own_colour() {
    let colours: Vec<Color> = ALL_KINDS.iter().map(|k| k.color()).collect();
    assert_eq!(
        colours,
        vec![Color::Cyan, Color::Yellow, Color::Magenta, Color::Green, Color::Red, Color::Blue, Color::LightRed]
    );
}

#[test]
fn a_default_bag_deals_whole_batches() {
    let mut bag = Bag::default();
    let mut batch: Vec<Kind> = (0..7).map(|_| bag.next()).collect();
    batch.sort_unstable_by_key(|k| format!("{k:?}"));
    batch.dedup();
    assert_eq!(batch.len(), 7);
}

#[test]
fn opposite_turns_cancel_and_two_flips_return() {
    for rotation in 0..4u8 {
        assert_eq!(Spin::Ccw.apply(Spin::Cw.apply(rotation)), rotation);
        assert_eq!(Spin::Cw.apply(Spin::Ccw.apply(rotation)), rotation);
        assert_eq!(Spin::Flip.apply(Spin::Flip.apply(rotation)), rotation);
    }
}

#[test]
fn each_rotation_is_the_last_turned_a_quarter() {
    for kind in ALL_KINDS {
        let side = kind.box_size() as i8;
        for rotation in 0..4u8 {
            let mut turned: Vec<(i8, i8)> = kind.cells(rotation).iter().map(|&(x, y)| (side - 1 - y, x)).collect();
            let mut next = kind.cells(rotation + 1).to_vec();
            turned.sort_unstable();
            next.sort_unstable();
            if kind == Kind::O {
                assert_eq!(kind.cells(rotation), kind.cells(0));
            } else {
                assert_eq!(turned, next, "{kind:?} r{rotation}");
            }
        }
    }
}
