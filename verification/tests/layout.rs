use ratatui_tetris::layout::{Area, MIN_H, MIN_W, center, next_panel_height, preview_slot, too_small};

#[test]
fn centering_keeps_the_rect_inside_its_parent() {
    let parent = Area { x: 0, y: 0, width: 80, height: 24 };
    let child = center(parent, 50, 23);
    assert_eq!((child.width, child.height), (50, 23));
    assert!(child.x + child.width <= parent.width);
    assert!(child.y + child.height <= parent.height);
}

#[test]
fn centering_clamps_to_a_small_parent() {
    let parent = Area { x: 0, y: 0, width: 10, height: 4 };
    let child = center(parent, 50, 23);
    assert_eq!((child.width, child.height), (10, 4));
}

#[test]
fn centering_splits_the_margin_rounding_down() {
    let parent = Area { x: 5, y: 2, width: 81, height: 25 };
    let child = center(parent, 50, 22);
    assert_eq!(child, Area { x: 5 + 15, y: 2 + 1, width: 50, height: 22 });
}

#[test]
fn the_minimum_terminal_is_fifty_by_twenty_four() {
    assert_eq!((MIN_W, MIN_H), (50, 24));
    assert!(!too_small(50, 24));
    assert!(!too_small(200, 60));
    assert!(too_small(49, 24));
    assert!(too_small(50, 23));
    assert!(too_small(1, 1));
}

#[test]
fn previews_get_two_rows_each() {
    assert_eq!(next_panel_height(1, 22), 4);
    assert_eq!(next_panel_height(3, 5), 5);
    let inner = Area { x: 3, y: 10, width: 12, height: 3 };
    assert_eq!(preview_slot(inner, 0), Some(Area { x: 3, y: 10, width: 12, height: 2 }));
    assert_eq!(preview_slot(inner, 1), Some(Area { x: 3, y: 12, width: 12, height: 1 }));
    assert_eq!(preview_slot(inner, 2), None);
}
