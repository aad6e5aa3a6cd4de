//! Screen geometry that does not depend on the terminal library: the sizes
//! of the panels, the smallest terminal the game fits in, and centring.

use vstd::prelude::*;

verus! {

/// Terminal columns used per board cell, so that blocks come out roughly square.
pub const CELL_W: u16 = 2;

/// Width of the playfield frame: ten cells of two columns, plus its border.
pub const PLAYFIELD_W: u16 = 22;

/// Height of the playfield frame: twenty visible rows, plus its border.
pub const PLAYFIELD_H: u16 = 22;

/// Width of each side panel: twelve columns inside its border, enough for a
/// six-column label beside a six-column number.
pub const SIDE_W: u16 = 14;

/// Rows of key hints under the playfield.
pub const FOOTER_H: u16 = 2;

/// The narrowest terminal the game is laid out in.
pub const MIN_W: u16 = SIDE_W * 2 + PLAYFIELD_W;

/// The shortest terminal the game is laid out in.
pub const MIN_H: u16 = PLAYFIELD_H + FOOTER_H;

/// The playfield frame fits the visible board exactly: two columns per
/// cell, inside a one-cell border.
pub proof fn lemma_playfield_fits_board()
    ensures
        PLAYFIELD_W == crate::board::WIDTH * CELL_W + 2,
        PLAYFIELD_H == crate::board::VISIBLE_ROWS + 2,
{
}

/// Is a terminal of this size too small for the game? Then it shows a size
/// hint instead.
pub fn too_small(width: u16, height: u16) -> (small: bool)
    ensures
        small == (width < 50 || height < 24),
{
    width < MIN_W || height < MIN_H
}

/// A rectangle of terminal cells.
#[derive(Debug, Clone, Copy, PartialEq, Eq, Structural)]
pub struct Area {
    pub x: u16,
    pub y: u16,
    pub width: u16,
    pub height: u16,
}

/// The smaller of two sizes.
pub open spec fn min_size(a: u16, b: u16) -> u16 {
    if a < b {
        a
    } else {
        b
    }
}

/// Carve a `w` x `h` rectangle out of the middle of `area`, clamped to fit.
pub fn center(area: Area, w: u16, h: u16) -> (inner: Area)
    requires
        area.x + (area.width - min_size(w, area.width)) / 2 <= u16::MAX,
        area.y + (area.height - min_size(h, area.height)) / 2 <= u16::MAX,
    ensures
        inner.width == min_size(w, area.width),
        inner.height == min_size(h, area.height),
        inner.x == area.x + (area.width - inner.width) / 2,
        inner.y == area.y + (area.height - inner.height) / 2,
{
    let w = if w < area.width {
        w
    } else {
        area.width
    };
    let h = if h < area.height {
        h
    } else {
        area.height
    };
    Area { x: area.x + (area.width - w) / 2, y: area.y + (area.height - h) / 2, width: w, height: h }
}

/// A centred rectangle lies inside the one it was carved from.
pub proof fn lemma_centered_inside(area: Area, w: u16, h: u16)
    ensures
        ({
            let iw = min_size(w, area.width);
            let ih = min_size(h, area.height);
            let ix = area.x + (area.width - iw) / 2;
            let iy = area.y + (area.height - ih) / 2;
            &&& area.x <= ix
            &&& ix + iw <= area.x + area.width
            &&& area.y <= iy
            &&& iy + ih <= area.y + area.height
        }),
{
}

/// Height of the NEXT panel for `count` previews: two rows each plus its
/// border, as far as `available` rows allow.
pub fn next_panel_height(count: u16, available: u16) -> (height: u16)
    requires
        count * 2 + 2 <= u16::MAX,
    ensures
        height == min_size((count * 2 + 2) as u16, available),
{
    let wanted = count * 2 + 2;
    if wanted < available {
        wanted
    } else {
        available
    }
}

/// Where preview `slot` goes inside the NEXT panel: two rows per slot from
/// the top, cut off at the panel's bottom; nothing once the slot starts
/// below it.
pub fn preview_slot(inner: Area, slot: u16) -> (place: Option<Area>)
    requires
        inner.y + inner.height <= u16::MAX,
        inner.y + slot * 2 <= u16::MAX,
    ensures
        inner.y + slot * 2 >= inner.y + inner.height ==> place is None,
        inner.y + slot * 2 < inner.y + inner.height ==> place == Some(
            Area {
                x: inner.x,
                y: (inner.y + slot * 2) as u16,
                width: inner.width,
                height: min_size((inner.y + inner.height - (inner.y + slot * 2)) as u16, 2),
            },
        ),
{
    let y = inner.y + slot * 2;
    let bottom = inner.y + inner.height;
    if y >= bottom {
        return None;
    }
    let left = bottom - y;
    let height = if left < 2 {
        left
    } else {
        2
    };
    Some(Area { x: inner.x, y, width: inner.width, height })
}

} // verus!
