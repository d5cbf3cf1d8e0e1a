//! Layout decisions of the overview grid and the overlay scrollbar.

use vstd::prelude::*;

verus! {

/// Columns and rows of the overview grid for `total` tiles: one, two
/// side by side, two by two, three by two, then three columns.
pub open spec fn grid_dimensions_spec(total: int) -> (int, int) {
    if total <= 1 {
        (1, 1)
    } else if total == 2 {
        (2, 1)
    } else if total <= 4 {
        (2, 2)
    } else if total <= 6 {
        (3, 2)
    } else {
        (3, (total + 2) / 3)
    }
}

/// The shape of the overview grid for `total` tiles.
pub fn grid_dimensions(total: usize) -> (d: (usize, usize))
    ensures
        (d.0 as int, d.1 as int) == grid_dimensions_spec(total as int),
{
    if total <= 1 {
        (1, 1)
    } else if total == 2 {
        (2, 1)
    } else if total <= 4 {
        (2, 2)
    } else if total <= 6 {
        (3, 2)
    } else {
        let cols: usize = 3;
        let rows = total / cols + if total % cols == 0 {
            0
        } else {
            1
        };
        (cols, rows)
    }
}

/// How visible the overlay scrollbar is.
#[derive(Debug, Clone, Copy, PartialEq, Eq, Structural)]
pub enum ScrollbarOpacity {
    Hidden,
    Visible,
    Hover,
    Active,
}

/// A drag shows the scrollbar fully, a hovered thumb nearly so, a hovered
/// container faintly; otherwise it is hidden.
pub open spec fn scrollbar_opacity_spec(dragging: bool, thumb_hovered: bool, container_hovered: bool) -> ScrollbarOpacity {
    if dragging {
        ScrollbarOpacity::Active
    } else if thumb_hovered {
        ScrollbarOpacity::Hover
    } else if container_hovered {
        ScrollbarOpacity::Visible
    } else {
        ScrollbarOpacity::Hidden
    }
}

/// The scrollbar's visibility for the pointer and drag state.
pub fn scrollbar_opacity(dragging: bool, thumb_hovered: bool, container_hovered: bool) -> (o: ScrollbarOpacity)
    ensures
        o == scrollbar_opacity_spec(dragging, thumb_hovered, container_hovered),
{
    if dragging {
        ScrollbarOpacity::Active
    } else if thumb_hovered {
        ScrollbarOpacity::Hover
    } else if container_hovered {
        ScrollbarOpacity::Visible
    } else {
        ScrollbarOpacity::Hidden
    }
}

/// The thumb colour (0xRRGGBBAA): accent blue while dragged, grey otherwise.
pub fn scrollbar_thumb_color(dragging: bool) -> (c: u32)
    ensures
        c == if dragging {
            0x007a_ccffu32
        } else {
            0x8888_88ffu32
        },
{
    if dragging {
        0x007a_ccff
    } else {
        0x8888_88ff
    }
}

} // verus!
