//! Row-by-row storage of a rectangle of cells.

use vstd::prelude::*;
use crate::text::{decimal, number_in_text};

verus! {

/// The text of the error for a coordinate outside a rectangle of the given width.
pub open spec fn invalid_coordinate_text(width: u16, x: u16, y: u16) -> Seq<char> {
    if x >= width {
        "Invalid x value "@ + decimal(x as nat) + ". It is greater than the width of the image."@
    } else {
        "Invalid y value "@ + decimal(y as nat) + ". It is greater than the height of the image."@
    }
}

/// The error for the coordinate `(x, y)`, which lies outside a rectangle of
/// the given size.
pub fn coordinate_error(width: u16, height: u16, x: u16, y: u16) -> (message: String)
    requires
        x >= width || y >= height,
    ensures
        message@ == invalid_coordinate_text(width, x, y),
{
    if x >= width {
        number_in_text("Invalid x value ", x as usize, ". It is greater than the width of the image.")
    } else {
        number_in_text("Invalid y value ", y as usize, ". It is greater than the height of the image.")
    }
}

/// The place of cell `(x, y)` in the row-by-row sequence of a rectangle that
/// is `width` cells wide.
pub open spec fn cell_index(width: int, x: int, y: int) -> int {
    y * width + x
}

/// A cell inside a rectangle has a place among its `width * height` cells.
pub proof fn lemma_cell_in_range(width: int, height: int, x: int, y: int)
    requires
        0 <= x < width <= 0xffff,
        0 <= y < height <= 0xffff,
    ensures
        0 <= cell_index(width, x, y) < width * height <= 0xffff * 0xffff,
{
    assert(0 <= y * width && y * width + width <= width * height && width * height <= 0xffff
        * 0xffff) by (nonlinear_arith)
        requires
            0 <= y < height <= 0xffff,
            0 <= width <= 0xffff,
    ;
}

/// Two cells of a row-by-row rectangle that share a place are the same cell.
pub proof fn lemma_cell_injective(width: int, x1: int, y1: int, x2: int, y2: int)
    requires
        0 <= x1 < width,
        0 <= x2 < width,
        cell_index(width, x1, y1) == cell_index(width, x2, y2),
    ensures
        x1 == x2,
        y1 == y2,
{
    assert(y1 == y2) by (nonlinear_arith)
        requires
            0 <= x1 < width,
            0 <= x2 < width,
            y1 * width + x1 == y2 * width + x2,
    ;
}

/// Every place of a rectangle belongs to one of its cells.
pub proof fn lemma_cell_of_index(width: int, height: int, index: int)
    requires
        0 <= index < width * height,
        0 < width,
    ensures
        0 <= index % width < width,
        0 <= index / width < height,
        cell_index(width, index % width, index / width) == index,
{
    vstd::arithmetic::div_mod::lemma_fundamental_div_mod(index, width);
    assert(0 <= index / width < height) by (nonlinear_arith)
        requires
            0 <= index < width * height,
            0 < width,
            index == width * (index / width) + index % width,
            0 <= index % width < width,
    ;
    assert(width * (index / width) == (index / width) * width) by (nonlinear_arith);
}

} // verus!
