//! Integer points and the arithmetic of cells in a grid.
use vstd::prelude::*;

verus! {

/// A point, or a step between two points, on an integer grid.
#[derive(Debug, Clone, Copy, PartialEq, Eq, Hash, Structural)]
pub struct IVec2 {
    pub x: i32,
    pub y: i32,
}

impl IVec2 {
    /// The point `(x, y)`.
    pub fn new(x: i32, y: i32) -> (point: IVec2)
        ensures
            point.x == x,
            point.y == y,
    {
        IVec2 { x, y }
    }
}

/// Whether `(x, y)` is a cell of a grid of `w` columns and `h` rows.
pub open spec fn in_grid(w: int, h: int, x: int, y: int) -> bool {
    0 <= x < w && 0 <= y < h
}

/// The place of cell `(x, y)` in a grid of `w` columns that is stored row by
/// row.
pub open spec fn cell_index(w: int, x: int, y: int) -> int {
    y * w + x
}

/// A cell of the grid has its place within the grid's storage.
pub proof fn lemma_cell_index_in_range(w: int, h: int, x: int, y: int)
    requires
        in_grid(w, h, x, y),
    ensures
        0 <= cell_index(w, x, y) < w * h,
        y * w <= cell_index(w, x, y) < (y + 1) * w,
{
    assert(0 <= y * w && (y + 1) * w <= h * w && (y + 1) * w == y * w + w && h * w == w * h)
        by (nonlinear_arith)
        requires
            0 <= y < h,
            0 < w,
    ;
}

/// Two cells of the grid that share a place are one cell.
pub proof fn lemma_cell_index_injective(w: int, x1: int, y1: int, x2: int, y2: int)
    requires
        0 <= x1 < w,
        0 <= x2 < w,
        cell_index(w, x1, y1) == cell_index(w, x2, y2),
    ensures
        x1 == x2,
        y1 == y2,
{
    assert(y1 == y2) by (nonlinear_arith)
        requires
            0 <= x1 < w,
            0 <= x2 < w,
            y1 * w + x1 == y2 * w + x2,
    ;
}

/// Cells in a later row come later in storage, and so do later cells of one
/// row.
pub proof fn lemma_cell_index_ordered(w: int, x1: int, y1: int, x2: int, y2: int)
    requires
        0 <= x1 < w,
        0 <= x2 < w,
        y1 < y2 || (y1 == y2 && x1 < x2),
    ensures
        cell_index(w, x1, y1) < cell_index(w, x2, y2),
{
    assert(y1 * w + x1 < y2 * w + x2) by (nonlinear_arith)
        requires
            0 <= x1 < w,
            0 <= x2 < w,
            y1 < y2 || (y1 == y2 && x1 < x2),
    ;
}

/// Every place in a grid's storage is the place of a cell.
pub proof fn lemma_index_has_cell(w: int, h: int, i: int)
    requires
        0 <= i < w * h,
        0 < w,
    ensures
        in_grid(w, h, i % w, i / w),
        cell_index(w, i % w, i / w) == i,
{
    vstd::arithmetic::div_mod::lemma_fundamental_div_mod(i, w);
    vstd::arithmetic::div_mod::lemma_mod_bound(i, w);
    assert(i / w < h && 0 <= i / w && w * (i / w) == (i / w) * w) by (nonlinear_arith)
        requires
            0 <= i < w * h,
            0 < w,
            i == w * (i / w) + i % w,
            0 <= i % w < w,
    ;
}

} // verus!
