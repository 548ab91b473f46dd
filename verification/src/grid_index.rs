//! Row-major indexing facts shared by the grid-shaped structures
//! (visibility masks, tilemaps): cell `(x, y)` of a `cols`-wide grid lives at
//! `y * cols + x`.
use vstd::prelude::*;

verus! {

/// Position of cell `(x, y)` in row-major storage of a `cols`-wide grid.
pub open spec fn cell_index(cols: int, x: int, y: int) -> int {
    y * cols + x
}

/// Cells inside the grid land inside the storage.
pub proof fn lemma_cell_in_bounds(cols: int, rows: int, x: int, y: int)
    requires
        0 <= x < cols,
        0 <= y < rows,
    ensures
        0 <= cell_index(cols, x, y) < cols * rows,
        cell_index(cols, x, y) + 1 <= cols * rows,
{
    assert(0 <= y * cols) by (nonlinear_arith)
        requires 0 <= y, 0 <= cols;
    assert(y * cols + x < cols * rows) by (nonlinear_arith)
        requires 0 <= x < cols, 0 <= y < rows;
}

/// Distinct cells of the grid occupy distinct storage positions.
pub proof fn lemma_cell_injective(cols: int, x1: int, y1: int, x2: int, y2: int)
    requires
        0 <= x1 < cols,
        0 <= x2 < cols,
        0 <= y1,
        0 <= y2,
        cell_index(cols, x1, y1) == cell_index(cols, x2, y2),
    ensures
        x1 == x2,
        y1 == y2,
{
    if y1 < y2 {
        assert(y1 * cols + x1 < y2 * cols + x2) by (nonlinear_arith)
            requires 0 <= x1 < cols, 0 <= x2, y1 < y2;
    } else if y2 < y1 {
        assert(y2 * cols + x2 < y1 * cols + x1) by (nonlinear_arith)
            requires 0 <= x2 < cols, 0 <= x1, y2 < y1;
    }
}

/// Every storage position is the position of exactly one grid cell.
pub proof fn lemma_index_to_cell(cols: int, rows: int, i: int)
    requires
        cols > 0,
        0 <= i < cols * rows,
    ensures
        0 <= i % cols < cols,
        0 <= i / cols < rows,
        cell_index(cols, i % cols, i / cols) == i,
{
    assert(i == (i / cols) * cols + i % cols) by (nonlinear_arith)
        requires cols > 0;
    assert(0 <= i % cols < cols) by (nonlinear_arith)
        requires cols > 0;
    assert(0 <= i / cols < rows) by (nonlinear_arith)
        requires cols > 0, 0 <= i < cols * rows;
}

} // verus!
