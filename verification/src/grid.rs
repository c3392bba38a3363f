//! Row-major grids: facts about the index `row * w + x` of a cell.
use vstd::arithmetic::div_mod::{lemma_fundamental_div_mod, lemma_mod_bound};
use vstd::prelude::*;

verus! {

/// In a grid of `w` by `h` cells stored row by row, the cell in column `x`
/// of row `row` has an index below `w * h`.
pub proof fn lemma_cell_in_range(w: int, h: int, x: int, row: int)
    requires
        0 <= x < w,
        0 <= row < h,
    ensures
        0 <= row * w <= row * w + x < w * h,
{
    assert(0 <= row * w && (row + 1) * w <= h * w && (row + 1) * w == row * w + w && h * w == w
        * h) by (nonlinear_arith)
        requires
            0 <= x < w,
            0 <= row < h,
    ;
}

/// Two different cells of a grid with rows of `w` cells have different
/// indices.
pub proof fn lemma_cells_differ(w: int, x1: int, row1: int, x2: int, row2: int)
    requires
        0 <= x1 < w,
        0 <= x2 < w,
        x1 != x2 || row1 != row2,
    ensures
        row1 * w + x1 != row2 * w + x2,
{
    if row1 < row2 {
        assert(row1 * w + w <= row2 * w) by (nonlinear_arith)
            requires
                row1 + 1 <= row2,
                0 < w,
        ;
    } else if row2 < row1 {
        assert(row2 * w + w <= row1 * w) by (nonlinear_arith)
            requires
                row2 + 1 <= row1,
                0 < w,
        ;
    }
}

/// Every index of a grid of `w` by `h` cells is that of the cell in column
/// `i % w` of row `i / w`.
pub proof fn lemma_index_is_cell(w: int, h: int, i: int)
    requires
        0 <= w,
        0 <= i < w * h,
    ensures
        0 <= i % w < w,
        0 <= i / w < h,
        (i / w) * w + i % w == i,
{
    assert(0 < w) by (nonlinear_arith)
        requires
            0 <= w,
            0 <= i < w * h,
    ;
    lemma_fundamental_div_mod(i, w);
    lemma_mod_bound(i, w);
    assert(0 <= i / w < h) by (nonlinear_arith)
        requires
            0 < w,
            0 <= i < w * h,
            i == w * (i / w) + i % w,
            0 <= i % w < w,
    ;
    assert((i / w) * w == w * (i / w)) by (nonlinear_arith);
}

} // verus!
