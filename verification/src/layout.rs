//! Arithmetic facts about cells laid out row by row in a flat buffer.

use vstd::prelude::*;
use vstd::arithmetic::div_mod::{lemma_fundamental_div_mod, lemma_fundamental_div_mod_converse};
use vstd::arithmetic::mul::{lemma_mul_inequality, lemma_mul_is_commutative, lemma_mul_is_distributive_add};

verus! {

/// The flat index of column `x` in row `y` lies inside a `w` by `h` grid.
pub proof fn lemma_cell_in_grid(x: int, y: int, w: int, h: int)
    requires
        0 <= x < w,
        0 <= y < h,
    ensures
        0 <= y * w,
        y * w + x < w * h,
        y * w + w <= w * h,
{
    assert(0 <= y * w) by (nonlinear_arith)
        requires 0 <= y, 0 <= w;
    assert((y + 1) * w <= h * w) by (nonlinear_arith)
        requires y + 1 <= h, 0 <= w;
    assert((y + 1) * w == y * w + w) by (nonlinear_arith);
    assert(h * w == w * h) by (nonlinear_arith);
}

/// A flat index determines its row and column.
pub proof fn lemma_cell_of_index(x: int, y: int, w: int)
    requires
        0 <= x < w,
    ensures
        (y * w + x) / w == y,
        (y * w + x) % w == x,
{
    lemma_fundamental_div_mod_converse(y * w + x, w, y, x);
}

/// Every non-negative flat index names one cell of its row.
pub proof fn lemma_index_to_cell(i: int, w: int)
    requires
        0 <= i,
        0 < w,
    ensures
        0 <= i / w,
        0 <= i % w < w,
        (i / w) * w + i % w == i,
{
    lemma_fundamental_div_mod(i, w);
    lemma_mul_is_commutative(w, i / w);
    assert(0 <= i / w) by (nonlinear_arith)
        requires 0 <= i, 0 < w;
}

/// A flat index below `w * h` lies in one of the first `h` rows.
pub proof fn lemma_index_row_in_grid(i: int, w: int, h: int)
    requires
        0 <= i < w * h,
        0 < w,
    ensures
        i / w < h,
{
    lemma_index_to_cell(i, w);
    if i / w >= h {
        assert((i / w) * w >= h * w) by (nonlinear_arith)
            requires i / w >= h, 0 < w;
        assert(h * w == w * h) by (nonlinear_arith);
    }
}

} // verus!
