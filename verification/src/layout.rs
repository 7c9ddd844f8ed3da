//! Row-major storage of two-dimensional grids, and the arithmetic that relates
//! a cell's column and row to its place in the flat buffer.

use vstd::arithmetic::div_mod::lemma_fundamental_div_mod;
use vstd::arithmetic::div_mod::lemma_fundamental_div_mod_converse;
use vstd::prelude::*;

verus! {

/// Column of the cell at place `k` of a grid that is `w` cells wide.
pub open spec fn col(k: int, w: int) -> int {
    k % w
}

/// Row of the cell at place `k` of a grid that is `w` cells wide.
pub open spec fn row(k: int, w: int) -> int {
    k / w
}

/// Place of the cell in column `i` and row `j` of a grid that is `w` cells wide.
pub open spec fn place(i: int, j: int, w: int) -> int {
    i + w * j
}

/// A place is the place of its own column and row.
pub proof fn lemma_place_of_col_row(k: int, w: int)
    requires
        0 <= k,
        0 < w,
    ensures
        place(col(k, w), row(k, w), w) == k,
        0 <= col(k, w) < w,
        0 <= row(k, w),
{
    lemma_fundamental_div_mod(k, w);
    assert(0 <= k / w) by (nonlinear_arith)
        requires
            0 <= k,
            0 < w,
    ;
}

/// Column and row of the place of `(i, j)` are `i` and `j`, so no two cells
/// share a place.
pub proof fn lemma_col_row_of_place(i: int, j: int, w: int)
    requires
        0 <= i < w,
        0 <= j,
    ensures
        col(place(i, j, w), w) == i,
        row(place(i, j, w), w) == j,
        0 <= place(i, j, w),
{
    assert(w * j == j * w) by (nonlinear_arith);
    assert(0 <= w * j) by (nonlinear_arith)
        requires
            0 <= w,
            0 <= j,
    ;
    lemma_fundamental_div_mod_converse(place(i, j, w), w, j, i);
}

/// The cells of a grid of `w` columns and `h` rows take up the first `w * h`
/// places.
pub proof fn lemma_place_in_grid(i: int, j: int, w: int, h: int)
    requires
        0 <= i < w,
        0 <= j < h,
    ensures
        0 <= place(i, j, w) < w * h,
        0 <= w * j,
        w * j + w <= w * h,
{
    assert(0 <= w * j && w * j + w <= w * h) by (nonlinear_arith)
        requires
            0 < w,
            0 <= j < h,
    ;
}

/// Every place of a grid of `w` columns and `h` rows lies in one of the rows.
pub proof fn lemma_row_in_grid(k: int, w: int, h: int)
    requires
        0 < w,
        0 <= k < w * h,
    ensures
        0 <= row(k, w) < h,
        0 <= col(k, w) < w,
{
    lemma_place_of_col_row(k, w);
    let r = row(k, w);
    assert(r < h) by (nonlinear_arith)
        requires
            w * r <= k < w * h,
            0 < w,
    ;
}

/// Buffer of `len` copies of `value`.
pub fn filled<A: Copy>(value: A, len: usize) -> (buf: Vec<A>)
    ensures
        buf@ == Seq::new(len as nat, |k: int| value),
{
    let mut buf: Vec<A> = Vec::new();
    let mut k: usize = 0;
    while k < len
        invariant
            k <= len,
            buf@ =~= Seq::new(k as nat, |k: int| value),
        decreases len - k,
    {
        buf.push(value);
        k = k + 1;
    }
    buf
}

/// Overwrite every element of `buf` with `value`.
pub fn overwrite<A: Copy>(buf: &mut Vec<A>, value: A)
    ensures
        final(buf)@ == Seq::new(old(buf)@.len(), |k: int| value),
{
    let len: usize = buf.len();
    let mut k: usize = 0;
    while k < len
        invariant
            k <= len,
            len == buf@.len(),
            len == old(buf)@.len(),
            forall|c: int| 0 <= c < k ==> buf@[c] == value,
        decreases len - k,
    {
        buf.set(k, value);
        k = k + 1;
    }
    assert(buf@ =~= Seq::new(old(buf)@.len(), |k: int| value));
}

/// Overwrite the elements of `buf` with those of `source`.
pub fn copy_over<A: Copy>(buf: &mut Vec<A>, source: &Vec<A>)
    requires
        old(buf)@.len() == source@.len(),
    ensures
        final(buf)@ == source@,
{
    let len: usize = buf.len();
    let mut k: usize = 0;
    while k < len
        invariant
            k <= len,
            len == buf@.len(),
            len == source@.len(),
            forall|c: int| 0 <= c < k ==> #[trigger] buf@[c] == source@[c],
        decreases len - k,
    {
        buf.set(k, source[k]);
        k = k + 1;
    }
    assert(buf@ =~= source@);
}

} // verus!
