//! Two-dimensional Eulerian smoke: a gas on a fixed grid, after Jos Stam's
//! "Real-Time Fluid Dynamics for Games". Velocity and density are fields; a step
//! applies forces, diffuses, advects, and projects the velocity onto a field
//! without divergence. Buoyancy makes the smoke rise and vorticity confinement
//! puts back the small curls that the grid smears out.
//!
//! The grid has `n` by `n` interior cells and a border of one cell, stored row
//! by row in buffers of `(n + 2) * (n + 2)` values. Row `j` counts upward.

use crate::layout::filled;
use crate::layout::overwrite;
use crate::scalar::Scalar;
#[allow(unused_imports)]
use crate::layout::{
    col, lemma_col_row_of_place, lemma_place_in_grid, lemma_place_of_col_row, lemma_row_in_grid,
    place, row,
};
#[allow(unused_imports)]
use crate::scalar::{
    clamped, count, diff, eq, exact, ge, index, lit, lt, magnitude, neg, nil, prod, quot, root, sum,
};
use vstd::prelude::*;

verus! {

/// Passes over the grid that a pressure or diffusion solve makes.
pub const SWEEPS: usize = 20;

/// Flat index of cell `(i, j)` on a grid of `n` interior cells a side.
pub fn ix(i: usize, j: usize, n: usize) -> (k: usize)
    requires
        n + 2 <= usize::MAX,
        i + (n + 2) * j <= usize::MAX,
    ensures
        k == place(i as int, j as int, n + 2),
{
    proof {
        assert(0 <= (n + 2) * j) by (nonlinear_arith);
    }
    i + (n + 2) * j
}

/// Number of cells of the grid, border cells among them.
pub open spec fn cells(n: int) -> int {
    (n + 2) * (n + 2)
}

/// The cell at place `k` is not on the border.
pub open spec fn interior(k: int, n: int) -> bool {
    1 <= col(k, n + 2) <= n && 1 <= row(k, n + 2) <= n
}

/// `x` with `f(k, x[k])` in every interior cell `k` and the border as it was.
pub open spec fn each_cell<T>(x: Seq<T>, n: int, f: spec_fn(int, T) -> T) -> Seq<T> {
    Seq::new(
        x.len(),
        |k: int|
            if interior(k, n) {
                f(k, x[k])
            } else {
                x[k]
            },
    )
}

/// An interior cell and its four neighbours lie on the grid.
pub(crate) proof fn lemma_neighbours(k: int, n: int)
    requires
        0 <= n,
        0 <= k,
        interior(k, n),
    ensures
        n + 2 <= k,
        k + n + 2 < cells(n),
        1 <= n,
{
    let w = n + 2;
    lemma_place_of_col_row(k, w);
    lemma_place_in_grid(col(k, w), row(k, w) + 1, w, w);
    assert(w * (row(k, w) + 1) == w * row(k, w) + w) by (nonlinear_arith);
    assert(w * row(k, w) >= w) by (nonlinear_arith)
        requires
            row(k, w) >= 1,
            w >= 0,
    ;
}

/// No interior cell comes before the first of row one, nor after the last of
/// row `n`, nor between the last of a row and the first of the next.
proof fn lemma_border(k: int, j: int, n: int)
    requires
        0 <= n,
        0 <= k,
        0 <= j,
    ensures
        k < 1 + (n + 2) ==> !interior(k, n),
        k >= 1 + (n + 2) * (n + 1) ==> !interior(k, n),
        place(n + 1, j, n + 2) <= k < place(1, j + 1, n + 2) ==> !interior(k, n),
{
    let w = n + 2;
    lemma_place_of_col_row(k, w);
    let r = row(k, w);
    let c = col(k, w);
    if k < 1 + w {
        if interior(k, n) {
            assert(w * r >= w) by (nonlinear_arith)
                requires
                    r >= 1,
                    w >= 0,
            ;
        }
    }
    if k >= 1 + w * (n + 1) {
        if interior(k, n) {
            assert(w * r <= w * n) by (nonlinear_arith)
                requires
                    r <= n,
                    w >= 0,
            ;
            assert(w * (n + 1) == w * n + w) by (nonlinear_arith);
        }
    }
    if place(n + 1, j, w) <= k < place(1, j + 1, w) {
        assert(w * (j + 1) == w * j + w) by (nonlinear_arith);
        if k == place(n + 1, j, w) {
            lemma_col_row_of_place(n + 1, j, w);
        } else {
            assert(k == place(0, j + 1, w));
            lemma_col_row_of_place(0, j + 1, w);
        }
    }
}

/// Index of a cell that lies on the grid.
fn cell(i: usize, j: usize, n: usize) -> (k: usize)
    requires
        i < n + 2,
        j < n + 2,
        cells(n as int) <= usize::MAX,
    ensures
        k == place(i as int, j as int, n + 2),
        k < cells(n as int),
        col(k as int, n + 2) == i,
        row(k as int, n + 2) == j,
{
    proof {
        let w = n + 2;
        lemma_col_row_of_place(i as int, j as int, w);
        lemma_place_in_grid(i as int, j as int, w, w);
        assert(w <= w * w) by (nonlinear_arith)
            requires
                w >= 1,
        ;
    }
    ix(i, j, n)
}

/// Cell `k` is the one in column `i` and row `j`, and lies in the interior.
pub open spec fn is_cell(i: usize, j: usize, k: usize, n: usize) -> bool {
    &&& k < cells(n as int)
    &&& i == col(k as int, n + 2)
    &&& j == row(k as int, n + 2)
    &&& interior(k as int, n as int)
}

/// Replace every interior cell by what `f` gives for its column, its row, its
/// index and its value.
fn update_cells<T: Copy, F: Fn(usize, usize, usize, T) -> T>(n: usize, x: &mut Vec<T>, f: F)
    requires
        cells(n as int) <= usize::MAX,
        old(x)@.len() == cells(n as int),
        forall|k: usize, i: usize, j: usize, t: T|
            is_cell(i, j, k, n) ==> #[trigger] call_requires(f, (i, j, k, t)),
    ensures
        final(x)@.len() == old(x)@.len(),
        forall|k: int|
            0 <= k < old(x)@.len() && !interior(k, n as int) ==> #[trigger] final(x)@[k] == old(x)@[k],
        forall|k: int|
            0 <= k < old(x)@.len() && interior(k, n as int) ==> call_ensures(
                f,
                (col(k, n + 2) as usize, row(k, n + 2) as usize, k as usize, old(x)@[k]),
                #[trigger] final(x)@[k],
            ),
{
    let ghost x0 = x@;
    let ghost w = n + 2;
    proof {
        assert forall|k: int| 0 <= k < 1 + w implies !interior(k, n as int) by {
            lemma_border(k, 0, n as int);
        }
        assert(place(1, 1, w) == 1 + w) by (nonlinear_arith)
            requires
                place(1, 1, w) == 1 + w * 1,
        ;
    }
    let mut j: usize = 1;
    while j <= n
        invariant
            1 <= j <= n + 1,
            w == n + 2,
            cells(n as int) <= usize::MAX,
            x0.len() == cells(n as int),
            x@.len() == x0.len(),
            forall|k: usize, i: usize, j: usize, t: T|
                is_cell(i, j, k, n) ==> #[trigger] call_requires(f, (i, j, k, t)),
            forall|k: int|
                0 <= k < x0.len() && !(interior(k, n as int) && k < place(1, j as int, w))
                    ==> #[trigger] x@[k] == x0[k],
            forall|k: int|
                0 <= k < x0.len() && interior(k, n as int) && k < place(1, j as int, w)
                    ==> call_ensures(
                    f,
                    (col(k, w) as usize, row(k, w) as usize, k as usize, x0[k]),
                    #[trigger] x@[k],
                ),
        decreases n + 1 - j,
    {
        let mut i: usize = 1;
        while i <= n
            invariant
                1 <= i <= n + 1,
                1 <= j <= n,
                w == n + 2,
                cells(n as int) <= usize::MAX,
                x0.len() == cells(n as int),
                x@.len() == x0.len(),
                forall|k: usize, i: usize, j: usize, t: T|
                    is_cell(i, j, k, n) ==> #[trigger] call_requires(f, (i, j, k, t)),
                forall|k: int|
                    0 <= k < x0.len() && !(interior(k, n as int) && k < place(
                        i as int,
                        j as int,
                        w,
                    )) ==> #[trigger] x@[k] == x0[k],
                forall|k: int|
                    0 <= k < x0.len() && interior(k, n as int) && k < place(i as int, j as int, w)
                        ==> call_ensures(
                        f,
                        (col(k, w) as usize, row(k, w) as usize, k as usize, x0[k]),
                        #[trigger] x@[k],
                    ),
            decreases n + 1 - i,
        {
            let k: usize = cell(i, j, n);
            let value: T = f(i, j, k, x[k]);
            assert(interior(k as int, n as int));
            x.set(k, value);
            i = i + 1;
            assert(place(i as int, j as int, w) == k + 1);
        }
        proof {
            assert(place(1, j + 1, w) == place(n + 1, j as int, w) + 2) by (nonlinear_arith)
                requires
                    w == n + 2,
                    place(1, j + 1, w) == 1 + w * (j + 1),
                    place(n + 1, j as int, w) == n + 1 + w * j,
            ;
            assert forall|k: int| place(n + 1, j as int, w) <= k < place(1, j + 1, w) implies
                !interior(k, n as int) by {
                lemma_col_row_of_place(n + 1, j as int, w);
                lemma_border(k, j as int, n as int);
            }
        }
        j = j + 1;
    }
    proof {
        assert forall|k: int| place(1, n + 1, w) <= k implies !interior(k, n as int) by {
            lemma_col_row_of_place(1, n + 1, w);
            lemma_border(k, 0, n as int);
        }
    }
}

/// The value, or its negative at a wall that the velocity component meets.
pub open spec fn mirrored<T: Scalar>(value: T, flip: bool) -> T {
    if flip {
        neg(value)
    } else {
        value
    }
}

/// What a cell holds once the four edges have been copied from the cells next
/// to them. Component `b` says what the field is: one for the horizontal
/// velocity, which the left and right walls reflect, two for the vertical
/// velocity, which the floor and the ceiling reflect.
pub open spec fn edge_value<T: Scalar>(n: int, b: u32, x: Seq<T>, k: int) -> T {
    let w = n + 2;
    let c = col(k, w);
    let r = row(k, w);
    if 1 <= r <= n && c == 0 {
        mirrored(x[k + 1], b == 1)
    } else if 1 <= r <= n && c == n + 1 {
        mirrored(x[k - 1], b == 1)
    } else if 1 <= c <= n && r == 0 {
        mirrored(x[k + w], b == 2)
    } else if 1 <= c <= n && r == n + 1 {
        mirrored(x[k - w], b == 2)
    } else {
        x[k]
    }
}

/// `x` with its four edges set.
pub open spec fn edged<T: Scalar>(n: int, b: u32, x: Seq<T>) -> Seq<T> {
    Seq::new(x.len(), |k: int| edge_value(n, b, x, k))
}

/// Half the sum of two values.
pub open spec fn mean<T: Scalar>(a: T, b: T) -> T {
    prod(lit(1, 2), sum(a, b))
}

/// `x` with the mean of cells `p` and `q` in cell `k`.
pub open spec fn cornered<T: Scalar>(x: Seq<T>, k: int, p: int, q: int) -> Seq<T> {
    x.update(k, mean(x[p], x[q]))
}

/// `x` with its border set: the edges first, then each corner to the mean of
/// the two edge cells beside it.
pub open spec fn bounded<T: Scalar>(n: int, b: u32, x: Seq<T>) -> Seq<T> {
    let w = n + 2;
    let e = edged(n, b, x);
    let e = cornered(e, place(0, 0, w), place(1, 0, w), place(0, 1, w));
    let e = cornered(e, place(0, n + 1, w), place(1, n + 1, w), place(0, n, w));
    let e = cornered(e, place(n + 1, 0, w), place(n, 0, w), place(n + 1, 1, w));
    cornered(e, place(n + 1, n + 1, w), place(n, n + 1, w), place(n + 1, n, w))
}

/// Edge cell whose running coordinate is below `i`.
spec fn edge_before(k: int, n: int, i: int) -> bool {
    let c = col(k, n + 2);
    let r = row(k, n + 2);
    ||| (c == 0 || c == n + 1) && 1 <= r <= n && r < i
    ||| (r == 0 || r == n + 1) && 1 <= c <= n && c < i
}

/// Value with its sign turned where `flip` holds.
fn mirror<T: Scalar>(value: T, flip: bool) -> (r: T)
    requires
        exact::<T>(),
    ensures
        r == mirrored(value, flip),
{
    if flip {
        value.negate()
    } else {
        value
    }
}

/// Set corner `k` to the mean of cells `p` and `q`.
fn set_corner<T: Scalar>(x: &mut Vec<T>, k: usize, p: usize, q: usize)
    requires
        exact::<T>(),
        k < old(x)@.len(),
        p < old(x)@.len(),
        q < old(x)@.len(),
    ensures
        final(x)@ == cornered(old(x)@, k as int, p as int, q as int),
{
    let value: T = T::ratio(1, 2).times(x[p].plus(x[q]));
    x.set(k, value);
}

/// Set the border of a field: scalar fields are copied outward, a velocity
/// component is reflected at the walls it runs into.
pub fn set_bnd<T: Scalar>(n: usize, b: u32, x: &mut Vec<T>)
    requires
        exact::<T>(),
        cells(n as int) <= usize::MAX,
        old(x)@.len() == cells(n as int),
    ensures
        final(x)@ == bounded(n as int, b, old(x)@),
        final(x)@.len() == old(x)@.len(),
{
    let ghost x0 = x@;
    let ghost w = n + 2;
    let mut i: usize = 1;
    proof {
        assert(w <= w * w) by (nonlinear_arith)
            requires
                w >= 1,
        ;
    }
    while i <= n
        invariant
            exact::<T>(),
            1 <= i <= n + 1,
            w == n + 2,
            w <= cells(n as int) <= usize::MAX,
            x0.len() == cells(n as int),
            x@.len() == x0.len(),
            forall|k: int|
                0 <= k < x0.len() ==> #[trigger] x@[k] == (if edge_before(k, n as int, i as int) {
                    edge_value(n as int, b, x0, k)
                } else {
                    x0[k]
                }),
        decreases n + 1 - i,
    {
        let ghost before = x@;
        let left: usize = cell(0, i, n);
        let right: usize = cell(n + 1, i, n);
        let floor: usize = cell(i, 0, n);
        let top: usize = cell(i, n + 1, n);
        let first: usize = cell(1, i, n);
        let last: usize = cell(n, i, n);
        let low: usize = cell(i, 1, n);
        let high: usize = cell(i, n, n);
        let value: T = mirror(x[first], b == 1);
        x.set(left, value);
        let value: T = mirror(x[last], b == 1);
        x.set(right, value);
        let value: T = mirror(x[low], b == 2);
        x.set(floor, value);
        let value: T = mirror(x[high], b == 2);
        x.set(top, value);
        proof {
            assert(low == floor + w && top == high + w) by (nonlinear_arith)
                requires
                    w == n + 2,
                    floor == i + w * 0,
                    low == i + w * 1,
                    high == i + w * n,
                    top == i + w * (n + 1),
            ;
            assert forall|k: int| 0 <= k < x0.len() implies #[trigger] x@[k] == (if edge_before(
                k,
                n as int,
                i + 1,
            ) {
                edge_value(n as int, b, x0, k)
            } else {
                x0[k]
            }) by {
                lemma_place_of_col_row(k, w);
                lemma_row_in_grid(k, w, w);
                let old_k = before[k];
            }
        }
        i = i + 1;
    }
    proof {
        assert forall|k: int| 0 <= k < x0.len() implies x@[k] == edged(n as int, b, x0)[k] by {
            lemma_row_in_grid(k, w, w);
        }
        assert(x@ =~= edged(n as int, b, x0));
    }
    let k: usize = cell(0, 0, n);
    let p: usize = cell(1, 0, n);
    let q: usize = cell(0, 1, n);
    set_corner(x, k, p, q);
    let k: usize = cell(0, n + 1, n);
    let p: usize = cell(1, n + 1, n);
    let q: usize = cell(0, n, n);
    set_corner(x, k, p, q);
    let k: usize = cell(n + 1, 0, n);
    let p: usize = cell(n, 0, n);
    let q: usize = cell(n + 1, 1, n);
    set_corner(x, k, p, q);
    let k: usize = cell(n + 1, n + 1, n);
    let p: usize = cell(n, n + 1, n);
    let q: usize = cell(n + 1, n, n);
    set_corner(x, k, p, q);
}

/// Cell `k` after one relaxation against its four neighbours.
pub open spec fn relaxed_cell<T: Scalar>(
    n: int,
    x: Seq<T>,
    x0: Seq<T>,
    a: T,
    c: T,
    k: int,
) -> T {
    let w = n + 2;
    let around = sum(sum(sum(x[k - 1], x[k + 1]), x[k - w]), x[k + w]);
    quot(sum(x0[k], prod(a, around)), c)
}

/// `x` once the interior cells before place `upto` have been relaxed in turn,
/// each seeing the cells that were relaxed before it.
pub open spec fn relaxed<T: Scalar>(
    n: int,
    x: Seq<T>,
    x0: Seq<T>,
    a: T,
    c: T,
    upto: int,
) -> Seq<T>
    decreases upto,
{
    if upto <= 0 {
        x
    } else {
        let y = relaxed(n, x, x0, a, c, upto - 1);
        if interior(upto - 1, n) {
            y.update(upto - 1, relaxed_cell(n, y, x0, a, c, upto - 1))
        } else {
            y
        }
    }
}

/// `x` after `rounds` rounds, each a relaxation of every interior cell followed
/// by the border.
pub open spec fn solved<T: Scalar>(
    n: int,
    b: u32,
    x: Seq<T>,
    x0: Seq<T>,
    a: T,
    c: T,
    rounds: nat,
) -> Seq<T>
    decreases rounds,
{
    if rounds == 0 {
        x
    } else {
        let y = solved(n, b, x, x0, a, c, (rounds - 1) as nat);
        bounded(n, b, relaxed(n, y, x0, a, c, cells(n)))
    }
}

/// Border cells take no part in a relaxation.
proof fn lemma_relaxed_skips_border<T: Scalar>(
    n: int,
    x: Seq<T>,
    x0: Seq<T>,
    a: T,
    c: T,
    from: int,
    to: int,
)
    requires
        0 <= from <= to,
        forall|k: int| from <= k < to ==> !interior(k, n),
    ensures
        relaxed(n, x, x0, a, c, to) == relaxed(n, x, x0, a, c, from),
    decreases to - from,
{
    if from < to {
        lemma_relaxed_skips_border(n, x, x0, a, c, from, to - 1);
    }
}

/// Relax every interior cell once, row by row.
fn relax<T: Scalar>(n: usize, x: &mut Vec<T>, x0: &Vec<T>, a: T, c: T)
    requires
        exact::<T>(),
        cells(n as int) <= usize::MAX,
        old(x)@.len() == cells(n as int),
        x0@.len() == cells(n as int),
    ensures
        final(x)@ == relaxed(n as int, old(x)@, x0@, a, c, cells(n as int)),
        final(x)@.len() == old(x)@.len(),
{
    let ghost start = x@;
    let ghost w = n + 2;
    let ghost s = x0@;
    proof {
        assert forall|k: int| 0 <= k < place(1, 1, w) implies !interior(k, n as int) by {
            assert(w * 1 == w);
            lemma_border(k, 0, n as int);
        }
        lemma_relaxed_skips_border(n as int, start, s, a, c, 0, place(1, 1, w));
    }
    let mut j: usize = 1;
    while j <= n
        invariant
            exact::<T>(),
            1 <= j <= n + 1,
            w == n + 2,
            s == x0@,
            cells(n as int) <= usize::MAX,
            start.len() == cells(n as int),
            x@.len() == start.len(),
            x0@.len() == start.len(),
            x@ == relaxed(n as int, start, s, a, c, place(1, j as int, w)),
        decreases n + 1 - j,
    {
        let mut i: usize = 1;
        while i <= n
            invariant
                exact::<T>(),
                1 <= i <= n + 1,
                1 <= j <= n,
                w == n + 2,
                s == x0@,
                cells(n as int) <= usize::MAX,
                start.len() == cells(n as int),
                x@.len() == start.len(),
                x0@.len() == start.len(),
                x@ == relaxed(n as int, start, s, a, c, place(i as int, j as int, w)),
            decreases n + 1 - i,
        {
            let k: usize = cell(i, j, n);
            proof {
                lemma_neighbours(k as int, n as int);
            }
            let around: T = x[k - 1].plus(x[k + 1]).plus(x[k - (n + 2)]).plus(x[k + (n + 2)]);
            let value: T = x0[k].plus(a.times(around)).over(c);
            x.set(k, value);
            i = i + 1;
        }
        proof {
            assert(place(1, j + 1, w) == place(n + 1, j as int, w) + 2) by (nonlinear_arith)
                requires
                    w == n + 2,
                    place(1, j + 1, w) == 1 + w * (j + 1),
                    place(n + 1, j as int, w) == n + 1 + w * j,
            ;
            lemma_col_row_of_place(n + 1, j as int, w);
            assert forall|k: int| place(n + 1, j as int, w) <= k < place(1, j + 1, w) implies
                !interior(k, n as int) by {
                lemma_border(k, j as int, n as int);
            }
            lemma_relaxed_skips_border(
                n as int,
                start,
                s,
                a,
                c,
                place(n + 1, j as int, w),
                place(1, j + 1, w),
            );
        }
        j = j + 1;
    }
    proof {
        lemma_col_row_of_place(1, n + 1, w);
        lemma_place_in_grid(1, n + 1, w, w);
        assert forall|k: int| place(1, n + 1, w) <= k < cells(n as int) implies !interior(
            k,
            n as int,
        ) by {
            lemma_border(k, 0, n as int);
        }
        lemma_relaxed_skips_border(
            n as int,
            start,
            s,
            a,
            c,
            place(1, n + 1, w),
            cells(n as int),
        );
    }
}

/// Gauss-Seidel relaxation for the implicit diffusion and pressure solves.
pub fn lin_solve<T: Scalar>(n: usize, b: u32, x: &mut Vec<T>, x0: &Vec<T>, a: T, c: T)
    requires
        exact::<T>(),
        cells(n as int) <= usize::MAX,
        old(x)@.len() == cells(n as int),
        x0@.len() == cells(n as int),
    ensures
        final(x)@ == solved(n as int, b, old(x)@, x0@, a, c, SWEEPS as nat),
        final(x)@.len() == old(x)@.len(),
{
    let ghost start = x@;
    let mut rounds: usize = 0;
    while rounds < SWEEPS
        invariant
            exact::<T>(),
            rounds <= SWEEPS,
            cells(n as int) <= usize::MAX,
            start.len() == cells(n as int),
            x@.len() == start.len(),
            x0@.len() == start.len(),
            x@ == solved(n as int, b, start, x0@, a, c, rounds as nat),
        decreases SWEEPS - rounds,
    {
        relax(n, x, x0, a, c);
        set_bnd(n, b, x);
        rounds = rounds + 1;
    }
}

/// `x + dt * s`, value by value, as far as both reach.
pub open spec fn sourced<T: Scalar>(x: Seq<T>, s: Seq<T>, dt: T) -> Seq<T> {
    Seq::new(
        x.len(),
        |k: int|
            if k < s.len() {
                sum(x[k], prod(dt, s[k]))
            } else {
                x[k]
            },
    )
}

/// Add the sources of one step to a field.
pub fn add_source<T: Scalar>(x: &mut Vec<T>, s: &Vec<T>, dt: T)
    requires
        exact::<T>(),
    ensures
        final(x)@ == sourced(old(x)@, s@, dt),
{
    let ghost x0 = x@;
    let mut k: usize = 0;
    while k < x.len() && k < s.len()
        invariant
            exact::<T>(),
            k <= x0.len(),
            k <= s@.len(),
            x@.len() == x0.len(),
            forall|c: int|
                0 <= c < x0.len() ==> #[trigger] x@[c] == (if c < k {
                    sum(x0[c], prod(dt, s@[c]))
                } else {
                    x0[c]
                }),
        decreases x.len() - k,
    {
        let value: T = x[k].plus(dt.times(s[k]));
        x.set(k, value);
        k = k + 1;
    }
    assert(x@ =~= sourced(x0, s@, dt));
}

/// Weight of the neighbours in an implicit diffusion step.
pub open spec fn spread<T: Scalar>(n: int, rate: T, dt: T) -> T {
    prod(prod(prod(dt, rate), count::<T>(n as usize)), count::<T>(n as usize))
}

/// Field `x` after an implicit diffusion of `x0`.
pub open spec fn diffused<T: Scalar>(
    n: int,
    b: u32,
    x: Seq<T>,
    x0: Seq<T>,
    rate: T,
    dt: T,
) -> Seq<T> {
    let a = spread(n, rate, dt);
    solved(n, b, x, x0, a, sum(lit(1, 1), prod(lit(4, 1), a)), SWEEPS as nat)
}

/// Diffuse `x0` into `x` over a step of `dt`.
pub fn diffuse<T: Scalar>(n: usize, b: u32, x: &mut Vec<T>, x0: &Vec<T>, rate: T, dt: T)
    requires
        exact::<T>(),
        cells(n as int) <= usize::MAX,
        old(x)@.len() == cells(n as int),
        x0@.len() == cells(n as int),
    ensures
        final(x)@ == diffused(n as int, b, old(x)@, x0@, rate, dt),
        final(x)@.len() == old(x)@.len(),
{
    let a: T = dt.times(rate).times(T::of_count(n)).times(T::of_count(n));
    let c: T = T::ratio(1, 1).plus(T::ratio(4, 1).times(a));
    lin_solve(n, b, x, x0, a, c);
}

/// Where the flow through coordinate `c` with velocity `s` came from, held to
/// half a cell inside the border.
pub open spec fn traced<T: Scalar>(n: int, c: int, s: T, dt: T) -> T {
    let back = diff(
        count::<T>(c as usize),
        prod(prod(dt, count::<T>(n as usize)), s),
    );
    clamped(back, lit(1, 2), sum(count::<T>(n as usize), lit(1, 2)))
}

/// The cell that coordinate `x` falls into, at most the last interior one.
pub open spec fn floor_cell<T: Scalar>(n: int, x: T) -> int {
    if index(x) > n {
        n
    } else {
        index(x) as int
    }
}

/// Bilinear interpolation of `d` at `(x, y)`.
pub open spec fn blended<T: Scalar>(n: int, d: Seq<T>, x: T, y: T) -> T {
    let w = n + 2;
    let i = floor_cell(n, x);
    let j = floor_cell(n, y);
    let s1 = diff(x, count::<T>(i as usize));
    let s0 = diff(lit(1, 1), s1);
    let t1 = diff(y, count::<T>(j as usize));
    let t0 = diff(lit(1, 1), t1);
    sum(
        prod(s0, sum(prod(t0, d[place(i, j, w)]), prod(t1, d[place(i, j + 1, w)]))),
        prod(s1, sum(prod(t0, d[place(i + 1, j, w)]), prod(t1, d[place(i + 1, j + 1, w)]))),
    )
}

/// What cell `k` receives when `d0` is carried along by the velocity `(u, v)`.
pub open spec fn carried<T: Scalar>(
    n: int,
    d0: Seq<T>,
    u: Seq<T>,
    v: Seq<T>,
    dt: T,
    k: int,
) -> T {
    let w = n + 2;
    blended(n, d0, traced(n, col(k, w), u[k], dt), traced(n, row(k, w), v[k], dt))
}

/// Field `d` after the advection of `d0` along `(u, v)`.
pub open spec fn advected<T: Scalar>(
    n: int,
    b: u32,
    d: Seq<T>,
    d0: Seq<T>,
    u: Seq<T>,
    v: Seq<T>,
    dt: T,
) -> Seq<T> {
    bounded(n, b, each_cell(d, n, |k: int, x: T| carried(n, d0, u, v, dt, k)))
}

/// Coordinate that the flow through `c` came from.
fn trace_back<T: Scalar>(n: usize, c: usize, s: T, dt: T) -> (x: T)
    requires
        exact::<T>(),
    ensures
        x == traced(n as int, c as int, s, dt),
{
    let nf: T = T::of_count(n);
    let back: T = T::of_count(c).minus(dt.times(nf).times(s));
    back.clamp(T::ratio(1, 2), nf.plus(T::ratio(1, 2)))
}

/// Bilinear interpolation of `d` at `(x, y)`.
fn blend<T: Scalar>(n: usize, d: &Vec<T>, x: T, y: T) -> (r: T)
    requires
        exact::<T>(),
        cells(n as int) <= usize::MAX,
        d@.len() == cells(n as int),
    ensures
        r == blended(n as int, d@, x, y),
{
    let i: usize = x.to_index();
    let i: usize = if i > n { n } else { i };
    let j: usize = y.to_index();
    let j: usize = if j > n { n } else { j };
    proof {
        assert(n + 2 <= cells(n as int)) by (nonlinear_arith)
            requires
                cells(n as int) == (n + 2) * (n + 2),
        ;
    }
    let s1: T = x.minus(T::of_count(i));
    let s0: T = T::ratio(1, 1).minus(s1);
    let t1: T = y.minus(T::of_count(j));
    let t0: T = T::ratio(1, 1).minus(t1);
    let near: T = t0.times(d[cell(i, j, n)]).plus(t1.times(d[cell(i, j + 1, n)]));
    let far: T = t0.times(d[cell(i + 1, j, n)]).plus(t1.times(d[cell(i + 1, j + 1, n)]));
    s0.times(near).plus(s1.times(far))
}

/// Semi-Lagrangian advection: trace each cell back along the velocity field and
/// sample the previous field there.
pub fn advect<T: Scalar>(
    n: usize,
    b: u32,
    d: &mut Vec<T>,
    d0: &Vec<T>,
    u: &Vec<T>,
    v: &Vec<T>,
    dt: T,
)
    requires
        exact::<T>(),
        cells(n as int) <= usize::MAX,
        old(d)@.len() == cells(n as int),
        d0@.len() == cells(n as int),
        u@.len() == cells(n as int),
        v@.len() == cells(n as int),
    ensures
        final(d)@ == advected(n as int, b, old(d)@, d0@, u@, v@, dt),
        final(d)@.len() == old(d)@.len(),
{
    let ghost start = d@;
    let arriving = |i: usize, j: usize, k: usize, t: T| -> (r: T)
        requires
            is_cell(i, j, k, n),
        ensures
            r == carried(n as int, d0@, u@, v@, dt, k as int),
        {
            let x: T = trace_back(n, i, u[k], dt);
            let y: T = trace_back(n, j, v[k], dt);
            blend(n, d0, x, y)
        };
    update_cells(n, d, arriving);
    assert(d@ =~= each_cell(start, n as int, |k: int, x: T| carried(n as int, d0@, u@, v@, dt, k)));
    set_bnd(n, b, d);
}

/// Side of a cell of the unit square.
pub open spec fn spacing<T: Scalar>(n: int) -> T {
    quot(lit(1, 1), count(n as usize))
}

/// Right-hand side of the pressure equation in cell `k`.
pub open spec fn divergence<T: Scalar>(n: int, u: Seq<T>, v: Seq<T>, k: int) -> T {
    let w = n + 2;
    prod(
        prod(neg(lit(1, 2)), spacing(n)),
        diff(sum(diff(u[k + 1], u[k - 1]), v[k + w]), v[k - w]),
    )
}

/// Pressure difference between cells `hi` and `lo`, as the velocity that it
/// takes away.
pub open spec fn gradient<T: Scalar>(n: int, p: Seq<T>, hi: int, lo: int) -> T {
    quot(prod(lit(1, 2), diff(p[hi], p[lo])), spacing(n))
}

/// The two velocity fields, with the pressure and the divergence that were
/// worked out on the way.
#[verifier::ext_equal]
pub struct Projection<T> {
    pub u: Seq<T>,
    pub v: Seq<T>,
    pub p: Seq<T>,
    pub div: Seq<T>,
}

impl<T: Scalar> Projection<T> {
    /// Solve for the pressure that the divergence of `(u, v)` asks for, and
    /// take its gradient off the velocity.
    pub open spec fn solved(self, n: int) -> Projection<T> {
        let w = n + 2;
        let div = bounded(
            n,
            0,
            each_cell(self.div, n, |k: int, x: T| divergence(n, self.u, self.v, k)),
        );
        let flat = bounded(n, 0, each_cell(self.p, n, |k: int, x: T| lit::<T>(0, 1)));
        let p = solved(n, 0, flat, div, lit(1, 1), lit(4, 1), SWEEPS as nat);
        let u = each_cell(self.u, n, |k: int, x: T| diff(x, gradient(n, p, k + 1, k - 1)));
        let v = each_cell(self.v, n, |k: int, x: T| diff(x, gradient(n, p, k + w, k - w)));
        Projection { u: bounded(n, 1, u), v: bounded(n, 2, v), p, div }
    }
}

/// Hodge projection: subtract the gradient of the pressure, solved from the
/// divergence of the velocity. `p` and `div` are scratch buffers.
pub fn project<T: Scalar>(
    n: usize,
    u: &mut Vec<T>,
    v: &mut Vec<T>,
    p: &mut Vec<T>,
    div: &mut Vec<T>,
)
    requires
        exact::<T>(),
        cells(n as int) <= usize::MAX,
        old(u)@.len() == cells(n as int),
        old(v)@.len() == cells(n as int),
        old(p)@.len() == cells(n as int),
        old(div)@.len() == cells(n as int),
    ensures
        (Projection { u: final(u)@, v: final(v)@, p: final(p)@, div: final(div)@ }) == (
        Projection { u: old(u)@, v: old(v)@, p: old(p)@, div: old(div)@ }).solved(n as int),
        final(u)@.len() == old(u)@.len(),
        final(v)@.len() == old(v)@.len(),
        final(p)@.len() == old(p)@.len(),
        final(div)@.len() == old(div)@.len(),
{
    let ghost given = Projection { u: u@, v: v@, p: p@, div: div@ };
    let ghost w = n + 2;
    let h: T = T::ratio(1, 1).over(T::of_count(n));
    {
        let (uf, vf): (&Vec<T>, &Vec<T>) = (&*u, &*v);
        let outflow = |i: usize, j: usize, k: usize, t: T| -> (r: T)
            requires
                is_cell(i, j, k, n),
            ensures
                r == divergence(n as int, uf@, vf@, k as int),
            {
                proof {
                    lemma_neighbours(k as int, n as int);
                }
                let across: T = uf[k + 1].minus(uf[k - 1]);
                T::ratio(1, 2).negate().times(h).times(across.plus(vf[k + (n + 2)]).minus(vf[k - (n + 2)]))
            };
        update_cells(n, div, outflow);
    }
    assert(div@ =~= each_cell(
        given.div,
        n as int,
        |k: int, x: T| divergence(n as int, given.u, given.v, k),
    ));
    let zero: T = T::ratio(0, 1);
    let rest = |i: usize, j: usize, k: usize, t: T| -> (r: T)
        ensures
            r == zero,
        {
            zero
        };
    update_cells(n, p, rest);
    assert(p@ =~= each_cell(given.p, n as int, |k: int, x: T| lit::<T>(0, 1)));
    set_bnd(n, 0, div);
    set_bnd(n, 0, p);
    lin_solve(n, 0, p, div, T::ratio(1, 1), T::ratio(4, 1));
    let pf: &Vec<T> = &*p;
    let slowed = |i: usize, j: usize, k: usize, t: T| -> (r: T)
        requires
            is_cell(i, j, k, n),
        ensures
            r == diff(t, gradient(n as int, pf@, k + 1, k - 1)),
        {
            proof {
                lemma_neighbours(k as int, n as int);
            }
            t.minus(T::ratio(1, 2).times(pf[k + 1].minus(pf[k - 1])).over(h))
        };
    update_cells(n, u, slowed);
    assert(u@ =~= each_cell(
        given.u,
        n as int,
        |k: int, x: T| diff(x, gradient(n as int, pf@, k + 1, k - 1)),
    ));
    let lowered = |i: usize, j: usize, k: usize, t: T| -> (r: T)
        requires
            is_cell(i, j, k, n),
        ensures
            r == diff(t, gradient(n as int, pf@, k + (n + 2), k - (n + 2))),
        {
            proof {
                lemma_neighbours(k as int, n as int);
            }
            t.minus(T::ratio(1, 2).times(pf[k + (n + 2)].minus(pf[k - (n + 2)])).over(h))
        };
    update_cells(n, v, lowered);
    assert(v@ =~= each_cell(
        given.v,
        n as int,
        |k: int, x: T| diff(x, gradient(n as int, pf@, k + w, k - w)),
    ));
    set_bnd(n, 1, u);
    set_bnd(n, 2, v);
}

/// State of a smoke simulation.
#[verifier::ext_equal]
pub struct SmokeModel<T> {
    pub n: int,
    pub u: Seq<T>,
    pub v: Seq<T>,
    pub u0: Seq<T>,
    pub v0: Seq<T>,
    pub dens: Seq<T>,
    pub dens0: Seq<T>,
    pub curl: Seq<T>,
    pub diff: T,
    pub visc: T,
    pub buoyancy: T,
    pub dissipation: T,
    pub vorticity: T,
}

/// A field that is zero everywhere.
pub open spec fn still<T: Scalar>(n: int) -> Seq<T> {
    Seq::new(cells(n) as nat, |k: int| lit::<T>(0, 1))
}

/// Curl of the velocity in cell `k`.
pub open spec fn curl_at<T: Scalar>(n: int, u: Seq<T>, v: Seq<T>, k: int) -> T {
    let w = n + 2;
    prod(lit(1, 2), diff(diff(v[k + 1], v[k - 1]), diff(u[k + w], u[k - w])))
}

/// Slope of the curl's magnitude from cell `lo` to cell `hi`.
pub open spec fn slope<T: Scalar>(curl: Seq<T>, hi: int, lo: int) -> T {
    prod(lit(1, 2), diff(magnitude(curl[hi]), magnitude(curl[lo])))
}

/// Length of the curl's slope in cell `k`, kept off zero.
pub open spec fn steepness<T: Scalar>(n: int, curl: Seq<T>, k: int) -> T {
    let w = n + 2;
    let x = slope(curl, k + 1, k - 1);
    let y = slope(curl, k + w, k - w);
    sum(root(sum(prod(x, x), prod(y, y))), lit(1, 100000))
}

/// Horizontal confinement force in cell `k`.
pub open spec fn swirl_x<T: Scalar>(n: int, curl: Seq<T>, strength: T, k: int) -> T {
    let w = n + 2;
    let ny = quot(slope(curl, k + w, k - w), steepness(n, curl, k));
    prod(prod(strength, ny), curl[k])
}

/// Vertical confinement force in cell `k`.
pub open spec fn swirl_y<T: Scalar>(n: int, curl: Seq<T>, strength: T, k: int) -> T {
    let nx = quot(slope(curl, k + 1, k - 1), steepness(n, curl, k));
    prod(prod(strength, neg(nx)), curl[k])
}

impl<T: Scalar> SmokeModel<T> {
    /// Every field covers the grid, and the grid fits into memory.
    pub open spec fn valid(self) -> bool {
        let size = cells(self.n);
        &&& 0 <= self.n
        &&& size <= usize::MAX
        &&& self.u.len() == size
        &&& self.v.len() == size
        &&& self.u0.len() == size
        &&& self.v0.len() == size
        &&& self.dens.len() == size
        &&& self.dens0.len() == size
        &&& self.curl.len() == size
    }

    /// Still air without smoke, with the standard settings.
    pub open spec fn initial(n: int) -> SmokeModel<T> {
        SmokeModel {
            n,
            u: still(n),
            v: still(n),
            u0: still(n),
            v0: still(n),
            dens: still(n),
            dens0: still(n),
            curl: still(n),
            diff: lit(0, 1),
            visc: lit(0, 1),
            buoyancy: lit(1, 1),
            dissipation: lit(4, 10),
            vorticity: lit(3, 1),
        }
    }

    /// All fields set back to zero, the settings as they are.
    pub open spec fn calmed(self) -> SmokeModel<T> {
        let zero = still::<T>(self.n);
        SmokeModel {
            u: zero,
            v: zero,
            u0: zero,
            v0: zero,
            dens: zero,
            dens0: zero,
            curl: zero,
            ..self
        }
    }

    /// Cell `(i, j)` is an interior one.
    pub open spec fn has_cell(self, i: usize, j: usize) -> bool {
        1 <= i <= self.n && 1 <= j <= self.n
    }

    /// `amount` added to the density source of cell `(i, j)`.
    pub open spec fn fed(self, i: usize, j: usize, amount: T) -> SmokeModel<T> {
        let k = place(i as int, j as int, self.n + 2);
        if self.has_cell(i, j) {
            SmokeModel { dens0: self.dens0.update(k, sum(self.dens0[k], amount)), ..self }
        } else {
            self
        }
    }

    /// `(du, dv)` added to the velocity source of cell `(i, j)`.
    pub open spec fn pushed(self, i: usize, j: usize, du: T, dv: T) -> SmokeModel<T> {
        let k = place(i as int, j as int, self.n + 2);
        if self.has_cell(i, j) {
            SmokeModel {
                u0: self.u0.update(k, sum(self.u0[k], du)),
                v0: self.v0.update(k, sum(self.v0[k], dv)),
                ..self
            }
        } else {
            self
        }
    }

    /// The lift of the smoke added to the vertical velocity source.
    pub open spec fn lifted(self) -> SmokeModel<T> {
        SmokeModel {
            v0: each_cell(
                self.v0,
                self.n,
                |k: int, x: T| sum(x, prod(self.buoyancy, self.dens[k])),
            ),
            ..self
        }
    }

    /// The curl worked out from the velocity.
    pub open spec fn with_curl(self) -> SmokeModel<T> {
        SmokeModel {
            curl: each_cell(
                self.curl,
                self.n,
                |k: int, x: T| curl_at(self.n, self.u, self.v, k),
            ),
            ..self
        }
    }

    /// The confinement force of the curl added to the velocity sources.
    pub open spec fn stirred(self) -> SmokeModel<T> {
        let n = self.n;
        SmokeModel {
            u0: each_cell(
                self.u0,
                n,
                |k: int, x: T| sum(x, swirl_x(n, self.curl, self.vorticity, k)),
            ),
            v0: each_cell(
                self.v0,
                n,
                |k: int, x: T| sum(x, swirl_y(n, self.curl, self.vorticity, k)),
            ),
            ..self
        }
    }

    /// The velocity after the sources, diffusion, projection, advection along
    /// itself, and a second projection.
    pub open spec fn flowed(self, dt: T) -> SmokeModel<T> {
        let n = self.n;
        let u1 = sourced(self.u, self.u0, dt);
        let v1 = sourced(self.v, self.v0, dt);
        let first = (Projection {
            u: diffused(n, 1, self.u0, u1, self.visc, dt),
            v: diffused(n, 2, self.v0, v1, self.visc, dt),
            p: u1,
            div: v1,
        }).solved(n);
        let second = (Projection {
            u: advected(n, 1, first.p, first.u, first.u, first.v, dt),
            v: advected(n, 2, first.div, first.v, first.u, first.v, dt),
            p: first.u,
            div: first.v,
        }).solved(n);
        SmokeModel { u: second.u, v: second.v, u0: second.p, v0: second.div, ..self }
    }

    /// The density after the sources, diffusion, and advection along the
    /// velocity.
    pub open spec fn drifted(self, dt: T) -> SmokeModel<T> {
        let n = self.n;
        let fed = sourced(self.dens, self.dens0, dt);
        let spread = diffused(n, 0, self.dens0, fed, self.diff, dt);
        SmokeModel { dens: advected(n, 0, fed, spread, self.u, self.v, dt), dens0: spread, ..self }
    }

    /// The density thinned out, where dissipation is on.
    pub open spec fn faded(self, dt: T) -> SmokeModel<T> {
        let f = quot(lit(1, 1), sum(lit(1, 1), prod(dt, self.dissipation)));
        if lt(lit(0, 1), self.dissipation) {
            SmokeModel { dens: Seq::new(self.dens.len(), |k: int| prod(self.dens[k], f)), ..self }
        } else {
            self
        }
    }

    /// The sources of the step used up.
    pub open spec fn spent(self) -> SmokeModel<T> {
        let zero = still::<T>(self.n);
        SmokeModel { u0: zero, v0: zero, dens0: zero, ..self }
    }

    /// The forces of the step added to the velocity sources.
    pub open spec fn forced(self) -> SmokeModel<T> {
        let lifted = self.lifted();
        if lt(lit(0, 1), self.vorticity) {
            lifted.with_curl().stirred()
        } else {
            lifted
        }
    }

    /// The simulation one step of `dt` later.
    pub open spec fn stepped(self, dt: T) -> SmokeModel<T> {
        self.forced().flowed(dt).drifted(dt).faded(dt).spent()
    }
}

/// A smoke simulation on a grid of `n` by `n` cells.
pub struct Smoke<T> {
    n: usize,
    u: Vec<T>,
    v: Vec<T>,
    u0: Vec<T>,
    v0: Vec<T>,
    dens: Vec<T>,
    dens0: Vec<T>,
    curl: Vec<T>,
    /// Diffusion of the smoke.
    pub diff: T,
    /// Viscosity of the velocity field.
    pub visc: T,
    /// Upward force per unit of density.
    pub buoyancy: T,
    /// Fraction of the density that fades in a second.
    pub dissipation: T,
    /// Strength of the vorticity confinement; zero turns it off.
    pub vorticity: T,
}

impl<T: Scalar> View for Smoke<T> {
    type V = SmokeModel<T>;

    closed spec fn view(&self) -> SmokeModel<T> {
        SmokeModel {
            n: self.n as int,
            u: self.u@,
            v: self.v@,
            u0: self.u0@,
            v0: self.v0@,
            dens: self.dens@,
            dens0: self.dens0@,
            curl: self.curl@,
            diff: self.diff,
            visc: self.visc,
            buoyancy: self.buoyancy,
            dissipation: self.dissipation,
            vorticity: self.vorticity,
        }
    }
}

impl<T: Scalar> Smoke<T> {
    /// Still air on a grid of `n` by `n` cells.
    pub fn new(n: usize) -> (s: Self)
        requires
            exact::<T>(),
            cells(n as int) <= usize::MAX,
        ensures
            s@ == SmokeModel::<T>::initial(n as int),
            s@.valid(),
    {
        proof {
            assert(n + 2 <= cells(n as int)) by (nonlinear_arith)
                requires
                    cells(n as int) == (n + 2) * (n + 2),
            ;
        }
        let size: usize = (n + 2) * (n + 2);
        let zero: T = T::ratio(0, 1);
        let s = Smoke {
            n,
            u: filled(zero, size),
            v: filled(zero, size),
            u0: filled(zero, size),
            v0: filled(zero, size),
            dens: filled(zero, size),
            dens0: filled(zero, size),
            curl: filled(zero, size),
            diff: zero,
            visc: zero,
            buoyancy: T::ratio(1, 1),
            dissipation: T::ratio(4, 10),
            vorticity: T::ratio(3, 1),
        };
        assert(s@ =~= SmokeModel::<T>::initial(n as int));
        s
    }

    /// Number of interior cells along a side.
    pub fn n(&self) -> (n: usize)
        ensures
            n == self@.n,
    {
        self.n
    }

    /// Density of the smoke in cell `(i, j)`.
    pub fn density_at(&self, i: usize, j: usize) -> (d: T)
        requires
            self@.valid(),
            place(i as int, j as int, self@.n + 2) < self@.dens.len(),
        ensures
            d == self@.dens[place(i as int, j as int, self@.n + 2)],
    {
        proof {
            assert(self.n + 2 <= cells(self.n as int)) by (nonlinear_arith)
                requires
                    cells(self.n as int) == (self.n + 2) * (self.n + 2),
            ;
            assert(0 <= place(i as int, j as int, self.n + 2)) by (nonlinear_arith)
                requires
                    place(i as int, j as int, self.n + 2) == i + (self.n + 2) * j,
            ;
        }
        self.dens[ix(i, j, self.n)]
    }

    /// Strength of the vorticity confinement.
    pub fn swirl(&self) -> (strength: T)
        ensures
            strength == self@.vorticity,
    {
        self.vorticity
    }

    /// Set the strength of the vorticity confinement.
    pub fn set_swirl(&mut self, strength: T)
        ensures
            final(self)@ == (SmokeModel { vorticity: strength, ..old(self)@ }),
    {
        self.vorticity = strength;
    }

    /// Set the diffusion of the smoke.
    pub fn set_diff(&mut self, diff: T)
        ensures
            final(self)@ == (SmokeModel { diff, ..old(self)@ }),
            old(self)@.valid() ==> final(self)@.valid(),
    {
        self.diff = diff;
    }

    /// Set the viscosity of the air.
    pub fn set_visc(&mut self, visc: T)
        ensures
            final(self)@ == (SmokeModel { visc, ..old(self)@ }),
            old(self)@.valid() ==> final(self)@.valid(),
    {
        self.visc = visc;
    }

    /// Set the upward force per unit of density.
    pub fn set_buoyancy(&mut self, buoyancy: T)
        ensures
            final(self)@ == (SmokeModel { buoyancy, ..old(self)@ }),
            old(self)@.valid() ==> final(self)@.valid(),
    {
        self.buoyancy = buoyancy;
    }

    /// Set the fraction of the density that fades in a second.
    pub fn set_dissipation(&mut self, dissipation: T)
        ensures
            final(self)@ == (SmokeModel { dissipation, ..old(self)@ }),
            old(self)@.valid() ==> final(self)@.valid(),
    {
        self.dissipation = dissipation;
    }

    /// Let smoke into interior cell `(i, j)` during the next step.
    pub fn add_density(&mut self, i: usize, j: usize, amount: T)
        requires
            exact::<T>(),
            old(self)@.valid(),
        ensures
            final(self)@ == old(self)@.fed(i, j, amount),
            final(self)@.valid(),
    {
        if i >= 1 && i <= self.n && j >= 1 && j <= self.n {
            let k: usize = cell(i, j, self.n);
            let value: T = self.dens0[k].plus(amount);
            self.dens0.set(k, value);
        }
        assert(self@ =~= old(self)@.fed(i, j, amount));
    }

    /// Push the air in interior cell `(i, j)` during the next step.
    pub fn add_velocity(&mut self, i: usize, j: usize, du: T, dv: T)
        requires
            exact::<T>(),
            old(self)@.valid(),
        ensures
            final(self)@ == old(self)@.pushed(i, j, du, dv),
            final(self)@.valid(),
    {
        if i >= 1 && i <= self.n && j >= 1 && j <= self.n {
            let k: usize = cell(i, j, self.n);
            let value: T = self.u0[k].plus(du);
            self.u0.set(k, value);
            let value: T = self.v0[k].plus(dv);
            self.v0.set(k, value);
        }
        assert(self@ =~= old(self)@.pushed(i, j, du, dv));
    }

    /// Clear the air; the settings stay.
    pub fn reset(&mut self)
        requires
            exact::<T>(),
            old(self)@.valid(),
        ensures
            final(self)@ == old(self)@.calmed(),
            final(self)@.valid(),
    {
        let zero: T = T::ratio(0, 1);
        overwrite(&mut self.u, zero);
        overwrite(&mut self.v, zero);
        overwrite(&mut self.u0, zero);
        overwrite(&mut self.v0, zero);
        overwrite(&mut self.dens, zero);
        overwrite(&mut self.dens0, zero);
        overwrite(&mut self.curl, zero);
        assert(self@ =~= old(self)@.calmed());
    }

    /// Advance the simulation by `dt` seconds.
    pub fn step(&mut self, dt: T)
        requires
            exact::<T>(),
            old(self)@.valid(),
        ensures
            final(self)@ == old(self)@.stepped(dt),
            final(self)@.valid(),
    {
        self.apply_buoyancy();
        if T::ratio(0, 1).below(self.vorticity) {
            self.apply_vorticity();
        }
        self.vel_step(dt);
        self.dens_step(dt);
        self.dissipate(dt);
        let ghost before = self@;
        let zero: T = T::ratio(0, 1);
        overwrite(&mut self.u0, zero);
        overwrite(&mut self.v0, zero);
        overwrite(&mut self.dens0, zero);
        assert(self@ =~= before.spent());
    }

    /// Let the density lift the air.
    fn apply_buoyancy(&mut self)
        requires
            exact::<T>(),
            old(self)@.valid(),
        ensures
            final(self)@ == old(self)@.lifted(),
            final(self)@.valid(),
    {
        let n: usize = self.n;
        let buoyancy: T = self.buoyancy;
        let dens: &Vec<T> = &self.dens;
        let lift = |i: usize, j: usize, k: usize, t: T| -> (r: T)
            requires
                is_cell(i, j, k, n),
            ensures
                r == sum(t, prod(buoyancy, dens@[k as int])),
            {
                t.plus(buoyancy.times(dens[k]))
            };
        update_cells(n, &mut self.v0, lift);
        assert(self@ =~= old(self)@.lifted());
    }

    /// Push the air around where it turns.
    fn apply_vorticity(&mut self)
        requires
            exact::<T>(),
            old(self)@.valid(),
        ensures
            final(self)@ == old(self)@.with_curl().stirred(),
            final(self)@.valid(),
    {
        let n: usize = self.n;
        {
            let u: &Vec<T> = &self.u;
            let v: &Vec<T> = &self.v;
            let spin = |i: usize, j: usize, k: usize, t: T| -> (r: T)
                requires
                    is_cell(i, j, k, n),
                ensures
                    r == curl_at(n as int, u@, v@, k as int),
                {
                    proof {
                        lemma_neighbours(k as int, n as int);
                    }
                    let across: T = v[k + 1].minus(v[k - 1]);
                    let along: T = u[k + (n + 2)].minus(u[k - (n + 2)]);
                    T::ratio(1, 2).times(across.minus(along))
                };
            update_cells(n, &mut self.curl, spin);
        }
        assert(self@ =~= old(self)@.with_curl());
        let ghost before = self@;
        let curl: &Vec<T> = &self.curl;
        let strength: T = self.vorticity;
        let sideways = |i: usize, j: usize, k: usize, t: T| -> (r: T)
            requires
                is_cell(i, j, k, n),
            ensures
                r == sum(t, swirl_x(n as int, curl@, strength, k as int)),
            {
                let (_, ny): (T, T) = swirl_axis(n, curl, i, j, k);
                t.plus(strength.times(ny).times(curl[k]))
            };
        update_cells(n, &mut self.u0, sideways);
        let upward = |i: usize, j: usize, k: usize, t: T| -> (r: T)
            requires
                is_cell(i, j, k, n),
            ensures
                r == sum(t, swirl_y(n as int, curl@, strength, k as int)),
            {
                let (nx, _): (T, T) = swirl_axis(n, curl, i, j, k);
                t.plus(strength.times(nx.negate()).times(curl[k]))
            };
        update_cells(n, &mut self.v0, upward);
        assert(self@ =~= before.stirred());
    }

    /// Let the density fade.
    fn dissipate(&mut self, dt: T)
        requires
            exact::<T>(),
            old(self)@.valid(),
        ensures
            final(self)@ == old(self)@.faded(dt),
            final(self)@.valid(),
    {
        let ghost before = self@.dens;
        if T::ratio(0, 1).below(self.dissipation) {
            let f: T = T::ratio(1, 1).over(T::ratio(1, 1).plus(dt.times(self.dissipation)));
            let mut k: usize = 0;
            while k < self.dens.len()
                invariant
                    exact::<T>(),
                    k <= before.len(),
                    self@.dens.len() == before.len(),
                    self@ == (SmokeModel { dens: self@.dens, ..old(self)@ }),
                    forall|c: int|
                        0 <= c < before.len() ==> #[trigger] self@.dens[c] == (if c < k {
                            prod(before[c], f)
                        } else {
                            before[c]
                        }),
                decreases before.len() - k,
            {
                let value: T = self.dens[k].times(f);
                self.dens.set(k, value);
                k = k + 1;
                assert(self@ =~= (SmokeModel { dens: self@.dens, ..old(self)@ }));
            }
        }
        assert(self@ =~= old(self)@.faded(dt));
    }

    /// Advance the air.
    fn vel_step(&mut self, dt: T)
        requires
            exact::<T>(),
            old(self)@.valid(),
        ensures
            final(self)@ == old(self)@.flowed(dt),
            final(self)@.valid(),
    {
        let n: usize = self.n;
        let visc: T = self.visc;
        add_source(&mut self.u, &self.u0, dt);
        add_source(&mut self.v, &self.v0, dt);

        std::mem::swap(&mut self.u0, &mut self.u);
        diffuse(n, 1, &mut self.u, &self.u0, visc, dt);
        std::mem::swap(&mut self.v0, &mut self.v);
        diffuse(n, 2, &mut self.v, &self.v0, visc, dt);
        project(n, &mut self.u, &mut self.v, &mut self.u0, &mut self.v0);

        std::mem::swap(&mut self.u0, &mut self.u);
        std::mem::swap(&mut self.v0, &mut self.v);
        advect(n, 1, &mut self.u, &self.u0, &self.u0, &self.v0, dt);
        advect(n, 2, &mut self.v, &self.v0, &self.u0, &self.v0, dt);
        project(n, &mut self.u, &mut self.v, &mut self.u0, &mut self.v0);
        assert(self@ =~= old(self)@.flowed(dt));
    }

    /// Advance the density.
    fn dens_step(&mut self, dt: T)
        requires
            exact::<T>(),
            old(self)@.valid(),
        ensures
            final(self)@ == old(self)@.drifted(dt),
            final(self)@.valid(),
    {
        let n: usize = self.n;
        let rate: T = self.diff;
        add_source(&mut self.dens, &self.dens0, dt);
        std::mem::swap(&mut self.dens0, &mut self.dens);
        diffuse(n, 0, &mut self.dens, &self.dens0, rate, dt);
        std::mem::swap(&mut self.dens0, &mut self.dens);
        advect(n, 0, &mut self.dens, &self.dens0, &self.u, &self.v, dt);
        assert(self@ =~= old(self)@.drifted(dt));
    }
}

/// Direction in which the curl's magnitude grows at cell `k`.
fn swirl_axis<T: Scalar>(n: usize, curl: &Vec<T>, i: usize, j: usize, k: usize) -> (axis: (T, T))
    requires
        exact::<T>(),
        cells(n as int) <= usize::MAX,
        curl@.len() == cells(n as int),
        is_cell(i, j, k, n),
    ensures
        axis.0 == quot(
            slope(curl@, k + 1, k - 1),
            steepness(n as int, curl@, k as int),
        ),
        axis.1 == quot(
            slope(curl@, k + (n + 2), k - (n + 2)),
            steepness(n as int, curl@, k as int),
        ),
{
    proof {
        lemma_neighbours(k as int, n as int);
    }
    let half: T = T::ratio(1, 2);
    let dwdx: T = half.times(curl[k + 1].abs().minus(curl[k - 1].abs()));
    let dwdy: T = half.times(curl[k + (n + 2)].abs().minus(curl[k - (n + 2)].abs()));
    let len: T = dwdx.times(dwdx).plus(dwdy.times(dwdy)).sqrt().plus(T::ratio(1, 100000));
    (dwdx.over(len), dwdy.over(len))
}

/// Once its border is set, a field holds in each edge cell what the cell beside
/// it holds, or the negative of that where the wall reflects the field; its
/// inner cells are what they were.
pub proof fn law_border_mirrors_the_inside<T: Scalar>(n: int, b: u32, x: Seq<T>, m: int)
    requires
        1 <= m <= n,
        x.len() == cells(n),
    ensures
        bounded(n, b, x).len() == x.len(),
        bounded(n, b, x)[place(0, m, n + 2)] == mirrored(
            bounded(n, b, x)[place(1, m, n + 2)],
            b == 1,
        ),
        bounded(n, b, x)[place(n + 1, m, n + 2)] == mirrored(
            bounded(n, b, x)[place(n, m, n + 2)],
            b == 1,
        ),
        bounded(n, b, x)[place(m, 0, n + 2)] == mirrored(
            bounded(n, b, x)[place(m, 1, n + 2)],
            b == 2,
        ),
        bounded(n, b, x)[place(m, n + 1, n + 2)] == mirrored(
            bounded(n, b, x)[place(m, n, n + 2)],
            b == 2,
        ),
        forall|k: int| 0 <= k < x.len() && interior(k, n) ==> #[trigger] bounded(n, b, x)[k] == x[k],
{
    let w = n + 2;
    lemma_corner_places(n);
    assert(w * 0 == 0 && w * 1 == w && w * (n + 1) == w * n + w) by (nonlinear_arith);
    lemma_place_in_grid(0, m, w, w);
    lemma_place_in_grid(1, m, w, w);
    lemma_place_in_grid(n, m, w, w);
    lemma_place_in_grid(n + 1, m, w, w);
    lemma_place_in_grid(m, 0, w, w);
    lemma_place_in_grid(m, 1, w, w);
    lemma_place_in_grid(m, n, w, w);
    lemma_place_in_grid(m, n + 1, w, w);
    lemma_col_row_of_place(0, m, w);
    lemma_col_row_of_place(1, m, w);
    lemma_col_row_of_place(n, m, w);
    lemma_col_row_of_place(n + 1, m, w);
    lemma_col_row_of_place(m, 0, w);
    lemma_col_row_of_place(m, 1, w);
    lemma_col_row_of_place(m, n, w);
    lemma_col_row_of_place(m, n + 1, w);
}

/// Columns and rows of the four corners.
pub(crate) proof fn lemma_corner_places(n: int)
    requires
        0 <= n,
    ensures
        0 <= place(0, 0, n + 2) < cells(n),
        0 <= place(0, n + 1, n + 2) < cells(n),
        0 <= place(n + 1, 0, n + 2) < cells(n),
        0 <= place(n + 1, n + 1, n + 2) < cells(n),
        col(place(0, 0, n + 2), n + 2) == 0 && row(place(0, 0, n + 2), n + 2) == 0,
        col(place(0, n + 1, n + 2), n + 2) == 0 && row(place(0, n + 1, n + 2), n + 2) == n + 1,
        col(place(n + 1, 0, n + 2), n + 2) == n + 1 && row(place(n + 1, 0, n + 2), n + 2) == 0,
        col(place(n + 1, n + 1, n + 2), n + 2) == n + 1,
        row(place(n + 1, n + 1, n + 2), n + 2) == n + 1,
{
    let w = n + 2;
    lemma_place_in_grid(0, 0, w, w);
    lemma_place_in_grid(0, n + 1, w, w);
    lemma_place_in_grid(n + 1, 0, w, w);
    lemma_place_in_grid(n + 1, n + 1, w, w);
    lemma_col_row_of_place(0, 0, w);
    lemma_col_row_of_place(0, n + 1, w);
    lemma_col_row_of_place(n + 1, 0, w);
    lemma_col_row_of_place(n + 1, n + 1, w);
}

/// Setting the border keeps the number of cells.
pub(crate) proof fn lemma_bounded_len<T: Scalar>(n: int, b: u32, x: Seq<T>)
    requires
        0 <= n,
        x.len() == cells(n),
    ensures
        bounded(n, b, x).len() == x.len(),
{
    lemma_corner_places(n);
}

/// Relaxing keeps the number of cells.
proof fn lemma_relaxed_len<T: Scalar>(n: int, x: Seq<T>, x0: Seq<T>, a: T, c: T, upto: int)
    requires
        upto <= x.len(),
    ensures
        relaxed(n, x, x0, a, c, upto).len() == x.len(),
    decreases upto,
{
    if upto > 0 {
        lemma_relaxed_len(n, x, x0, a, c, upto - 1);
    }
}

/// Solving keeps the number of cells.
proof fn lemma_solved_len<T: Scalar>(
    n: int,
    b: u32,
    x: Seq<T>,
    x0: Seq<T>,
    a: T,
    c: T,
    rounds: nat,
)
    requires
        0 <= n,
        x.len() == cells(n),
    ensures
        solved(n, b, x, x0, a, c, rounds).len() == x.len(),
    decreases rounds,
{
    if rounds > 0 {
        lemma_solved_len(n, b, x, x0, a, c, (rounds - 1) as nat);
        let y = solved(n, b, x, x0, a, c, (rounds - 1) as nat);
        lemma_relaxed_len(n, y, x0, a, c, cells(n));
        lemma_bounded_len(n, b, relaxed(n, y, x0, a, c, cells(n)));
    }
}

/// A projection keeps the number of cells.
proof fn lemma_projection_len<T: Scalar>(given: Projection<T>, n: int)
    requires
        0 <= n,
        given.u.len() == cells(n),
        given.v.len() == cells(n),
        given.p.len() == cells(n),
        given.div.len() == cells(n),
    ensures
        given.solved(n).u.len() == cells(n),
        given.solved(n).v.len() == cells(n),
        given.solved(n).p.len() == cells(n),
        given.solved(n).div.len() == cells(n),
{
    let w = n + 2;
    let div = each_cell(given.div, n, |k: int, x: T| divergence(n, given.u, given.v, k));
    lemma_bounded_len(n, 0, div);
    let flat = each_cell(given.p, n, |k: int, x: T| lit::<T>(0, 1));
    lemma_bounded_len(n, 0, flat);
    lemma_solved_len(
        n,
        0,
        bounded(n, 0, flat),
        bounded(n, 0, div),
        lit(1, 1),
        lit(4, 1),
        SWEEPS as nat,
    );
    let p = given.solved(n).p;
    lemma_bounded_len(
        n,
        1,
        each_cell(given.u, n, |k: int, x: T| diff(x, gradient(n, p, k + 1, k - 1))),
    );
    lemma_bounded_len(
        n,
        2,
        each_cell(given.v, n, |k: int, x: T| diff(x, gradient(n, p, k + w, k - w))),
    );
}

/// A step leaves the grid and the settings as they are, and uses up the sources
/// that were let in for it.
pub proof fn law_step_keeps_settings_and_uses_up_sources<T: Scalar>(air: SmokeModel<T>, dt: T)
    requires
        air.valid(),
    ensures
        air.stepped(dt).n == air.n,
        air.stepped(dt).diff == air.diff,
        air.stepped(dt).visc == air.visc,
        air.stepped(dt).buoyancy == air.buoyancy,
        air.stepped(dt).dissipation == air.dissipation,
        air.stepped(dt).vorticity == air.vorticity,
        air.stepped(dt).u0 == still::<T>(air.n),
        air.stepped(dt).v0 == still::<T>(air.n),
        air.stepped(dt).dens0 == still::<T>(air.n),
{
}

/// The air is closed in: after a step the velocity across a wall is, in the
/// border cell, the negative of that in the cell beside it, so that nothing flows
/// through the wall between them; along a wall it is the same in both.
pub proof fn law_box_is_closed<T: Scalar>(air: SmokeModel<T>, dt: T, m: int)
    requires
        air.valid(),
        1 <= m <= air.n,
    ensures
        air.stepped(dt).u[place(0, m, air.n + 2)] == neg(
            air.stepped(dt).u[place(1, m, air.n + 2)],
        ),
        air.stepped(dt).u[place(air.n + 1, m, air.n + 2)] == neg(
            air.stepped(dt).u[place(air.n, m, air.n + 2)],
        ),
        air.stepped(dt).u[place(m, 0, air.n + 2)] == air.stepped(dt).u[place(m, 1, air.n + 2)],
        air.stepped(dt).u[place(m, air.n + 1, air.n + 2)] == air.stepped(dt).u[place(
            m,
            air.n,
            air.n + 2,
        )],
        air.stepped(dt).v[place(m, 0, air.n + 2)] == neg(
            air.stepped(dt).v[place(m, 1, air.n + 2)],
        ),
        air.stepped(dt).v[place(m, air.n + 1, air.n + 2)] == neg(
            air.stepped(dt).v[place(m, air.n, air.n + 2)],
        ),
        air.stepped(dt).v[place(0, m, air.n + 2)] == air.stepped(dt).v[place(1, m, air.n + 2)],
        air.stepped(dt).v[place(air.n + 1, m, air.n + 2)] == air.stepped(dt).v[place(
            air.n,
            m,
            air.n + 2,
        )],
{
    let n = air.n;
    let w = n + 2;
    let f = air.forced();
    assert(f.valid());
    let u1 = sourced(f.u, f.u0, dt);
    let v1 = sourced(f.v, f.v0, dt);
    let a = spread(n, f.visc, dt);
    let c = sum(lit(1, 1), prod(lit(4, 1), a));
    lemma_solved_len(n, 1, f.u0, u1, a, c, SWEEPS as nat);
    lemma_solved_len(n, 2, f.v0, v1, a, c, SWEEPS as nat);
    let given = Projection {
        u: diffused(n, 1, f.u0, u1, f.visc, dt),
        v: diffused(n, 2, f.v0, v1, f.visc, dt),
        p: u1,
        div: v1,
    };
    lemma_projection_len(given, n);
    let first = given.solved(n);
    lemma_bounded_len(
        n,
        1,
        each_cell(first.p, n, |k: int, x: T| carried(n, first.u, first.u, first.v, dt, k)),
    );
    lemma_bounded_len(
        n,
        2,
        each_cell(first.div, n, |k: int, x: T| carried(n, first.v, first.u, first.v, dt, k)),
    );
    let again = Projection {
        u: advected(n, 1, first.p, first.u, first.u, first.v, dt),
        v: advected(n, 2, first.div, first.v, first.u, first.v, dt),
        p: first.u,
        div: first.v,
    };
    let second = again.solved(n);
    let p = second.p;
    law_border_mirrors_the_inside(
        n,
        1,
        each_cell(again.u, n, |k: int, x: T| diff(x, gradient(n, p, k + 1, k - 1))),
        m,
    );
    law_border_mirrors_the_inside(
        n,
        2,
        each_cell(again.v, n, |k: int, x: T| diff(x, gradient(n, p, k + w, k - w))),
        m,
    );
    assert(air.stepped(dt).u == second.u);
    assert(air.stepped(dt).v == second.v);
}

/// A reset brings the air back to where a new simulation has it, and leaves the
/// settings as they are.
pub proof fn law_reset_is_a_new_start<T: Scalar>(air: SmokeModel<T>)
    ensures
        air.calmed() == (SmokeModel {
            diff: air.diff,
            visc: air.visc,
            buoyancy: air.buoyancy,
            dissipation: air.dissipation,
            vorticity: air.vorticity,
            ..SmokeModel::initial(air.n)
        }),
{
}

/// What is let in at a border cell, or outside of the grid, is lost.
pub proof fn law_sources_outside_are_ignored<T: Scalar>(
    air: SmokeModel<T>,
    i: usize,
    j: usize,
    amount: T,
    du: T,
    dv: T,
)
    requires
        !air.has_cell(i, j),
    ensures
        air.fed(i, j, amount) == air,
        air.pushed(i, j, du, dv) == air,
{
}

/// A value that is spread with weight `a` among its four neighbours and divided by
/// `c`.
pub open spec fn eased<T: Scalar>(a: T, c: T, x: T, p: T, q: T, r: T, t: T) -> T {
    quot(sum(x, prod(a, sum(sum(sum(p, q), r), t))), c)
}

/// A range of values, both ends included.
pub struct Limits<T> {
    pub lo: T,
    pub hi: T,
}

impl<T: Scalar> Limits<T> {
    /// `x` lies in the range.
    pub open spec fn admits(self, x: T) -> bool {
        ge(x, self.lo) && ge(self.hi, x)
    }

    /// Every cell of a field lies in the range.
    pub open spec fn hold(self, x: Seq<T>) -> bool {
        forall|k: int| 0 <= k < x.len() ==> self.admits(#[trigger] x[k])
    }

    /// Every interior cell of a field lies in the range.
    pub open spec fn hold_inside(self, n: int, x: Seq<T>) -> bool {
        forall|k: int| 0 <= k < x.len() && interior(k, n) ==> self.admits(#[trigger] x[k])
    }

    /// The mean of two values in the range lies in it too.
    pub open spec fn hold_means(self) -> bool {
        forall|p: T, q: T| self.admits(p) && self.admits(q) ==> self.admits(#[trigger] mean(p, q))
    }

    /// A value in the range that is spread with weight `a` among neighbours in the
    /// range `around`, and divided by `c`, lies in the range too.
    pub open spec fn hold_spreading(self, a: T, c: T, around: Limits<T>) -> bool {
        forall|x: T, p: T, q: T, r: T, t: T|
            self.admits(x) && around.admits(p) && around.admits(q) && around.admits(r)
                && around.admits(t) ==> self.admits(#[trigger] eased(a, c, x, p, q, r, t))
    }

    /// Whatever lies in the range lies in `wider`.
    pub open spec fn lies_in(self, wider: Limits<T>) -> bool {
        forall|x: T| self.admits(x) ==> #[trigger] wider.admits(x)
    }
}

/// A coordinate lies half a cell or more inside the border.
pub open spec fn in_box<T: Scalar>(n: int, x: T) -> bool {
    (Limits { lo: lit(1, 2), hi: sum(count::<T>(n as usize), lit(1, 2)) }).admits(x)
}

/// The four values around `(x, y)` mixed.
pub open spec fn mixed<T: Scalar>(n: int, x: T, y: T, p: T, q: T, r: T, t: T) -> T {
    let s1 = diff(x, count::<T>(floor_cell(n, x) as usize));
    let s0 = diff(lit(1, 1), s1);
    let t1 = diff(y, count::<T>(floor_cell(n, y) as usize));
    let t0 = diff(lit(1, 1), t1);
    sum(prod(s0, sum(prod(t0, p), prod(t1, q))), prod(s1, sum(prod(t0, r), prod(t1, t))))
}

/// Four values of the range `given` around a coordinate mix to one of the range
/// `kept`.
pub open spec fn mixtures_keep<T: Scalar>(n: int, given: Limits<T>, kept: Limits<T>) -> bool {
    forall|x: T, y: T, p: T, q: T, r: T, t: T|
        in_box(n, x) && in_box(n, y) && given.admits(p) && given.admits(q) && given.admits(r)
            && given.admits(t) ==> kept.admits(#[trigger] mixed(n, x, y, p, q, r, t))
}

/// A value of the range that fades over `dt` seconds lies in the range too.
pub open spec fn fading_keeps<T: Scalar>(dissipation: T, dt: T, range: Limits<T>) -> bool {
    let f = quot(lit(1, 1), sum(lit(1, 1), prod(dt, dissipation)));
    lt(lit(0, 1), dissipation) ==> forall|p: T|
        range.admits(p) ==> range.admits(#[trigger] prod(p, f))
}

/// The place that the flow of the step into an interior cell comes from lies in the
/// box.
pub open spec fn comes_from_inside<T: Scalar>(air: SmokeModel<T>, dt: T) -> bool {
    let (n, w) = (air.n, air.n + 2);
    let flow = air.forced().flowed(dt);
    &&& forall|k: int|
        0 <= k < cells(n) && interior(k, n) ==> in_box(
            n,
            traced(n, col(k, w), #[trigger] flow.u[k], dt),
        )
    &&& forall|k: int|
        0 <= k < cells(n) && interior(k, n) ==> in_box(
            n,
            traced(n, row(k, w), #[trigger] flow.v[k], dt),
        )
}

/// A relaxation brings the cells that it has passed into the range of the values
/// that are spread, and leaves no cell outside the range of the neighbours.
proof fn lemma_relaxed_within<T: Scalar>(
    n: int,
    x: Seq<T>,
    x0: Seq<T>,
    a: T,
    c: T,
    upto: int,
    range: Limits<T>,
    around: Limits<T>,
)
    requires
        0 <= n,
        upto <= x.len(),
        x.len() == cells(n),
        x0.len() == cells(n),
        range.hold_inside(n, x0),
        around.hold(x),
        range.lies_in(around),
        range.hold_spreading(a, c, around),
    ensures
        around.hold(relaxed(n, x, x0, a, c, upto)),
        forall|k: int|
            0 <= k < upto && interior(k, n) ==> range.admits(
                #[trigger] relaxed(n, x, x0, a, c, upto)[k],
            ),
    decreases upto,
{
    if upto > 0 {
        lemma_relaxed_within(n, x, x0, a, c, upto - 1, range, around);
        lemma_relaxed_len(n, x, x0, a, c, upto - 1);
        let k = upto - 1;
        let y = relaxed(n, x, x0, a, c, k);
        if interior(k, n) {
            lemma_neighbours(k, n);
            assert(range.admits(x0[k]));
            let w = n + 2;
            assert(relaxed_cell(n, y, x0, a, c, k) == eased(
                a,
                c,
                x0[k],
                y[k - 1],
                y[k + 1],
                y[k - w],
                y[k + w],
            ));
        }
    }
}

/// Setting the border of a field that nothing reflects gives no cell a value that is
/// not `good`, where the values inside are and a mean of two such values is.
proof fn lemma_bounded_keeps<T: Scalar>(n: int, x: Seq<T>, good: spec_fn(T) -> bool)
    requires
        1 <= n,
        x.len() == cells(n),
        forall|k: int| 0 <= k < x.len() && interior(k, n) ==> good(#[trigger] x[k]),
        forall|p: T, q: T| good(p) && good(q) ==> good(#[trigger] mean(p, q)),
    ensures
        forall|k: int| 0 <= k < x.len() ==> good(#[trigger] bounded(n, 0, x)[k]),
{
    let w = n + 2;
    let e = edged(n, 0, x);
    assert forall|k: int|
        0 <= k < x.len() && !((col(k, w) == 0 || col(k, w) == n + 1) && (row(k, w) == 0 || row(k, w)
            == n + 1)) implies good(#[trigger] e[k]) by {
        let (i, j) = (col(k, w), row(k, w));
        lemma_place_of_col_row(k, w);
        lemma_row_in_grid(k, w, w);
        assert(w * (j + 1) == w * j + w) by (nonlinear_arith);
        assert(w * (j - 1) == w * j - w) by (nonlinear_arith);
        let (ci, cj) = (
            if i == 0 {
                1
            } else if i == n + 1 {
                n
            } else {
                i
            },
            if j == 0 {
                1
            } else if j == n + 1 {
                n
            } else {
                j
            },
        );
        lemma_col_row_of_place(ci, cj, w);
        lemma_place_in_grid(ci, cj, w, w);
        assert(e[k] == x[place(ci, cj, w)]);
    }
    lemma_corner_places(n);
    lemma_place_in_grid(1, 0, w, w);
    lemma_place_in_grid(0, 1, w, w);
    lemma_place_in_grid(1, n + 1, w, w);
    lemma_place_in_grid(0, n, w, w);
    lemma_place_in_grid(n, 0, w, w);
    lemma_place_in_grid(n + 1, 1, w, w);
    lemma_place_in_grid(n, n + 1, w, w);
    lemma_place_in_grid(n + 1, n, w, w);
    lemma_col_row_of_place(1, 0, w);
    lemma_col_row_of_place(0, 1, w);
    lemma_col_row_of_place(1, n + 1, w);
    lemma_col_row_of_place(0, n, w);
    lemma_col_row_of_place(n, 0, w);
    lemma_col_row_of_place(n + 1, 1, w);
    lemma_col_row_of_place(n, n + 1, w);
    lemma_col_row_of_place(n + 1, n, w);
    assert forall|k: int| 0 <= k < x.len() implies good(
        #[trigger] bounded(n, 0, x)[k],
    ) by {
        lemma_place_of_col_row(k, w);
    }
}

/// Spreading keeps a field to its range, where it starts from a field in the range
/// of the neighbours.
proof fn lemma_solved_within<T: Scalar>(
    n: int,
    x: Seq<T>,
    x0: Seq<T>,
    a: T,
    c: T,
    rounds: nat,
    range: Limits<T>,
    around: Limits<T>,
)
    requires
        1 <= n,
        1 <= rounds,
        x.len() == cells(n),
        x0.len() == cells(n),
        range.hold_inside(n, x0),
        around.hold(x),
        range.lies_in(around),
        range.hold_spreading(a, c, around),
        range.hold_means(),
    ensures
        solved(n, 0, x, x0, a, c, rounds).len() == cells(n),
        range.hold(solved(n, 0, x, x0, a, c, rounds)),
    decreases rounds,
{
    let before = (rounds - 1) as nat;
    let y = solved(n, 0, x, x0, a, c, before);
    lemma_solved_len(n, 0, x, x0, a, c, before);
    lemma_solved_len(n, 0, x, x0, a, c, rounds);
    if before >= 1 {
        lemma_solved_within(n, x, x0, a, c, before, range, around);
    }
    assert(around.hold(y));
    lemma_relaxed_len(n, y, x0, a, c, cells(n));
    lemma_relaxed_within(n, y, x0, a, c, cells(n), range, around);
    let z = relaxed(n, y, x0, a, c, cells(n));
    lemma_bounded_keeps(n, z, |v: T| range.admits(v));
    lemma_bounded_len(n, 0, z);
}

/// Density is neither made nor pushed beyond its range by the flow: where the
/// density with what is let in lies in the range `given` in every interior cell, it
/// lies in the range `kept` in every cell after a step, whatever the velocity, the
/// buoyancy and the vorticity. What is let in lies in the range `sources`.
///
/// This is said where the place that the flow into a cell comes from lies in the
/// box, as it does for velocities that are numbers, and where the arithmetic keeps
/// to the ranges. Of floats, and of smoke that does not diffuse, it does so where
/// `given` goes from zero to any greatest density, `sources` is any finite range
/// round it, and `kept` is `given` with room at its upper end for the roundings of
/// one mixture. Where that end is a power of two the mixture does not round beyond
/// it, and `kept` can be `given` itself.
pub proof fn law_density_keeps_to_its_range<T: Scalar>(
    air: SmokeModel<T>,
    dt: T,
    given: Limits<T>,
    kept: Limits<T>,
    sources: Limits<T>,
)
    requires
        air.valid(),
        1 <= air.n,
        given.hold_inside(air.n, sourced(air.dens, air.dens0, dt)),
        sources.hold(air.dens0),
        given.lies_in(sources),
        given.hold_means(),
        given.hold_spreading(
            spread(air.n, air.diff, dt),
            sum(lit(1, 1), prod(lit(4, 1), spread(air.n, air.diff, dt))),
            sources,
        ),
        mixtures_keep(air.n, given, kept),
        kept.hold_means(),
        fading_keeps(air.dissipation, dt, kept),
        comes_from_inside(air, dt),
    ensures
        kept.hold(air.stepped(dt).dens),
{
    let n = air.n;
    let w = n + 2;
    let flow = air.forced().flowed(dt);
    assert(flow.dens == air.dens && flow.dens0 == air.dens0);
    let fed = sourced(air.dens, air.dens0, dt);
    let a = spread(n, air.diff, dt);
    let c = sum(lit(1, 1), prod(lit(4, 1), a));
    lemma_solved_within(n, air.dens0, fed, a, c, SWEEPS as nat, given, sources);
    let spread = diffused(n, 0, air.dens0, fed, air.diff, dt);
    let carried_in = each_cell(
        fed,
        n,
        |k: int, x: T| carried(n, spread, flow.u, flow.v, dt, k),
    );
    assert forall|k: int| 0 <= k < carried_in.len() && interior(k, n) implies kept.admits(
        #[trigger] carried_in[k],
    ) by {
        let x = traced(n, col(k, w), flow.u[k], dt);
        let y = traced(n, row(k, w), flow.v[k], dt);
        let (i, j) = (floor_cell(n, x), floor_cell(n, y));
        lemma_place_in_grid(i, j, w, w);
        lemma_place_in_grid(i, j + 1, w, w);
        lemma_place_in_grid(i + 1, j, w, w);
        lemma_place_in_grid(i + 1, j + 1, w, w);
        assert(carried_in[k] == mixed(
            n,
            x,
            y,
            spread[place(i, j, w)],
            spread[place(i, j + 1, w)],
            spread[place(i + 1, j, w)],
            spread[place(i + 1, j + 1, w)],
        ));
    }
    lemma_bounded_keeps(n, carried_in, |v: T| kept.admits(v));
    lemma_bounded_len(n, 0, carried_in);
    assert(flow.drifted(dt).dens == bounded(n, 0, carried_in));
}

/// The range from zero to `hi`.
pub open spec fn up_to<T: Scalar>(hi: T) -> Limits<T> {
    Limits { lo: lit(0, 1), hi }
}

/// A part of the whole: from zero to one.
pub open spec fn fraction<T: Scalar>(t: T) -> bool {
    up_to(lit(1, 1)).admits(t)
}

/// How far a coordinate lies into its cell.
pub open spec fn offset<T: Scalar>(n: int, x: T) -> T {
    diff(x, count::<T>(floor_cell(n, x) as usize))
}

/// Values from zero to `bound` are ordered as numbers are: sums and fractions of
/// greater values are not smaller, a fraction of a value is not greater than the
/// value, and a value is not below the mean of itself. Coordinates in the box lie a
/// fraction into their cells, what fades keeps a fraction, and without diffusion
/// nothing is spread.
pub open spec fn sizes_are_ordered<T: Scalar>(n: int, bound: T) -> bool {
    let size = up_to(bound);
    &&& forall|a: T, b: T, c: T| #[trigger] ge(a, b) && #[trigger] ge(b, c) ==> ge(a, c)
    &&& forall|p: T, q: T, r: T, t: T|
        ge(p, lit(0, 1)) && ge(q, lit(0, 1)) && ge(r, p) && ge(t, q) ==> ge(
            #[trigger] sum(r, t),
            #[trigger] sum(p, q),
        )
    &&& forall|p: T, q: T|
        ge(p, lit(0, 1)) && ge(q, lit(0, 1)) ==> ge(#[trigger] sum(p, q), lit(0, 1))
    &&& forall|t: T, p: T, q: T|
        fraction(t) && size.admits(p) && size.admits(q) && ge(q, p) ==> ge(
            #[trigger] prod(t, q),
            #[trigger] prod(t, p),
        )
    &&& forall|t: T, p: T|
        fraction(t) && size.admits(p) ==> up_to(p).admits(#[trigger] prod(t, p))
    &&& forall|t: T, p: T|
        fraction(t) && size.admits(p) ==> up_to(p).admits(#[trigger] prod(p, t))
    &&& forall|p: T| size.admits(p) && size.admits(sum(p, p)) ==> ge(p, #[trigger] mean(p, p))
    &&& fraction(lit::<T>(1, 2))
    &&& forall|x: T|
        in_box(n, x) ==> fraction(#[trigger] offset(n, x)) && fraction(
            diff(lit(1, 1), offset(n, x)),
        )
    &&& forall|dt: T, d: T|
        ge(dt, lit(0, 1)) && lt(lit(0, 1), d) ==> fraction(
            #[trigger] quot(lit(1, 1), sum(lit(1, 1), prod(dt, d))),
        )
    &&& forall|dt: T, x: T, p: T, q: T, r: T, t: T|
        #![trigger eased(
            spread(n, lit(0, 1), dt),
            sum(lit(1, 1), prod(lit(4, 1), spread(n, lit(0, 1), dt))),
            x,
            p,
            q,
            r,
            t,
        )]
        ge(dt, lit(0, 1)) && ge(bound, dt) && size.admits(x) && size.admits(p) && size.admits(q)
            && size.admits(r) && size.admits(t) ==> {
            let a = spread(n, lit(0, 1), dt);
            let y = eased(a, sum(lit(1, 1), prod(lit(4, 1), a)), x, p, q, r, t);
            ge(x, y) && ge(y, x)
        }
}

/// The mean of two values up to `hi` is one.
proof fn lemma_means_are_ordered<T: Scalar>(n: int, hi: T, bound: T)
    requires
        sizes_are_ordered(n, bound),
        ge(hi, lit(0, 1)),
        ge(bound, hi),
        ge(bound, sum(hi, hi)),
    ensures
        up_to(hi).hold_means(),
{
    assert forall|p: T, q: T| up_to(hi).admits(p) && up_to(hi).admits(q) implies up_to(hi).admits(
        #[trigger] mean(p, q),
    ) by {
        let s = sum(p, q);
        assert(ge(sum(hi, hi), s));
        assert(ge(s, lit(0, 1)));
        assert(ge(bound, s));
        assert(ge(sum(hi, hi), lit(0, 1)));
        assert(ge(prod(lit(1, 2), sum(hi, hi)), prod(lit(1, 2), s)));
        assert(up_to(s).admits(prod(lit(1, 2), s)));
        assert(ge(hi, mean(hi, hi)));
    }
}

/// Two values up to `hi`, a fraction of each, add up to no more than those fractions
/// of `hi`.
proof fn lemma_pairs_are_ordered<T: Scalar>(n: int, a: T, b: T, p: T, q: T, hi: T, bound: T)
    requires
        sizes_are_ordered(n, bound),
        fraction(a),
        fraction(b),
        up_to(hi).admits(p),
        up_to(hi).admits(q),
        ge(hi, lit(0, 1)),
        ge(bound, hi),
    ensures
        ge(sum(prod(a, p), prod(b, q)), lit(0, 1)),
        ge(sum(prod(a, hi), prod(b, hi)), sum(prod(a, p), prod(b, q))),
        ge(sum(hi, hi), sum(prod(a, hi), prod(b, hi))),
{
    assert(ge(bound, p) && ge(bound, q));
    assert(up_to(p).admits(prod(a, p)) && up_to(q).admits(prod(b, q)));
    assert(up_to(hi).admits(prod(a, hi)) && up_to(hi).admits(prod(b, hi)));
    assert(ge(prod(a, hi), prod(a, p)) && ge(prod(b, hi), prod(b, q)));
}

/// Density is neither made nor pushed beyond its peak by the flow: where nothing
/// diffuses, and the density with what is let in lies between zero and `peak` in every
/// interior cell, it lies between zero and `roof` in every cell after a step, whatever
/// the velocity, the buoyancy and the vorticity. `roof` is the peak up to rounding:
/// what a mixture of peaks comes to at most. What is let in is not negative.
///
/// This is said where the place that the flow into a cell comes from lies in the box,
/// as it does for velocities that are numbers, and where the values up to `bound` are
/// ordered as numbers are, as floats are on a grid whose cells they can count and for
/// a finite bound that four times over is finite too.
pub proof fn law_density_never_exceeds_its_peak<T: Scalar>(
    air: SmokeModel<T>,
    dt: T,
    peak: T,
    roof: T,
    bound: T,
)
    requires
        air.valid(),
        1 <= air.n,
        air.diff == lit::<T>(0, 1),
        ge(dt, lit(0, 1)),
        ge(bound, dt),
        sizes_are_ordered(air.n, bound),
        comes_from_inside(air, dt),
        ge(peak, lit(0, 1)),
        up_to(peak).hold_inside(air.n, sourced(air.dens, air.dens0, dt)),
        up_to(bound).hold(air.dens0),
        ge(roof, peak),
        forall|x: T, y: T|
            in_box(air.n, x) && in_box(air.n, y) ==> ge(
                roof,
                #[trigger] mixed(air.n, x, y, peak, peak, peak, peak),
            ),
        ge(bound, roof),
        ge(bound, sum(roof, roof)),
    ensures
        up_to(roof).hold(air.stepped(dt).dens),
{
    let n = air.n;
    let zero = lit::<T>(0, 1);
    let (given, kept, sources) = (up_to(peak), up_to(roof), up_to(bound));
    assert(ge(roof, zero) && ge(bound, peak) && ge(sum(roof, roof), sum(peak, peak)));
    assert(ge(bound, sum(peak, peak)));
    lemma_means_are_ordered(n, peak, bound);
    lemma_means_are_ordered(n, roof, bound);
    assert(given.lies_in(sources));
    let a = spread(n, air.diff, dt);
    assert(given.hold_spreading(a, sum(lit(1, 1), prod(lit(4, 1), a)), sources));
    assert forall|x: T, y: T, p: T, q: T, r: T, t: T|
        in_box(n, x) && in_box(n, y) && given.admits(p) && given.admits(q) && given.admits(r)
            && given.admits(t) implies kept.admits(#[trigger] mixed(n, x, y, p, q, r, t)) by {
        let (s1, t1) = (offset(n, x), offset(n, y));
        let (s0, t0) = (diff(lit(1, 1), s1), diff(lit(1, 1), t1));
        let (near, far) = (sum(prod(t0, p), prod(t1, q)), sum(prod(t0, r), prod(t1, t)));
        let full = sum(prod(t0, peak), prod(t1, peak));
        lemma_pairs_are_ordered(n, t0, t1, p, q, peak, bound);
        lemma_pairs_are_ordered(n, t0, t1, r, t, peak, bound);
        assert(ge(bound, full));
        assert(ge(full, zero));
        lemma_pairs_are_ordered(n, s0, s1, near, far, full, bound);
        assert(ge(roof, mixed(n, x, y, peak, peak, peak, peak)));
    }
    assert(mixtures_keep(n, given, kept));
    assert(fading_keeps(air.dissipation, dt, kept)) by {
        if lt(zero, air.dissipation) {
            let f = quot(lit(1, 1), sum(lit(1, 1), prod(dt, air.dissipation)));
            assert(fraction(f));
            assert forall|p: T| kept.admits(p) implies kept.admits(#[trigger] prod(p, f)) by {
                assert(ge(bound, p));
                assert(up_to(p).admits(prod(p, f)));
            }
        }
    }
    law_density_keeps_to_its_range(air, dt, given, kept, sources);
}

/// Every cell of a field is zero.
pub open spec fn nil_field<T: Scalar>(x: Seq<T>) -> bool {
    forall|k: int| 0 <= k < x.len() ==> nil(#[trigger] x[k])
}

/// Zero is zero in a projection: so are the mean of zeros, what a relaxation makes
/// of zeros, and the slope between them; and zero taken off a number leaves it as it
/// is, but perhaps for the sign of a zero.
pub open spec fn zero_projects_to_zero<T: Scalar>(n: int) -> bool {
    &&& nil(lit::<T>(0, 1))
    &&& forall|a: T, b: T| nil(a) && nil(b) ==> nil(#[trigger] mean(a, b))
    &&& forall|a: T, b: T| nil(a) && nil(b) ==> nil(#[trigger] sum(a, b))
    &&& forall|a: T, b: T| nil(a) && nil(b) ==> nil(#[trigger] diff(a, b))
    &&& forall|a: T| nil(a) ==> nil(#[trigger] prod(lit(1, 1), a))
    &&& forall|a: T| nil(a) ==> nil(#[trigger] quot(a, lit(4, 1)))
    &&& forall|a: T| nil(a) ==> nil(#[trigger] prod(lit(1, 2), a))
    &&& forall|a: T| nil(a) ==> nil(#[trigger] quot(a, spacing(n)))
    &&& forall|a: T, b: T|
        ge(a, a) && nil(b) ==> eq(#[trigger] diff(a, b), a) && (!nil(a) ==> diff(a, b) == a)
}

/// Relaxing zeros against zeros gives zeros.
proof fn lemma_relaxed_nil<T: Scalar>(n: int, x: Seq<T>, x0: Seq<T>, upto: int)
    requires
        0 <= n,
        upto <= x.len(),
        x.len() == cells(n),
        x0.len() == cells(n),
        nil_field(x),
        nil_field(x0),
        zero_projects_to_zero::<T>(n),
    ensures
        nil_field(relaxed(n, x, x0, lit(1, 1), lit(4, 1), upto)),
    decreases upto,
{
    if upto > 0 {
        let k = upto - 1;
        let y = relaxed(n, x, x0, lit(1, 1), lit(4, 1), k);
        lemma_relaxed_nil(n, x, x0, k);
        lemma_relaxed_len(n, x, x0, lit(1, 1), lit(4, 1), k);
        if interior(k, n) {
            let w = n + 2;
            lemma_neighbours(k, n);
            assert(nil(sum(sum(sum(y[k - 1], y[k + 1]), y[k - w]), y[k + w])));
            assert(nil(relaxed_cell(n, y, x0, lit(1, 1), lit(4, 1), k)));
        }
    }
}

/// The pressure that no divergence asks for is zero.
proof fn lemma_solved_nil<T: Scalar>(n: int, x: Seq<T>, x0: Seq<T>, rounds: nat)
    requires
        1 <= n,
        x.len() == cells(n),
        x0.len() == cells(n),
        nil_field(x),
        nil_field(x0),
        zero_projects_to_zero::<T>(n),
    ensures
        nil_field(solved(n, 0, x, x0, lit(1, 1), lit(4, 1), rounds)),
    decreases rounds,
{
    if rounds > 0 {
        let before = (rounds - 1) as nat;
        let y = solved(n, 0, x, x0, lit(1, 1), lit(4, 1), before);
        lemma_solved_nil(n, x, x0, before);
        lemma_solved_len(n, 0, x, x0, lit(1, 1), lit(4, 1), before);
        lemma_relaxed_nil(n, y, x0, cells(n));
        lemma_relaxed_len(n, y, x0, lit(1, 1), lit(4, 1), cells(n));
        let z = relaxed(n, y, x0, lit(1, 1), lit(4, 1), cells(n));
        lemma_bounded_keeps(n, z, |v: T| nil(v));
        lemma_bounded_len(n, 0, z);
    }
}

/// A projection leaves a velocity field without divergence alone: no pressure arises,
/// and every interior cell keeps its velocity. This is said where zero stays zero in
/// the arithmetic, as it does in that of floats, and of velocities that are numbers;
/// a component that is zero stays zero, and any other stays what it is.
pub proof fn law_projection_leaves_a_free_flow_alone<T: Scalar>(given: Projection<T>, n: int)
    requires
        1 <= n,
        given.u.len() == cells(n),
        given.v.len() == cells(n),
        given.p.len() == cells(n),
        given.div.len() == cells(n),
        zero_projects_to_zero::<T>(n),
        forall|k: int|
            0 <= k < cells(n) && interior(k, n) ==> nil(
                #[trigger] divergence(n, given.u, given.v, k),
            ),
    ensures
        nil_field(given.solved(n).div),
        nil_field(given.solved(n).p),
        forall|k: int|
            0 <= k < cells(n) && interior(k, n) && ge(given.u[k], given.u[k]) ==> eq(
                #[trigger] given.solved(n).u[k],
                given.u[k],
            ) && (!nil(given.u[k]) ==> given.solved(n).u[k] == given.u[k]),
        forall|k: int|
            0 <= k < cells(n) && interior(k, n) && ge(given.v[k], given.v[k]) ==> eq(
                #[trigger] given.solved(n).v[k],
                given.v[k],
            ) && (!nil(given.v[k]) ==> given.solved(n).v[k] == given.v[k]),
{
    let w = n + 2;
    let done = given.solved(n);
    lemma_projection_len(given, n);
    let div = each_cell(given.div, n, |k: int, x: T| divergence(n, given.u, given.v, k));
    lemma_bounded_keeps(n, div, |v: T| nil(v));
    let flat = each_cell(given.p, n, |k: int, x: T| lit::<T>(0, 1));
    lemma_bounded_keeps(n, flat, |v: T| nil(v));
    lemma_bounded_len(n, 0, div);
    lemma_bounded_len(n, 0, flat);
    lemma_solved_nil(n, bounded(n, 0, flat), bounded(n, 0, div), SWEEPS as nat);
    let p = done.p;
    let u = each_cell(given.u, n, |k: int, x: T| diff(x, gradient(n, p, k + 1, k - 1)));
    let v = each_cell(given.v, n, |k: int, x: T| diff(x, gradient(n, p, k + w, k - w)));
    law_border_mirrors_the_inside(n, 1, u, 1);
    law_border_mirrors_the_inside(n, 2, v, 1);
    assert forall|k: int| 0 <= k < cells(n) && interior(k, n) implies done.u[k] == diff(
        given.u[k],
        gradient(n, p, k + 1, k - 1),
    ) && nil(gradient(n, p, k + 1, k - 1)) && done.v[k] == diff(
        given.v[k],
        gradient(n, p, k + w, k - w),
    ) && nil(gradient(n, p, k + w, k - w)) by {
        lemma_neighbours(k, n);
        assert(done.u[k] == bounded(n, 1, u)[k]);
        assert(done.v[k] == bounded(n, 2, v)[k]);
        assert(nil(p[k + 1]) && nil(p[k - 1]) && nil(p[k + w]) && nil(p[k - w]));
    }
}

} // verus!
