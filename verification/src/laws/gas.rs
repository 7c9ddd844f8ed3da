//! How the wind carries the smoke.

use crate::scalar::Scalar;
#[allow(unused_imports)]
use crate::layout::{col, lemma_col_row_of_place, lemma_place_in_grid, place, row};
#[allow(unused_imports)]
use crate::reals::{lemma_literal, lemma_spread, lemma_units, Reading};
#[allow(unused_imports)]
use crate::scalar::{count, diff, index, lit, prod, sum};
#[allow(unused_imports)]
use crate::smoke::{
    advected, bounded, carried, cells, each_cell, floor_cell, interior,
    law_border_mirrors_the_inside, traced,
};
use vstd::prelude::*;

verus! {

/// Every field covers the grid.
pub open spec fn covers<T>(n: int, fields: Seq<Seq<T>>) -> bool {
    &&& 1 <= n
    &&& cells(n) <= usize::MAX
    &&& forall|k: int| 0 <= k < fields.len() ==> (#[trigger] fields[k]).len() == cells(n)
}

/// The sides of a grid that fits into memory can be counted.
pub(crate) proof fn lemma_sides_can_be_counted(n: int)
    requires
        1 <= n,
        cells(n) <= usize::MAX,
    ensures
        n + 2 < usize::MAX,
{
    assert(n + 2 + 1 <= (n + 2) * (n + 2)) by (nonlinear_arith)
        requires
            1 <= n,
    ;
}

/// An advected field holds in an interior cell what was carried there.
pub(crate) proof fn lemma_advected_inside<T: Scalar>(
    n: int,
    b: u32,
    d: Seq<T>,
    d0: Seq<T>,
    u: Seq<T>,
    v: Seq<T>,
    dt: T,
    i: int,
    j: int,
)
    requires
        1 <= i <= n,
        1 <= j <= n,
        d.len() == cells(n),
    ensures
        advected(n, b, d, d0, u, v, dt)[place(i, j, n + 2)] == carried(
            n,
            d0,
            u,
            v,
            dt,
            place(i, j, n + 2),
        ),
        col(place(i, j, n + 2), n + 2) == i,
        row(place(i, j, n + 2), n + 2) == j,
{
    let w = n + 2;
    let k = place(i, j, w);
    lemma_col_row_of_place(i, j, w);
    lemma_place_in_grid(i, j, w, w);
    let x = each_cell(d, n, |k: int, x: T| carried(n, d0, u, v, dt, k));
    law_border_mirrors_the_inside(n, b, x, i);
    assert(interior(k, n));
    assert(bounded(n, b, x)[k] == x[k]);
}

/// The scalars hold the numbers that a coordinate carried back `m` cells from `c`
/// goes through.
pub open spec fn whole_cells_fit<T: Scalar>(r: Reading<T>, n: int, dt: T, c: int, m: int) -> bool {
    &&& r.fits(0real) && r.fits(1real) && r.fits(1real / 2real)
    &&& r.fits(n as real) && r.fits(n as real + 1real / 2real) && r.fits(r.at(dt) * n as real)
    &&& r.fits(c as real) && r.fits(m as real) && r.fits((c - m) as real)
}

/// Where a wind that blows `m` cells in a step comes from, cell and offset.
proof fn lemma_whole_cells_back<T: Scalar>(r: Reading<T>, n: int, c: int, m: int, s: T, dt: T)
    requires
        r.sound(),
        1 <= n,
        n + 2 < usize::MAX,
        1 <= c <= n,
        1 <= c - m <= n,
        r.is(dt),
        r.is(s),
        r.at(dt) * n as real * r.at(s) == m as real,
        whole_cells_fit(r, n, dt, c, m),
    ensures
        floor_cell(n, traced(n, c, s, dt)) == c - m,
        r.means(diff(traced(n, c, s, dt), count((c - m) as usize)), 0real),
{
    assert(r.fits(1i32 as real / 2i32 as real));
    lemma_literal(r, 1, 2);
    assert(r.fits((n as usize) as real));
    assert(r.means(count::<T>(n as usize), n as real));
    assert(r.fits((c as usize) as real));
    assert(r.means(count::<T>(c as usize), c as real));
    assert(r.means(prod(dt, count::<T>(n as usize)), r.at(dt) * n as real));
    assert(r.means(prod(prod(dt, count::<T>(n as usize)), s), m as real));
    assert((c - m) as real == c as real - m as real);
    let x = traced(n, c, s, dt);
    assert(r.means(x, (c - m) as real));
    let k = index(x);
    assert(k as real <= (c - m) as real);
    assert(((c - m) as real) < k as real + 1real);
    assert(k == c - m);
    assert(r.fits(((c - m) as usize) as real));
    assert(r.means(count::<T>((c - m) as usize), (c - m) as real));
}

/// The wind carries: where it blows a whole number of cells in a step, `m` of them to
/// the right and `q` upward, the unit of length being the side of the whole grid, a
/// cell holds after the advection what the cell `m` columns to its left and `q` rows
/// below it held before.
pub proof fn law_wind_carries_whole_cells<T: Scalar>(
    r: Reading<T>,
    n: int,
    b: u32,
    d: Seq<T>,
    d0: Seq<T>,
    u: Seq<T>,
    v: Seq<T>,
    dt: T,
    i: int,
    j: int,
    m: int,
    q: int,
)
    requires
        r.sound(),
        covers(n, seq![d, d0, u, v]),
        1 <= i <= n,
        1 <= j <= n,
        1 <= i - m <= n,
        1 <= j - q <= n,
        r.is(dt),
        r.is(u[place(i, j, n + 2)]),
        r.is(v[place(i, j, n + 2)]),
        r.at(dt) * n as real * r.at(u[place(i, j, n + 2)]) == m as real,
        r.at(dt) * n as real * r.at(v[place(i, j, n + 2)]) == q as real,
        whole_cells_fit(r, n, dt, i, m),
        whole_cells_fit(r, n, dt, j, q),
        r.is(d0[place(i - m, j - q, n + 2)]),
        r.is(d0[place(i - m, j - q + 1, n + 2)]),
        r.is(d0[place(i - m + 1, j - q, n + 2)]),
        r.is(d0[place(i - m + 1, j - q + 1, n + 2)]),
    ensures
        r.means(
            advected(n, b, d, d0, u, v, dt)[place(i, j, n + 2)],
            r.at(d0[place(i - m, j - q, n + 2)]),
        ),
{
    let w = n + 2;
    let k = place(i, j, w);
    assert(seq![d, d0, u, v][0] == d);
    lemma_sides_can_be_counted(n);
    lemma_advected_inside(n, b, d, d0, u, v, dt, i, j);
    lemma_whole_cells_back(r, n, i, m, u[k], dt);
    lemma_whole_cells_back(r, n, j, q, v[k], dt);
    assert(r.fits(1i32 as real / 1i32 as real));
    lemma_literal(r, 1, 1);
    let (x, y) = (traced(n, i, u[k], dt), traced(n, j, v[k], dt));
    let (s1, t1) = (diff(x, count::<T>((i - m) as usize)), diff(y, count::<T>((j - q) as usize)));
    let (s0, t0) = (diff(lit(1, 1), s1), diff(lit(1, 1), t1));
    assert(r.means(s0, 1real) && r.means(t0, 1real));
    let (a, e, f, g) = (
        d0[place(i - m, j - q, w)],
        d0[place(i - m, j - q + 1, w)],
        d0[place(i - m + 1, j - q, w)],
        d0[place(i - m + 1, j - q + 1, w)],
    );
    lemma_units(r.at(a));
    lemma_units(r.at(e));
    lemma_units(r.at(f));
    lemma_units(r.at(g));
    let near = sum(prod(t0, a), prod(t1, e));
    let far = sum(prod(t0, f), prod(t1, g));
    assert(r.means(near, r.at(a)));
    assert(r.means(far, r.at(f)));
    lemma_units(r.at(near));
    lemma_units(r.at(far));
    assert(carried(n, d0, u, v, dt, k) == sum(prod(s0, near), prod(s1, far)));
}

/// A field grows evenly over the grid, by `b` from column to column and by `c` from row
/// to row, from `a` on.
pub open spec fn grows<T: Scalar>(
    r: Reading<T>,
    n: int,
    x: Seq<T>,
    a: real,
    b: real,
    c: real,
) -> bool {
    forall|i: int, j: int|
        0 <= i <= n + 1 && 0 <= j <= n + 1 ==> r.means(
            #[trigger] x[place(i, j, n + 2)],
            a + b * i as real + c * j as real,
        )
}

/// Where the flow through a coordinate came from, where that lies in the box.
proof fn lemma_back<T: Scalar>(r: Reading<T>, n: int, c: int, s: T, dt: T)
    requires
        r.sound(),
        r.never_rounds(),
        1 <= n,
        n + 2 < usize::MAX,
        1 <= c <= n,
        r.is(dt),
        r.is(s),
        1real / 2real <= c as real - r.at(dt) * n as real * r.at(s) <= n as real + 1real / 2real,
    ensures
        ({
            let x = traced(n, c, s, dt);
            let k = floor_cell(n, x);
            &&& r.means(x, c as real - r.at(dt) * n as real * r.at(s))
            &&& 0 <= k <= n
            &&& r.means(diff(x, count(k as usize)), r.at(x) - k as real)
        }),
{
    assert(r.fits(1i32 as real / 2i32 as real));
    lemma_literal(r, 1, 2);
    assert(r.fits((n as usize) as real));
    assert(r.means(count::<T>(n as usize), n as real));
    assert(r.fits((c as usize) as real));
    assert(r.means(count::<T>(c as usize), c as real));
    assert(r.is(prod(dt, count::<T>(n as usize))));
    assert(r.is(prod(prod(dt, count::<T>(n as usize)), s)));
    let x = traced(n, c, s, dt);
    assert(r.is(x));
    let k = index(x);
    assert(k as real <= r.at(x));
    assert(k as real <= n as real + 1real / 2real);
    assert(k <= n);
    assert(r.fits(k as real));
    assert(r.means(count::<T>(k), k as real));
}

/// What is carried came from upstream: a field that grows evenly has after the
/// advection, in every cell that the wind reaches from inside the box, the value that
/// belongs to the place `dt` seconds upwind, the unit of length being the side of the
/// whole grid.
pub proof fn law_carried_field_comes_from_upwind<T: Scalar>(
    r: Reading<T>,
    n: int,
    bd: u32,
    d: Seq<T>,
    d0: Seq<T>,
    u: Seq<T>,
    v: Seq<T>,
    dt: T,
    i: int,
    j: int,
    a: real,
    b: real,
    c: real,
)
    requires
        r.sound(),
        r.never_rounds(),
        covers(n, seq![d, d0, u, v]),
        1 <= i <= n,
        1 <= j <= n,
        r.is(dt),
        r.is(u[place(i, j, n + 2)]),
        r.is(v[place(i, j, n + 2)]),
        grows(r, n, d0, a, b, c),
        1real / 2real <= i as real - r.at(dt) * n as real * r.at(u[place(i, j, n + 2)]) <= n as real
            + 1real / 2real,
        1real / 2real <= j as real - r.at(dt) * n as real * r.at(v[place(i, j, n + 2)]) <= n as real
            + 1real / 2real,
    ensures
        r.means(
            advected(n, bd, d, d0, u, v, dt)[place(i, j, n + 2)],
            a + b * (i as real - r.at(dt) * n as real * r.at(u[place(i, j, n + 2)])) + c * (
            j as real - r.at(dt) * n as real * r.at(v[place(i, j, n + 2)])),
        ),
{
    let w = n + 2;
    let k = place(i, j, w);
    assert(seq![d, d0, u, v][0] == d);
    lemma_sides_can_be_counted(n);
    lemma_advected_inside(n, bd, d, d0, u, v, dt, i, j);
    lemma_back(r, n, i, u[k], dt);
    lemma_back(r, n, j, v[k], dt);
    assert(r.fits(1i32 as real / 1i32 as real));
    lemma_literal(r, 1, 1);
    let (x, y) = (traced(n, i, u[k], dt), traced(n, j, v[k], dt));
    let (ci, cj) = (floor_cell(n, x), floor_cell(n, y));
    let (s1, t1) = (diff(x, count::<T>(ci as usize)), diff(y, count::<T>(cj as usize)));
    let (s0, t0) = (diff(lit(1, 1), s1), diff(lit(1, 1), t1));
    let (sx, ty) = (r.at(s1), r.at(t1));
    assert(r.means(s0, 1real - sx) && r.means(t0, 1real - ty));
    let (ri, rj) = (ci as real, cj as real);
    let p = a + b * ri + c * rj;
    assert((ci + 1) as real == ri + 1real && (cj + 1) as real == rj + 1real);
    lemma_spread(b, ri, 1real);
    lemma_spread(c, rj, 1real);
    lemma_units(b);
    lemma_units(c);
    assert(r.means(d0[place(ci, cj, w)], p));
    assert(r.means(d0[place(ci, cj + 1, w)], p + c));
    assert(r.means(d0[place(ci + 1, cj, w)], p + b));
    assert(r.means(d0[place(ci + 1, cj + 1, w)], p + b + c));
    let near = sum(prod(t0, d0[place(ci, cj, w)]), prod(t1, d0[place(ci, cj + 1, w)]));
    let far = sum(prod(t0, d0[place(ci + 1, cj, w)]), prod(t1, d0[place(ci + 1, cj + 1, w)]));
    lemma_spread(p, 1real, ty);
    lemma_spread(ty, p, c);
    lemma_units(p);
    assert(r.is(prod(t0, d0[place(ci, cj, w)])) && r.is(prod(t1, d0[place(ci, cj + 1, w)])));
    assert(r.means(near, p + ty * c));
    lemma_spread(p + b, 1real, ty);
    lemma_spread(ty, p + b, c);
    lemma_units(p + b);
    assert(r.is(prod(t0, d0[place(ci + 1, cj, w)])));
    assert(r.is(prod(t1, d0[place(ci + 1, cj + 1, w)])));
    assert(r.means(far, p + b + ty * c));
    let z = p + ty * c;
    lemma_spread(z, 1real, sx);
    lemma_spread(sx, z, b);
    lemma_units(z);
    assert(r.is(prod(s0, near)) && r.is(prod(s1, far)));
    assert(r.means(carried(n, d0, u, v, dt, k), z + sx * b));
    lemma_spread(b, r.at(x), ri);
    lemma_spread(c, r.at(y), rj);
}

} // verus!
