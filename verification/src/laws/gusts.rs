//! What a step does to the smoke and the air, from its beginning to its end.

#[allow(unused_imports)]
use crate::laws::air::{
    comes_of_twenty_rounds, field_of_numbers, law_diffusion_solves_the_heat_equation,
    law_projection_takes_off_the_pressure, law_solver_relaxes_in_rounds, lemma_bounded_numbers,
    lemma_divergence, lemma_slope, lemma_spread_weight, outflow,
};
#[allow(unused_imports)]
use crate::laws::forces::{
    air_of_numbers, law_smoke_fades, law_smoke_is_lifted, law_sources_let_in,
    law_swirls_are_put_back,
};
#[allow(unused_imports)]
use crate::laws::gas::{lemma_advected_inside, lemma_sides_can_be_counted};
#[allow(unused_imports)]
use crate::layout::{
    col, lemma_col_row_of_place, lemma_place_in_grid, lemma_place_of_col_row, place, row,
};
#[allow(unused_imports)]
use crate::reals::{larger, lemma_literal, smaller, Reading};
use crate::scalar::Scalar;
#[allow(unused_imports)]
use crate::scalar::{count, diff, index, lit, prod, sum};
#[allow(unused_imports)]
use crate::smoke::{
    advected, bounded, carried, cells, diffused, divergence, each_cell, floor_cell, gradient,
    interior, law_border_mirrors_the_inside, lemma_corner_places, lemma_neighbours, mean, sourced, spread, traced, Projection,
    SmokeModel,
};
use vstd::prelude::*;

verus! {

/// `x`, or its negative.
pub open spec fn turned_round(flip: bool, x: real) -> real {
    if flip {
        0real - x
    } else {
        x
    }
}

/// The cells along the walls hold what the cells beside them do, or the negative of that:
/// at the side walls where `across` holds, at the floor and the ceiling where `along` does.
/// A corner holds the mean of the two cells beside it.
pub open spec fn mirrors<T: Scalar>(
    r: Reading<T>,
    n: int,
    x: Seq<T>,
    across: bool,
    along: bool,
) -> bool {
    let w = n + 2;
    &&& forall|m: int|
        #![trigger place(0, m, w)]
        1 <= m <= n ==> {
            &&& r.at(x[place(0, m, w)]) == turned_round(across, r.at(x[place(1, m, w)]))
            &&& r.at(x[place(n + 1, m, w)]) == turned_round(across, r.at(x[place(n, m, w)]))
            &&& r.at(x[place(m, 0, w)]) == turned_round(along, r.at(x[place(m, 1, w)]))
            &&& r.at(x[place(m, n + 1, w)]) == turned_round(along, r.at(x[place(m, n, w)]))
        }
    &&& 2real * r.at(x[place(0, 0, w)]) == r.at(x[place(1, 0, w)]) + r.at(x[place(0, 1, w)])
    &&& 2real * r.at(x[place(0, n + 1, w)]) == r.at(x[place(1, n + 1, w)]) + r.at(
        x[place(0, n, w)],
    )
    &&& 2real * r.at(x[place(n + 1, 0, w)]) == r.at(x[place(n, 0, w)]) + r.at(
        x[place(n + 1, 1, w)],
    )
    &&& 2real * r.at(x[place(n + 1, n + 1, w)]) == r.at(x[place(n, n + 1, w)]) + r.at(
        x[place(n + 1, n, w)],
    )
}

/// A mean, in numbers.
proof fn lemma_mean<T: Scalar>(r: Reading<T>, a: T, b: T)
    requires
        r.sound(),
        r.never_rounds(),
        r.is(a),
        r.is(b),
    ensures
        2real * r.at(mean(a, b)) == r.at(a) + r.at(b),
{
    assert(r.fits(1i32 as real / 2i32 as real));
    lemma_literal(r, 1, 2);
    assert(r.is(sum(a, b)));
    assert(r.means(mean(a, b), 1real / 2real * r.at(sum(a, b))));
}

/// A field with its border set mirrors at the walls.
proof fn lemma_mirrors<T: Scalar>(r: Reading<T>, n: int, b: u32, x: Seq<T>)
    requires
        r.sound(),
        r.never_rounds(),
        1 <= n,
        x.len() == cells(n),
        field_of_numbers(r, n, bounded(n, b, x)),
    ensures
        mirrors(r, n, bounded(n, b, x), b == 1, b == 2),
{
    let w = n + 2;
    let y = bounded(n, b, x);
    assert forall|m: int| #![trigger place(0, m, w)] 1 <= m <= n implies {
        &&& r.at(y[place(0, m, w)]) == turned_round(b == 1, r.at(y[place(1, m, w)]))
        &&& r.at(y[place(n + 1, m, w)]) == turned_round(b == 1, r.at(y[place(n, m, w)]))
        &&& r.at(y[place(m, 0, w)]) == turned_round(b == 2, r.at(y[place(m, 1, w)]))
        &&& r.at(y[place(m, n + 1, w)]) == turned_round(b == 2, r.at(y[place(m, n, w)]))
    } by {
        law_border_mirrors_the_inside(n, b, x, m);
        lemma_place_in_grid(1, m, w, w);
        lemma_place_in_grid(n, m, w, w);
        lemma_place_in_grid(m, 1, w, w);
        lemma_place_in_grid(m, n, w, w);
        assert(r.is(y[place(1, m, w)]) && r.is(y[place(n, m, w)]));
        assert(r.is(y[place(m, 1, w)]) && r.is(y[place(m, n, w)]));
    }
    lemma_corner_places(n);
    lemma_cell_place(n, 1, 0);
    lemma_cell_place(n, 0, 1);
    lemma_cell_place(n, 1, n + 1);
    lemma_cell_place(n, 0, n);
    lemma_cell_place(n, n, 0);
    lemma_cell_place(n, n + 1, 1);
    lemma_cell_place(n, n, n + 1);
    lemma_cell_place(n, n + 1, n);
    lemma_mean(r, y[place(1, 0, w)], y[place(0, 1, w)]);
    lemma_mean(r, y[place(1, n + 1, w)], y[place(0, n, w)]);
    lemma_mean(r, y[place(n, 0, w)], y[place(n + 1, 1, w)]);
    lemma_mean(r, y[place(n, n + 1, w)], y[place(n + 1, n, w)]);
}

/// A cell of the grid, by column and row.
proof fn lemma_cell_place(n: int, i: int, j: int)
    requires
        1 <= n,
        0 <= i <= n + 1,
        0 <= j <= n + 1,
    ensures
        0 <= place(i, j, n + 2) < cells(n),
        col(place(i, j, n + 2), n + 2) == i,
        row(place(i, j, n + 2), n + 2) == j,
{
    lemma_place_in_grid(i, j, n + 2, n + 2);
    lemma_col_row_of_place(i, j, n + 2);
}

/// The coordinate that lies `way` upwind of `c`, held to half a cell inside the border.
pub open spec fn upwind(n: int, c: int, way: real) -> real {
    smaller(larger(c as real - way, 1real / 2real), n as real + 1real / 2real)
}

/// Value of `d` at the point `(x, y)` between cells `(i, j)` and `(i + 1, j + 1)`, mixed by
/// how near it is to each of the four.
pub open spec fn value_at<T: Scalar>(
    r: Reading<T>,
    n: int,
    d: Seq<T>,
    i: int,
    j: int,
    x: real,
    y: real,
) -> real {
    let w = n + 2;
    let (s, t) = (x - i as real, y - j as real);
    (1real - s) * ((1real - t) * r.at(d[place(i, j, w)]) + t * r.at(d[place(i, j + 1, w)])) + s * ((
    1real - t) * r.at(d[place(i + 1, j, w)]) + t * r.at(d[place(i + 1, j + 1, w)]))
}

/// Cell `(i, j)` of `to` holds what `from` held upwind of it, `dt` seconds away along the
/// velocity `(u, v)`, if that is between cells `(a, b)` and `(a + 1, b + 1)`. The unit of
/// length is the side of the whole grid.
pub open spec fn arrives<T: Scalar>(
    r: Reading<T>,
    n: int,
    wind: (Seq<T>, Seq<T>),
    dt: T,
    from: Seq<T>,
    to: Seq<T>,
    cell: (int, int),
    near: (int, int),
) -> bool {
    let k = place(cell.0, cell.1, n + 2);
    let x = upwind(n, cell.0, r.at(dt) * n as real * r.at(wind.0[k]));
    let y = upwind(n, cell.1, r.at(dt) * n as real * r.at(wind.1[k]));
    near.0 as real <= x < near.0 as real + 1real && near.1 as real <= y < near.1 as real + 1real
        ==> r.means(to[k], value_at(r, n, from, near.0, near.1, x, y))
}

/// The wind has carried `from` to `to` in `dt` seconds.
pub open spec fn carries<T: Scalar>(
    r: Reading<T>,
    n: int,
    wind: (Seq<T>, Seq<T>),
    dt: T,
    from: Seq<T>,
    to: Seq<T>,
) -> bool {
    forall|i: int, j: int, a: int, b: int|
        1 <= i <= n && 1 <= j <= n && 0 <= a <= n && 0 <= b <= n ==> #[trigger] arrives(
            r,
            n,
            wind,
            dt,
            from,
            to,
            (i, j),
            (a, b),
        )
}

/// A coordinate upwind.
proof fn lemma_upwind<T: Scalar>(r: Reading<T>, n: int, c: int, s: T, dt: T)
    requires
        r.sound(),
        r.never_rounds(),
        1 <= n,
        n + 2 < usize::MAX,
        1 <= c <= n,
        r.is(dt),
        r.is(s),
    ensures
        ({
            let x = traced(n, c, s, dt);
            let k = floor_cell(n, x);
            &&& r.means(x, upwind(n, c, r.at(dt) * n as real * r.at(s)))
            &&& 0 <= k <= n
            &&& k as real <= r.at(x) < k as real + 1real
            &&& r.means(diff(x, count(k as usize)), r.at(x) - k as real)
        }),
{
    assert(r.fits(1i32 as real / 2i32 as real));
    lemma_literal(r, 1, 2);
    assert(r.fits((n as usize) as real));
    assert(r.means(count::<T>(n as usize), n as real));
    assert(r.fits((c as usize) as real));
    assert(r.means(count::<T>(c as usize), c as real));
    assert(r.is(prod(dt, count::<T>(n as usize))));
    assert(r.is(prod(prod(dt, count::<T>(n as usize)), s)));
    assert(r.is(diff(count::<T>(c as usize), prod(prod(dt, count::<T>(n as usize)), s))));
    assert(r.is(sum(count::<T>(n as usize), lit(1, 2))));
    let x = traced(n, c, s, dt);
    assert(r.is(x));
    let k = index(x);
    assert(k as real <= r.at(x));
    assert(k as real <= n as real + 1real / 2real);
    assert(k <= n);
    assert(r.fits(k as real));
    assert(r.means(count::<T>(k), k as real));
}

/// What arrives in a cell.
proof fn lemma_arrival<T: Scalar>(
    r: Reading<T>,
    n: int,
    b: u32,
    d: Seq<T>,
    from: Seq<T>,
    wind: (Seq<T>, Seq<T>),
    dt: T,
    i: int,
    j: int,
)
    requires
        r.sound(),
        r.never_rounds(),
        1 <= n,
        n + 2 < usize::MAX,
        d.len() == cells(n),
        field_of_numbers(r, n, from),
        field_of_numbers(r, n, wind.0),
        field_of_numbers(r, n, wind.1),
        r.is(dt),
        1 <= i <= n,
        1 <= j <= n,
    ensures
        ({
            let to = advected(n, b, d, from, wind.0, wind.1, dt);
            let k = place(i, j, n + 2);
            &&& r.is(to[k])
            &&& to[k] == carried(n, from, wind.0, wind.1, dt, k)
            &&& forall|p: int, q: int| #[trigger]
                arrives(r, n, wind, dt, from, to, (i, j), (p, q))
        }),
{
    let w = n + 2;
    let k = place(i, j, w);
    let to = advected(n, b, d, from, wind.0, wind.1, dt);
    lemma_advected_inside(n, b, d, from, wind.0, wind.1, dt, i, j);
    lemma_place_in_grid(i, j, w, w);
    assert(r.is(wind.0[k]) && r.is(wind.1[k]));
    lemma_upwind(r, n, i, wind.0[k], dt);
    lemma_upwind(r, n, j, wind.1[k], dt);
    let (x, y) = (traced(n, i, wind.0[k], dt), traced(n, j, wind.1[k], dt));
    let (ci, cj) = (floor_cell(n, x), floor_cell(n, y));
    lemma_place_in_grid(ci, cj, w, w);
    lemma_place_in_grid(ci, cj + 1, w, w);
    lemma_place_in_grid(ci + 1, cj, w, w);
    lemma_place_in_grid(ci + 1, cj + 1, w, w);
    let (d00, d01) = (from[place(ci, cj, w)], from[place(ci, cj + 1, w)]);
    let (d10, d11) = (from[place(ci + 1, cj, w)], from[place(ci + 1, cj + 1, w)]);
    assert(r.is(d00) && r.is(d01) && r.is(d10) && r.is(d11));
    assert(r.fits(1i32 as real / 1i32 as real));
    lemma_literal(r, 1, 1);
    let (s1, t1) = (diff(x, count::<T>(ci as usize)), diff(y, count::<T>(cj as usize)));
    let (s0, t0) = (diff(lit(1, 1), s1), diff(lit(1, 1), t1));
    assert(r.means(s0, 1real - r.at(s1)) && r.means(t0, 1real - r.at(t1)));
    assert(r.is(prod(t0, d00)) && r.is(prod(t1, d01)));
    assert(r.is(prod(t0, d10)) && r.is(prod(t1, d11)));
    let near = sum(prod(t0, d00), prod(t1, d01));
    let far = sum(prod(t0, d10), prod(t1, d11));
    assert(r.is(near) && r.is(far));
    assert(r.is(prod(s0, near)) && r.is(prod(s1, far)));
    assert(r.means(to[k], value_at(r, n, from, ci, cj, r.at(x), r.at(y))));
    assert forall|p: int, q: int| #[trigger]
        arrives(r, n, wind, dt, from, to, (i, j), (p, q)) by {
        let (ux, uy) = (r.at(x), r.at(y));
        if p as real <= ux < p as real + 1real && q as real <= uy < q as real + 1real {
            assert(p == ci && q == cj);
        }
    }
}

/// An advection carries, and sets the border.
proof fn lemma_carries<T: Scalar>(
    r: Reading<T>,
    n: int,
    b: u32,
    d: Seq<T>,
    from: Seq<T>,
    wind: (Seq<T>, Seq<T>),
    dt: T,
)
    requires
        r.sound(),
        r.never_rounds(),
        1 <= n,
        n + 2 < usize::MAX,
        field_of_numbers(r, n, d),
        field_of_numbers(r, n, from),
        field_of_numbers(r, n, wind.0),
        field_of_numbers(r, n, wind.1),
        r.is(dt),
    ensures
        ({
            let to = advected(n, b, d, from, wind.0, wind.1, dt);
            &&& field_of_numbers(r, n, to)
            &&& carries(r, n, wind, dt, from, to)
            &&& mirrors(r, n, to, b == 1, b == 2)
        }),
{
    let w = n + 2;
    let to = advected(n, b, d, from, wind.0, wind.1, dt);
    let x = each_cell(d, n, |k: int, x: T| carried(n, from, wind.0, wind.1, dt, k));
    assert forall|k: int| 0 <= k < x.len() implies r.is(#[trigger] x[k]) by {
        if interior(k, n) {
            lemma_place_of_col_row(k, w);
            lemma_arrival(r, n, b, d, from, wind, dt, col(k, w), row(k, w));
        } else {
            assert(r.is(d[k]));
        }
    }
    assert(field_of_numbers(r, n, x));
    lemma_bounded_numbers(r, n, b, x, x);
    lemma_mirrors(r, n, b, x);
    assert forall|i: int, j: int, p: int, q: int|
        1 <= i <= n && 1 <= j <= n && 0 <= p <= n && 0 <= q <= n implies #[trigger] arrives(
        r,
        n,
        wind,
        dt,
        from,
        to,
        (i, j),
        (p, q),
    ) by {
        lemma_arrival(r, n, b, d, from, wind, dt, i, j);
    }
}

/// The pressure `p` comes of the values `div` by twenty rounds of the solver that start from
/// no pressure at all.
pub open spec fn presses<T: Scalar>(r: Reading<T>, n: int, div: Seq<T>, p: Seq<T>) -> bool {
    exists|flat: Seq<T>|
        #![trigger comes_of_twenty_rounds(r, n, 0, div, flat, p, 1real, 4real)]
        flat.len() == cells(n) && (forall|k: int|
            0 <= k < cells(n) && interior(k, n) ==> r.at(#[trigger] flat[k]) == 0real)
            && comes_of_twenty_rounds(r, n, 0, div, flat, p, 1real, 4real)
}

/// A pressure, and what it is solved from.
pub struct Press<T> {
    pub p: Seq<T>,
    pub div: Seq<T>,
}

/// The pressure that the flow `was` builds up is taken off it, and leaves the flow `now`,
/// which the walls reflect.
pub open spec fn frees<T: Scalar>(
    r: Reading<T>,
    n: int,
    was: (Seq<T>, Seq<T>),
    now: (Seq<T>, Seq<T>),
    press: Press<T>,
) -> bool {
    let w = n + 2;
    &&& forall|k: int|
        0 <= k < cells(n) && interior(k, n) ==> r.at(#[trigger] press.div[k]) * (2real * n as real)
            == 0real - outflow(r, n, was.0, was.1, k)
    &&& presses(r, n, press.div, press.p)
    &&& forall|k: int|
        0 <= k < cells(n) && interior(k, n) ==> r.at(#[trigger] now.0[k]) == r.at(was.0[k]) - (
        r.at(press.p[k + 1]) - r.at(press.p[k - 1])) / 2real * n as real
    &&& forall|k: int|
        0 <= k < cells(n) && interior(k, n) ==> r.at(#[trigger] now.1[k]) == r.at(was.1[k]) - (
        r.at(press.p[k + w]) - r.at(press.p[k - w])) / 2real * n as real
    &&& mirrors(r, n, now.0, true, false)
    &&& mirrors(r, n, now.1, false, true)
}

/// A projection frees the flow.
proof fn lemma_frees<T: Scalar>(r: Reading<T>, n: int, given: Projection<T>)
    requires
        r.sound(),
        r.never_rounds(),
        1 <= n < usize::MAX,
        field_of_numbers(r, n, given.u),
        field_of_numbers(r, n, given.v),
        field_of_numbers(r, n, given.p),
        field_of_numbers(r, n, given.div),
    ensures
        ({
            let done = given.solved(n);
            &&& field_of_numbers(r, n, done.u) && field_of_numbers(r, n, done.v)
            &&& field_of_numbers(r, n, done.p) && field_of_numbers(r, n, done.div)
            &&& frees(
                r,
                n,
                (given.u, given.v),
                (done.u, done.v),
                (Press { p: done.p, div: done.div }),
            )
        }),
{
    let done = given.solved(n);
    let w = n + 2;
    law_projection_takes_off_the_pressure(r, given, n);
    assert(r.fits(0i32 as real / 1i32 as real));
    assert(r.fits(1i32 as real / 1i32 as real));
    assert(r.fits(4i32 as real / 1i32 as real));
    assert(r.fits(1i32 as real / 2i32 as real));
    lemma_literal(r, 0, 1);
    lemma_literal(r, 1, 1);
    lemma_literal(r, 4, 1);
    lemma_literal(r, 1, 2);
    let div = each_cell(given.div, n, |k: int, x: T| divergence(n, given.u, given.v, k));
    assert forall|k: int| 0 <= k < div.len() implies r.is(#[trigger] div[k]) by {
        if interior(k, n) {
            lemma_divergence(r, n, given.u, given.v, k);
        } else {
            assert(r.is(given.div[k]));
        }
    }
    lemma_bounded_numbers(r, n, 0, div, div);
    let zero = each_cell(given.p, n, |k: int, x: T| lit::<T>(0, 1));
    assert forall|k: int| 0 <= k < zero.len() implies r.is(#[trigger] zero[k]) by {
        assert(r.is(given.p[k]));
    }
    lemma_bounded_numbers(r, n, 0, zero, zero);
    law_solver_relaxes_in_rounds(
        r,
        n,
        0,
        bounded(n, 0, zero),
        bounded(n, 0, div),
        lit(1, 1),
        lit(4, 1),
    );
    let p = done.p;
    assert(field_of_numbers(r, n, p));
    let u = each_cell(given.u, n, |k: int, x: T| diff(x, gradient(n, p, k + 1, k - 1)));
    let v = each_cell(given.v, n, |k: int, x: T| diff(x, gradient(n, p, k + w, k - w)));
    assert forall|k: int| 0 <= k < u.len() implies r.is(#[trigger] u[k]) by {
        assert(r.is(given.u[k]));
        if interior(k, n) {
            lemma_neighbours(k, n);
            lemma_slope(r, n, p, k + 1, k - 1);
        }
    }
    assert forall|k: int| 0 <= k < v.len() implies r.is(#[trigger] v[k]) by {
        assert(r.is(given.v[k]));
        if interior(k, n) {
            lemma_neighbours(k, n);
            lemma_slope(r, n, p, k + w, k - w);
        }
    }
    lemma_bounded_numbers(r, n, 1, u, u);
    lemma_bounded_numbers(r, n, 2, v, v);
    lemma_mirrors(r, n, 1, u);
    lemma_mirrors(r, n, 2, v);
}

/// Every value has grown by what its source let in over `dt` seconds.
pub open spec fn lets_in<T: Scalar>(
    r: Reading<T>,
    dt: T,
    source: Seq<T>,
    was: Seq<T>,
    now: Seq<T>,
) -> bool {
    &&& now.len() == was.len()
    &&& forall|k: int|
        0 <= k < was.len() ==> r.at(#[trigger] now[k]) - r.at(was[k]) == r.at(dt) * r.at(source[k])
}

/// The solver's answer, started from `first`, to how `was` spreads at `rate` over `dt`
/// seconds.
pub open spec fn spreads<T: Scalar>(
    r: Reading<T>,
    n: int,
    b: u32,
    rate: T,
    dt: T,
    was: Seq<T>,
    first: Seq<T>,
    now: Seq<T>,
) -> bool {
    let a = r.at(dt) * r.at(rate) * (n as real * n as real);
    comes_of_twenty_rounds(r, n, b, was, first, now, a, 1real + 4real * a)
}

/// Sources let in.
proof fn lemma_lets_in<T: Scalar>(r: Reading<T>, n: int, dt: T, source: Seq<T>, was: Seq<T>)
    requires
        r.sound(),
        r.never_rounds(),
        r.is(dt),
        field_of_numbers(r, n, source),
        field_of_numbers(r, n, was),
    ensures
        field_of_numbers(r, n, sourced(was, source, dt)),
        lets_in(r, dt, source, was, sourced(was, source, dt)),
{
    let now = sourced(was, source, dt);
    assert forall|k: int| 0 <= k < was.len() implies r.is(#[trigger] now[k]) && r.at(now[k]) - r.at(
        was[k],
    ) == r.at(dt) * r.at(source[k]) by {
        assert(r.is(was[k]) && r.is(source[k]));
        law_sources_let_in(r, was, source, dt, k);
    }
}

/// Diffusion spreads.
proof fn lemma_spreads<T: Scalar>(
    r: Reading<T>,
    n: int,
    b: u32,
    rate: T,
    dt: T,
    was: Seq<T>,
    first: Seq<T>,
)
    requires
        r.sound(),
        r.never_rounds(),
        1 <= n < usize::MAX,
        r.is(rate) && r.at(rate) >= 0real,
        r.is(dt) && r.at(dt) >= 0real,
        field_of_numbers(r, n, was),
        field_of_numbers(r, n, first),
    ensures
        field_of_numbers(r, n, diffused(n, b, first, was, rate, dt)),
        spreads(r, n, b, rate, dt, was, first, diffused(n, b, first, was, rate, dt)),
{
    law_diffusion_solves_the_heat_equation(r, n, b, first, was, rate, dt);
    lemma_spread_weight(r, n, rate, dt);
    let (t, c, m) = (r.at(dt), r.at(rate), n as real * n as real);
    let tc = t * c;
    assert(tc >= 0real) by (nonlinear_arith)
        requires
            t >= 0real,
            c >= 0real,
            tc == t * c,
    ;
    assert(n as real * n as real >= 0real) by (nonlinear_arith);
    assert(tc * m >= 0real) by (nonlinear_arith)
        requires
            tc >= 0real,
            m >= 0real,
    ;
    let a = spread(n, rate, dt);
    law_solver_relaxes_in_rounds(r, n, b, first, was, a, sum(lit(1, 1), prod(lit(4, 1), a)));
}

/// The forces of a step are numbers.
proof fn lemma_forces_are_numbers<T: Scalar>(r: Reading<T>, air: SmokeModel<T>)
    requires
        r.sound(),
        r.never_rounds(),
        r.takes_roots(),
        air_of_numbers(r, air),
    ensures
        field_of_numbers(r, air.n, air.forced().u0),
        field_of_numbers(r, air.n, air.forced().v0),
{
    let n = air.n;
    let f = air.forced();
    assert(r.fits(0i32 as real / 1i32 as real));
    lemma_literal(r, 0, 1);
    assert forall|k: int| 0 <= k < cells(n) implies r.is(#[trigger] f.u0[k]) && r.is(f.v0[k]) by {
        assert(r.is(air.u0[k]) && r.is(air.v0[k]));
        if r.at(air.vorticity) > 0real {
            if interior(k, n) {
                law_swirls_are_put_back(r, air, k);
            }
        } else {
            law_smoke_is_lifted(r, air, k);
        }
    }
    assert forall|k: int| 0 <= k < f.v0.len() implies r.is(#[trigger] f.v0[k]) by {
        assert(r.is(f.u0[k]));
    }
}

/// What the air and the smoke go through in a step.
pub struct Course<T> {
    /// The flow with the forces let in.
    pub fed: (Seq<T>, Seq<T>),
    /// That flow, spread by viscosity.
    pub thick: (Seq<T>, Seq<T>),
    /// What is left of it once the first pressure is taken off.
    pub free: (Seq<T>, Seq<T>),
    pub first: Press<T>,
    /// That flow, carried along itself.
    pub blown: (Seq<T>, Seq<T>),
    pub second: Press<T>,
    /// The smoke with the sources let in.
    pub filled: Seq<T>,
    /// That smoke, spread by diffusion.
    pub hazy: Seq<T>,
    /// That smoke, carried by the wind.
    pub drifting: Seq<T>,
}

/// A step of the air: the forces are let in, viscosity spreads the flow, its pressure is
/// taken off, the flow carries itself along, and the pressure that this builds up is taken
/// off again. A step of the smoke: the sources are let in, diffusion spreads the smoke, the
/// new wind carries it, and it fades. What the air and the smoke go through is returned.
pub proof fn law_step_takes_its_course<T: Scalar>(
    r: Reading<T>,
    air: SmokeModel<T>,
    dt: T,
) -> (course: Course<T>)
    requires
        r.sound(),
        r.never_rounds(),
        r.takes_roots(),
        air_of_numbers(r, air),
        r.is(air.visc) && r.at(air.visc) >= 0real,
        r.is(air.diff) && r.at(air.diff) >= 0real,
        r.is(dt) && r.at(dt) >= 0real,
    ensures
        ({
            let n = air.n;
            let force = (air.forced().u0, air.forced().v0);
            let after = air.stepped(dt);
            let wind = (after.u, after.v);
            &&& lets_in(r, dt, force.0, air.u, course.fed.0)
            &&& lets_in(r, dt, force.1, air.v, course.fed.1)
            &&& spreads(r, n, 1, air.visc, dt, course.fed.0, force.0, course.thick.0)
            &&& spreads(r, n, 2, air.visc, dt, course.fed.1, force.1, course.thick.1)
            &&& frees(r, n, course.thick, course.free, course.first)
            &&& carries(r, n, course.free, dt, course.free.0, course.blown.0)
            &&& carries(r, n, course.free, dt, course.free.1, course.blown.1)
            &&& mirrors(r, n, course.blown.0, true, false)
            &&& mirrors(r, n, course.blown.1, false, true)
            &&& frees(r, n, course.blown, wind, course.second)
            &&& lets_in(r, dt, air.dens0, air.dens, course.filled)
            &&& spreads(r, n, 0, air.diff, dt, course.filled, air.dens0, course.hazy)
            &&& carries(r, n, wind, dt, course.hazy, course.drifting)
            &&& mirrors(r, n, course.drifting, false, false)
            &&& after.dens.len() == course.drifting.len()
            &&& r.at(air.dissipation) > 0real ==> forall|k: int|
                0 <= k < cells(n) ==> r.at(#[trigger] after.dens[k]) * (1real + r.at(dt) * r.at(
                    air.dissipation,
                )) == r.at(course.drifting[k])
            &&& r.at(air.dissipation) <= 0real ==> after.dens == course.drifting
        }),
{
    let n = air.n;
    let f = air.forced();
    lemma_forces_are_numbers(r, air);
    lemma_sides_can_be_counted(n);
    assert(r.fits(0i32 as real / 1i32 as real));
    lemma_literal(r, 0, 1);
    let (u1, v1) = (sourced(air.u, f.u0, dt), sourced(air.v, f.v0, dt));
    lemma_lets_in(r, n, dt, f.u0, air.u);
    lemma_lets_in(r, n, dt, f.v0, air.v);
    let thick = (diffused(n, 1, f.u0, u1, air.visc, dt), diffused(n, 2, f.v0, v1, air.visc, dt));
    lemma_spreads(r, n, 1, air.visc, dt, u1, f.u0);
    lemma_spreads(r, n, 2, air.visc, dt, v1, f.v0);
    let start = Projection { u: thick.0, v: thick.1, p: u1, div: v1 };
    lemma_frees(r, n, start);
    let first = start.solved(n);
    let free = (first.u, first.v);
    let blown = (
        advected(n, 1, first.p, first.u, first.u, first.v, dt),
        advected(n, 2, first.div, first.v, first.u, first.v, dt),
    );
    lemma_carries(r, n, 1, first.p, first.u, free, dt);
    lemma_carries(r, n, 2, first.div, first.v, free, dt);
    let again = Projection { u: blown.0, v: blown.1, p: first.u, div: first.v };
    lemma_frees(r, n, again);
    let second = again.solved(n);
    let wind = (second.u, second.v);
    let flow = f.flowed(dt);
    assert(flow.u == wind.0 && flow.v == wind.1);
    let filled = sourced(air.dens, air.dens0, dt);
    lemma_lets_in(r, n, dt, air.dens0, air.dens);
    let hazy = diffused(n, 0, air.dens0, filled, air.diff, dt);
    lemma_spreads(r, n, 0, air.diff, dt, filled, air.dens0);
    let drifting = advected(n, 0, filled, hazy, wind.0, wind.1, dt);
    lemma_carries(r, n, 0, filled, hazy, wind, dt);
    let smoke = flow.drifted(dt);
    assert(smoke.dens == drifting);
    let after = air.stepped(dt);
    assert(after.dens == smoke.faded(dt).dens);
    assert(air_of_numbers(r, SmokeModel { curl: air.curl, ..smoke }));
    assert forall|k: int| 0 <= k < cells(n) implies {
        &&& r.at(air.dissipation) > 0real ==> r.at(#[trigger] after.dens[k]) * (1real + r.at(dt)
            * r.at(air.dissipation)) == r.at(drifting[k])
        &&& r.at(air.dissipation) <= 0real ==> after.dens[k] == drifting[k]
    } by {
        law_smoke_fades(r, SmokeModel { curl: air.curl, ..smoke }, dt, k);
    }
    assert(r.at(air.dissipation) <= 0real ==> after.dens =~= drifting);
    Course {
        fed: (u1, v1),
        thick,
        free,
        first: Press { p: first.p, div: first.div },
        blown,
        second: Press { p: second.p, div: second.div },
        filled,
        hazy,
        drifting,
    }
}

} // verus!
