//! What moves the air: the solver behind diffusion and pressure, and the projection.

use crate::scalar::Scalar;
#[allow(unused_imports)]
use crate::layout::{
    col, lemma_place_in_grid, lemma_place_of_col_row, lemma_row_in_grid, place, row,
};
#[allow(unused_imports)]
use crate::reals::{lemma_literal, lemma_spread, lemma_units, Reading};
#[allow(unused_imports)]
use crate::scalar::{count, diff, lit, neg, prod, sum};
#[allow(unused_imports)]
use crate::smoke::{
    bounded, cells, cornered, diffused, divergence, each_cell, edged, gradient, interior,
    law_border_mirrors_the_inside, lemma_bounded_len, lemma_corner_places, lemma_neighbours, mean,
    mirrored, relaxed, solved, spacing, spread, Projection, SWEEPS,
};
use vstd::prelude::*;

verus! {

/// All values of a field over the grid are numbers.
pub open spec fn field_of_numbers<T: Scalar>(r: Reading<T>, n: int, x: Seq<T>) -> bool {
    x.len() == cells(n) && forall|k: int| 0 <= k < x.len() ==> r.is(#[trigger] x[k])
}

/// Two fields hold the same numbers.
pub open spec fn same_field<T: Scalar>(r: Reading<T>, x: Seq<T>, y: Seq<T>) -> bool {
    x.len() == y.len() && forall|k: int| 0 <= k < x.len() ==> r.at(#[trigger] x[k]) == r.at(y[k])
}

/// The four values around cell `k` added up, the cells to its left and below it taken
/// from `y` and the others from `x`.
pub open spec fn around<T: Scalar>(r: Reading<T>, n: int, y: Seq<T>, x: Seq<T>, k: int) -> real {
    r.at(y[k - 1]) + r.at(x[k + 1]) + r.at(y[k - (n + 2)]) + r.at(x[k + (n + 2)])
}

/// A relaxation up to `upto`, in numbers.
proof fn lemma_relaxed_in_turn<T: Scalar>(
    r: Reading<T>,
    n: int,
    x: Seq<T>,
    x0: Seq<T>,
    a: T,
    c: T,
    upto: int,
)
    requires
        r.sound(),
        r.never_rounds(),
        1 <= n,
        field_of_numbers(r, n, x),
        field_of_numbers(r, n, x0),
        r.is(a),
        r.is(c),
        r.at(c) != 0real,
        upto <= cells(n),
    ensures
        ({
            let y = relaxed(n, x, x0, a, c, upto);
            &&& field_of_numbers(r, n, y)
            &&& forall|k: int|
                0 <= k < cells(n) && (k >= upto || !interior(k, n)) ==> #[trigger] y[k] == x[k]
            &&& forall|k: int|
                0 <= k < upto && interior(k, n) ==> r.at(#[trigger] y[k]) * r.at(c) == r.at(x0[k])
                    + r.at(a) * around(r, n, y, x, k)
        }),
    decreases upto,
{
    if upto > 0 {
        let k = upto - 1;
        let y = relaxed(n, x, x0, a, c, k);
        lemma_relaxed_in_turn(r, n, x, x0, a, c, k);
        if interior(k, n) {
            let w = n + 2;
            lemma_neighbours(k, n);
            let z = relaxed(n, x, x0, a, c, upto);
            let s = sum(sum(sum(y[k - 1], y[k + 1]), y[k - w]), y[k + w]);
            assert(r.is(y[k - 1]) && r.is(y[k + 1]) && r.is(y[k - w]) && r.is(y[k + w]));
            assert(r.is(sum(y[k - 1], y[k + 1])));
            assert(r.is(sum(sum(y[k - 1], y[k + 1]), y[k - w])));
            assert(r.is(s));
            assert(y[k + 1] == x[k + 1] && y[k + w] == x[k + w]);
            assert(r.means(s, around(r, n, y, x, k)));
            assert(r.is(x0[k]));
            assert(r.is(prod(a, s)));
            let t = sum(x0[k], prod(a, s));
            assert(r.is(t));
            let (tv, cv) = (r.at(t), r.at(c));
            assert(tv / cv * cv == tv) by (nonlinear_arith)
                requires
                    cv != 0real,
            ;
            assert(r.means(z[k], tv / cv));
            assert forall|m: int| 0 <= m < upto && interior(m, n) implies r.at(#[trigger] z[m])
                * r.at(c) == r.at(x0[m]) + r.at(a) * around(r, n, z, x, m) by {
                lemma_neighbours(m, n);
                if m < k {
                    assert(z[m] == y[m]);
                    assert(z[m - 1] == y[m - 1] && z[m - w] == y[m - w]);
                }
            }
        }
    }
}

/// The edge or corner that a border takes its value from.
proof fn lemma_bounded_inside<T: Scalar>(n: int, b: u32, x: Seq<T>)
    requires
        1 <= n,
        x.len() == cells(n),
    ensures
        bounded(n, b, x).len() == x.len(),
        forall|k: int| 0 <= k < x.len() && interior(k, n) ==> #[trigger] bounded(n, b, x)[k] == x[k],
{
    law_border_mirrors_the_inside(n, b, x, 1);
}

/// A field of numbers with its border set is one of numbers, and goes by the numbers
/// alone.
pub(crate) proof fn lemma_bounded_numbers<T: Scalar>(r: Reading<T>, n: int, b: u32, x: Seq<T>, y: Seq<T>)
    requires
        r.sound(),
        r.never_rounds(),
        1 <= n,
        field_of_numbers(r, n, x),
        field_of_numbers(r, n, y),
        same_field(r, x, y),
    ensures
        field_of_numbers(r, n, bounded(n, b, x)),
        same_field(r, bounded(n, b, x), bounded(n, b, y)),
{
    let w = n + 2;
    lemma_bounded_len(n, b, x);
    lemma_bounded_len(n, b, y);
    assert(r.fits(1i32 as real / 2i32 as real));
    lemma_literal(r, 1, 2);
    let (e, f) = (edged(n, b, x), edged(n, b, y));
    assert forall|k: int| 0 <= k < x.len() implies r.is(#[trigger] e[k]) && r.is(f[k]) && r.at(e[k])
        == r.at(f[k]) by {
        lemma_place_of_col_row(k, w);
        lemma_row_in_grid(k, w, w);
        let (i, j) = (col(k, w), row(k, w));
        assert(w * (j + 1) == w * j + w && w * (j - 1) == w * j - w) by (nonlinear_arith);
        if 1 <= j <= n && i == 0 {
            lemma_place_in_grid(i + 1, j, w, w);
            assert(r.is(x[k + 1]) && r.is(y[k + 1]) && r.at(x[k + 1]) == r.at(y[k + 1]));
        } else if 1 <= j <= n && i == n + 1 {
            lemma_place_in_grid(i - 1, j, w, w);
            assert(r.is(x[k - 1]) && r.is(y[k - 1]) && r.at(x[k - 1]) == r.at(y[k - 1]));
        } else if 1 <= i <= n && j == 0 {
            lemma_place_in_grid(i, j + 1, w, w);
            assert(r.is(x[k + w]) && r.is(y[k + w]) && r.at(x[k + w]) == r.at(y[k + w]));
        } else if 1 <= i <= n && j == n + 1 {
            lemma_place_in_grid(i, j - 1, w, w);
            assert(r.is(x[k - w]) && r.is(y[k - w]) && r.at(x[k - w]) == r.at(y[k - w]));
        } else {
            assert(r.is(x[k]) && r.is(y[k]));
        }
    }
    assert(field_of_numbers(r, n, e) && field_of_numbers(r, n, f) && same_field(r, e, f)) by {
        assert forall|k: int| 0 <= k < f.len() implies r.is(#[trigger] f[k]) by {
            assert(r.is(e[k]));
        }
    }
    lemma_corner_places(n);
    lemma_place_in_grid(1, 0, w, w);
    lemma_place_in_grid(0, 1, w, w);
    lemma_place_in_grid(1, n + 1, w, w);
    lemma_place_in_grid(0, n, w, w);
    lemma_place_in_grid(n, 0, w, w);
    lemma_place_in_grid(n + 1, 1, w, w);
    lemma_place_in_grid(n, n + 1, w, w);
    lemma_place_in_grid(n + 1, n, w, w);
    let (e1, f1) = (
        cornered(e, place(0, 0, w), place(1, 0, w), place(0, 1, w)),
        cornered(f, place(0, 0, w), place(1, 0, w), place(0, 1, w)),
    );
    lemma_cornered_numbers(r, n, e, f, place(0, 0, w), place(1, 0, w), place(0, 1, w));
    let (e2, f2) = (
        cornered(e1, place(0, n + 1, w), place(1, n + 1, w), place(0, n, w)),
        cornered(f1, place(0, n + 1, w), place(1, n + 1, w), place(0, n, w)),
    );
    lemma_cornered_numbers(r, n, e1, f1, place(0, n + 1, w), place(1, n + 1, w), place(0, n, w));
    let (e3, f3) = (
        cornered(e2, place(n + 1, 0, w), place(n, 0, w), place(n + 1, 1, w)),
        cornered(f2, place(n + 1, 0, w), place(n, 0, w), place(n + 1, 1, w)),
    );
    lemma_cornered_numbers(r, n, e2, f2, place(n + 1, 0, w), place(n, 0, w), place(n + 1, 1, w));
    lemma_cornered_numbers(
        r,
        n,
        e3,
        f3,
        place(n + 1, n + 1, w),
        place(n, n + 1, w),
        place(n + 1, n, w),
    );
}

/// Setting a corner goes by the numbers.
proof fn lemma_cornered_numbers<T: Scalar>(
    r: Reading<T>,
    n: int,
    e: Seq<T>,
    f: Seq<T>,
    k: int,
    p: int,
    q: int,
)
    requires
        r.sound(),
        r.never_rounds(),
        field_of_numbers(r, n, e),
        field_of_numbers(r, n, f),
        same_field(r, e, f),
        r.means(lit::<T>(1, 2), 1real / 2real),
        0 <= k < e.len(),
        0 <= p < e.len(),
        0 <= q < e.len(),
    ensures
        field_of_numbers(r, n, cornered(e, k, p, q)),
        field_of_numbers(r, n, cornered(f, k, p, q)),
        same_field(r, cornered(e, k, p, q), cornered(f, k, p, q)),
{
    assert(r.is(e[p]) && r.is(e[q]) && r.is(f[p]) && r.is(f[q]));
    assert(r.at(e[p]) == r.at(f[p]) && r.at(e[q]) == r.at(f[q]));
    assert(r.is(sum(e[p], e[q])) && r.is(sum(f[p], f[q])));
    assert(r.is(mean(e[p], e[q])) && r.is(mean(f[p], f[q])));
    assert(r.at(mean(e[p], e[q])) == r.at(mean(f[p], f[q])));
}

/// A field obeys the heat equation with respect to what it was: over `dt` seconds every
/// interior cell has changed by `rate` times its curvature, the side of the whole grid
/// being the unit of length.
pub open spec fn obeys_the_heat_equation<T: Scalar>(
    r: Reading<T>,
    n: int,
    was: Seq<T>,
    now: Seq<T>,
    rate: T,
    dt: T,
) -> bool {
    forall|k: int|
        0 <= k < cells(n) && interior(k, n) ==> r.at(#[trigger] now[k]) - r.at(was[k]) == r.at(dt)
            * r.at(rate) * (n as real * n as real) * (around(r, n, now, now, k) - 4real * r.at(
            now[k],
        ))
}

/// Weights of a diffusion in numbers.
pub(crate) proof fn lemma_spread_weight<T: Scalar>(r: Reading<T>, n: int, rate: T, dt: T)
    requires
        r.sound(),
        r.never_rounds(),
        1 <= n,
        n < usize::MAX,
        r.is(rate),
        r.is(dt),
    ensures
        r.means(spread(n, rate, dt), r.at(dt) * r.at(rate) * (n as real * n as real)),
        r.means(
            sum(lit(1, 1), prod(lit(4, 1), spread(n, rate, dt))),
            1real + 4real * (r.at(dt) * r.at(rate) * (n as real * n as real)),
        ),
{
    assert(r.fits((n as usize) as real));
    let c = count::<T>(n as usize);
    assert(r.means(c, n as real));
    let p = prod(dt, rate);
    assert(r.is(p));
    assert(r.is(prod(p, c)));
    let (x, m) = (r.at(p), n as real);
    assert(x * m * m == x * (m * m)) by (nonlinear_arith);
    assert(r.fits(1i32 as real / 1i32 as real));
    assert(r.fits(4i32 as real / 1i32 as real));
    lemma_literal(r, 1, 1);
    lemma_literal(r, 4, 1);
    assert(r.is(spread(n, rate, dt)));
    assert(r.is(prod(lit(4, 1), spread(n, rate, dt))));
}

/// A relaxation keeps a field that satisfies its equations already.
proof fn lemma_relaxed_keeps_a_solution<T: Scalar>(
    r: Reading<T>,
    n: int,
    x: Seq<T>,
    x0: Seq<T>,
    a: T,
    c: T,
    upto: int,
)
    requires
        r.sound(),
        r.never_rounds(),
        1 <= n,
        field_of_numbers(r, n, x),
        field_of_numbers(r, n, x0),
        r.is(a),
        r.is(c),
        r.at(c) != 0real,
        upto <= cells(n),
        forall|k: int|
            0 <= k < cells(n) && interior(k, n) ==> r.at(#[trigger] x[k]) * r.at(c) == r.at(x0[k])
                + r.at(a) * around(r, n, x, x, k),
    ensures
        same_field(r, relaxed(n, x, x0, a, c, upto), x),
    decreases upto,
{
    lemma_relaxed_in_turn(r, n, x, x0, a, c, upto);
    if upto > 0 {
        let k = upto - 1;
        let y = relaxed(n, x, x0, a, c, k);
        let z = relaxed(n, x, x0, a, c, upto);
        lemma_relaxed_keeps_a_solution(r, n, x, x0, a, c, k);
        lemma_relaxed_in_turn(r, n, x, x0, a, c, k);
        if interior(k, n) {
            lemma_neighbours(k, n);
            let w = n + 2;
            assert(z[k - 1] == y[k - 1] && z[k - w] == y[k - w]);
            assert(r.at(y[k - 1]) == r.at(x[k - 1]) && r.at(y[k - w]) == r.at(x[k - w]));
            assert(around(r, n, z, x, k) == around(r, n, x, x, k));
            let (p, q, cv) = (r.at(z[k]), r.at(x[k]), r.at(c));
            assert(p * cv == q * cv);
            assert(p == q) by (nonlinear_arith)
                requires
                    p * cv == q * cv,
                    cv != 0real,
            ;
            assert forall|m: int| 0 <= m < z.len() implies r.at(#[trigger] z[m]) == r.at(x[m]) by {
                if m != k {
                    assert(z[m] == y[m]);
                }
            }
        }
    }
}

/// Fields that hold the same numbers have the same values around a cell.
proof fn lemma_same_around<T: Scalar>(r: Reading<T>, n: int, x: Seq<T>, y: Seq<T>, k: int)
    requires
        1 <= n,
        x.len() == cells(n),
        same_field(r, x, y),
        0 <= k < cells(n),
        interior(k, n),
    ensures
        around(r, n, x, x, k) == around(r, n, y, y, k),
{
    lemma_neighbours(k, n);
    let w = n + 2;
    assert(r.at(x[k - 1]) == r.at(y[k - 1]) && r.at(x[k + 1]) == r.at(y[k + 1]));
    assert(r.at(x[k - w]) == r.at(y[k - w]) && r.at(x[k + w]) == r.at(y[k + w]));
}

/// Rounds of a solve keep a field that satisfies its equations already and has its
/// border set.
proof fn lemma_solved_keeps_a_solution<T: Scalar>(
    r: Reading<T>,
    n: int,
    b: u32,
    x: Seq<T>,
    x0: Seq<T>,
    a: T,
    c: T,
    rounds: nat,
)
    requires
        r.sound(),
        r.never_rounds(),
        1 <= n,
        field_of_numbers(r, n, x),
        field_of_numbers(r, n, x0),
        r.is(a),
        r.is(c),
        r.at(c) != 0real,
        same_field(r, bounded(n, b, x), x),
        forall|k: int|
            0 <= k < cells(n) && interior(k, n) ==> r.at(#[trigger] x[k]) * r.at(c) == r.at(x0[k])
                + r.at(a) * around(r, n, x, x, k),
    ensures
        field_of_numbers(r, n, solved(n, b, x, x0, a, c, rounds)),
        same_field(r, solved(n, b, x, x0, a, c, rounds), x),
    decreases rounds,
{
    if rounds > 0 {
        let before = (rounds - 1) as nat;
        let y = solved(n, b, x, x0, a, c, before);
        lemma_solved_keeps_a_solution(r, n, b, x, x0, a, c, before);
        assert forall|k: int| 0 <= k < cells(n) && interior(k, n) implies r.at(#[trigger] y[k])
            * r.at(c) == r.at(x0[k]) + r.at(a) * around(r, n, y, y, k) by {
            lemma_same_around(r, n, y, x, k);
            assert(r.at(y[k]) == r.at(x[k]));
        }
        lemma_relaxed_in_turn(r, n, y, x0, a, c, cells(n));
        lemma_relaxed_keeps_a_solution(r, n, y, x0, a, c, cells(n));
        let z = relaxed(n, y, x0, a, c, cells(n));
        assert(same_field(r, z, x)) by {
            assert forall|k: int| 0 <= k < z.len() implies r.at(#[trigger] z[k]) == r.at(x[k]) by {
                assert(r.at(y[k]) == r.at(x[k]));
            }
        }
        lemma_bounded_numbers(r, n, b, z, x);
        let e = bounded(n, b, z);
        assert forall|k: int| 0 <= k < e.len() implies r.at(#[trigger] e[k]) == r.at(x[k]) by {
            assert(r.at(bounded(n, b, x)[k]) == r.at(x[k]));
        }
    }
}

/// Diffusion follows the heat equation: a field that obeys it with respect to what was,
/// with its border set, is what diffusing comes to; started there the solver stays
/// there.
pub proof fn law_diffusion_follows_the_heat_equation<T: Scalar>(
    r: Reading<T>,
    n: int,
    b: u32,
    now: Seq<T>,
    was: Seq<T>,
    rate: T,
    dt: T,
)
    requires
        r.sound(),
        r.never_rounds(),
        1 <= n < usize::MAX,
        field_of_numbers(r, n, now),
        field_of_numbers(r, n, was),
        r.is(rate),
        r.is(dt),
        r.at(rate) >= 0real,
        r.at(dt) >= 0real,
        same_field(r, bounded(n, b, now), now),
        obeys_the_heat_equation(r, n, was, now, rate, dt),
    ensures
        same_field(r, diffused(n, b, now, was, rate, dt), now),
{
    lemma_spread_weight(r, n, rate, dt);
    let a = spread(n, rate, dt);
    let c = sum(lit(1, 1), prod(lit(4, 1), a));
    let (av, m) = (r.at(a), n as real);
    let (t, q) = (r.at(dt), r.at(rate));
    assert(t * q >= 0real) by (nonlinear_arith)
        requires
            t >= 0real,
            q >= 0real,
    ;
    assert(m * m >= 0real) by (nonlinear_arith);
    let (tq, mm) = (t * q, m * m);
    assert(tq * mm >= 0real) by (nonlinear_arith)
        requires
            tq >= 0real,
            mm >= 0real,
    ;
    assert forall|k: int| 0 <= k < cells(n) && interior(k, n) implies r.at(#[trigger] now[k])
        * r.at(c) == r.at(was[k]) + av * around(r, n, now, now, k) by {
        let (x, s) = (r.at(now[k]), around(r, n, now, now, k));
        assert(x - r.at(was[k]) == av * (s - 4real * x));
        lemma_spread(av, s, 4real * x);
        lemma_spread(x, 1real, 4real * av);
        lemma_units(x);
        assert(av * (4real * x) == x * (4real * av)) by (nonlinear_arith);
    }
    lemma_solved_keeps_a_solution(r, n, b, now, was, a, c, SWEEPS as nat);
}

/// The field `after` comes of `before` by a round of relaxation: every interior cell in
/// turn, row by row, takes the value at which `total` times itself is what `x0` has there
/// plus `weight` times the four values around it, those to its left and below it being
/// new already; then the edges take the values of the cells beside them, with the sign
/// turned where the wall reflects.
pub open spec fn comes_of_a_round<T: Scalar>(
    r: Reading<T>,
    n: int,
    b: u32,
    x0: Seq<T>,
    before: Seq<T>,
    after: Seq<T>,
    weight: real,
    total: real,
) -> bool {
    let w = n + 2;
    &&& after.len() == before.len()
    &&& forall|k: int|
        0 <= k < cells(n) && interior(k, n) ==> r.at(#[trigger] after[k]) * total == r.at(x0[k])
            + weight * (r.at(
            if interior(k - 1, n) {
                after[k - 1]
            } else {
                before[k - 1]
            },
        ) + r.at(before[k + 1]) + r.at(
            if interior(k - w, n) {
                after[k - w]
            } else {
                before[k - w]
            },
        ) + r.at(before[k + w]))
    &&& forall|m: int|
        #![trigger place(0, m, w)]
        1 <= m <= n ==> {
            &&& after[place(0, m, w)] == mirrored(after[place(1, m, w)], b == 1)
            &&& after[place(n + 1, m, w)] == mirrored(after[place(n, m, w)], b == 1)
            &&& after[place(m, 0, w)] == mirrored(after[place(m, 1, w)], b == 2)
            &&& after[place(m, n + 1, w)] == mirrored(after[place(m, n, w)], b == 2)
        }
}

/// The field `last` comes of `first` by twenty rounds of relaxation.
pub open spec fn comes_of_twenty_rounds<T: Scalar>(
    r: Reading<T>,
    n: int,
    b: u32,
    x0: Seq<T>,
    first: Seq<T>,
    last: Seq<T>,
    weight: real,
    total: real,
) -> bool {
    exists|h: Seq<Seq<T>>|
        h.len() == 21 && #[trigger] h[0] == first && h[20] == last && forall|t: int|
            0 <= t < 20 ==> comes_of_a_round(
                r,
                n,
                b,
                x0,
                #[trigger] h[t],
                h[t + 1],
                weight,
                total,
            )
}

/// A round of the solver, in numbers.
proof fn lemma_round<T: Scalar>(
    r: Reading<T>,
    n: int,
    b: u32,
    x: Seq<T>,
    x0: Seq<T>,
    a: T,
    c: T,
)
    requires
        r.sound(),
        r.never_rounds(),
        1 <= n,
        field_of_numbers(r, n, x),
        field_of_numbers(r, n, x0),
        r.is(a),
        r.is(c),
        r.at(c) != 0real,
    ensures
        field_of_numbers(r, n, bounded(n, b, relaxed(n, x, x0, a, c, cells(n)))),
        comes_of_a_round(
            r,
            n,
            b,
            x0,
            x,
            bounded(n, b, relaxed(n, x, x0, a, c, cells(n))),
            r.at(a),
            r.at(c),
        ),
{
    let w = n + 2;
    let y = relaxed(n, x, x0, a, c, cells(n));
    let z = bounded(n, b, y);
    lemma_relaxed_in_turn(r, n, x, x0, a, c, cells(n));
    lemma_bounded_numbers(r, n, b, y, y);
    lemma_bounded_inside(n, b, y);
    assert forall|k: int| 0 <= k < cells(n) && interior(k, n) implies r.at(#[trigger] z[k]) * r.at(c)
        == r.at(x0[k]) + r.at(a) * (r.at(
        if interior(k - 1, n) {
            z[k - 1]
        } else {
            x[k - 1]
        },
    ) + r.at(x[k + 1]) + r.at(
        if interior(k - w, n) {
            z[k - w]
        } else {
            x[k - w]
        },
    ) + r.at(x[k + w])) by {
        lemma_neighbours(k, n);
        assert(z[k] == y[k]);
        assert(interior(k - 1, n) ==> z[k - 1] == y[k - 1]);
        assert(!interior(k - 1, n) ==> y[k - 1] == x[k - 1]);
        assert(interior(k - w, n) ==> z[k - w] == y[k - w]);
        assert(!interior(k - w, n) ==> y[k - w] == x[k - w]);
    }
    assert forall|m: int|
        #![trigger place(0, m, w)]
        1 <= m <= n implies z[place(0, m, w)] == mirrored(z[place(1, m, w)], b == 1) && z[place(
        n + 1,
        m,
        w,
    )] == mirrored(z[place(n, m, w)], b == 1) && z[place(m, 0, w)] == mirrored(
        z[place(m, 1, w)],
        b == 2,
    ) && z[place(m, n + 1, w)] == mirrored(z[place(m, n, w)], b == 2) by {
        law_border_mirrors_the_inside(n, b, y, m);
    }
}

/// The rounds of the solver keep fields of numbers.
proof fn lemma_rounds_keep_numbers<T: Scalar>(
    r: Reading<T>,
    n: int,
    b: u32,
    x: Seq<T>,
    x0: Seq<T>,
    a: T,
    c: T,
    rounds: nat,
)
    requires
        r.sound(),
        r.never_rounds(),
        1 <= n,
        field_of_numbers(r, n, x),
        field_of_numbers(r, n, x0),
        r.is(a),
        r.is(c),
        r.at(c) != 0real,
    ensures
        field_of_numbers(r, n, solved(n, b, x, x0, a, c, rounds)),
    decreases rounds,
{
    if rounds > 0 {
        let before = (rounds - 1) as nat;
        lemma_rounds_keep_numbers(r, n, b, x, x0, a, c, before);
        lemma_round(r, n, b, solved(n, b, x, x0, a, c, before), x0, a, c);
    }
}

/// The solver makes twenty rounds of relaxation.
pub proof fn law_solver_relaxes_in_rounds<T: Scalar>(
    r: Reading<T>,
    n: int,
    b: u32,
    x: Seq<T>,
    x0: Seq<T>,
    a: T,
    c: T,
)
    requires
        r.sound(),
        r.never_rounds(),
        1 <= n,
        field_of_numbers(r, n, x),
        field_of_numbers(r, n, x0),
        r.is(a),
        r.is(c),
        r.at(c) != 0real,
    ensures
        field_of_numbers(r, n, solved(n, b, x, x0, a, c, SWEEPS as nat)),
        comes_of_twenty_rounds(
            r,
            n,
            b,
            x0,
            x,
            solved(n, b, x, x0, a, c, SWEEPS as nat),
            r.at(a),
            r.at(c),
        ),
{
    let h = Seq::new(21, |t: int| solved(n, b, x, x0, a, c, t as nat));
    assert forall|t: int| 0 <= t < 20 implies comes_of_a_round(
        r,
        n,
        b,
        x0,
        #[trigger] h[t],
        h[t + 1],
        r.at(a),
        r.at(c),
    ) by {
        lemma_rounds_keep_numbers(r, n, b, x, x0, a, c, t as nat);
        lemma_round(r, n, b, h[t], x0, a, c);
        assert((t + 1) as nat - 1 == t);
    }
    lemma_rounds_keep_numbers(r, n, b, x, x0, a, c, 20);
    assert(h[0] == x && h[20] == solved(n, b, x, x0, a, c, SWEEPS as nat));
}

/// Diffusion solves the heat equation in rounds: in each, every interior cell in turn
/// takes the value that satisfies it over `dt` seconds at the given rate, with the side
/// of the whole grid as the unit of length.
pub proof fn law_diffusion_solves_the_heat_equation<T: Scalar>(
    r: Reading<T>,
    n: int,
    b: u32,
    first: Seq<T>,
    was: Seq<T>,
    rate: T,
    dt: T,
)
    requires
        r.sound(),
        r.never_rounds(),
        1 <= n < usize::MAX,
        field_of_numbers(r, n, first),
        field_of_numbers(r, n, was),
        r.is(rate),
        r.is(dt),
        r.at(rate) >= 0real,
        r.at(dt) >= 0real,
    ensures
        ({
            let a = r.at(dt) * r.at(rate) * (n as real * n as real);
            comes_of_twenty_rounds(
                r,
                n,
                b,
                was,
                first,
                diffused(n, b, first, was, rate, dt),
                a,
                1real + 4real * a,
            )
        }),
{
    lemma_spread_weight(r, n, rate, dt);
    let (t, q, m) = (r.at(dt), r.at(rate), n as real);
    assert(t * q >= 0real) by (nonlinear_arith)
        requires
            t >= 0real,
            q >= 0real,
    ;
    assert(m * m >= 0real) by (nonlinear_arith);
    let (tq, mm) = (t * q, m * m);
    assert(tq * mm >= 0real) by (nonlinear_arith)
        requires
            tq >= 0real,
            mm >= 0real,
    ;
    let a = spread(n, rate, dt);
    law_solver_relaxes_in_rounds(r, n, b, first, was, a, sum(lit(1, 1), prod(lit(4, 1), a)));
}

/// How much more flows out of cell `k` than in, as the velocities of the cells around it
/// have it.
pub open spec fn outflow<T: Scalar>(r: Reading<T>, n: int, u: Seq<T>, v: Seq<T>, k: int) -> real {
    r.at(u[k + 1]) - r.at(u[k - 1]) + r.at(v[k + (n + 2)]) - r.at(v[k - (n + 2)])
}

/// Side of a cell, in numbers.
proof fn lemma_spacing<T: Scalar>(r: Reading<T>, n: int)
    requires
        r.sound(),
        r.never_rounds(),
        1 <= n < usize::MAX,
    ensures
        r.means(spacing(n), 1real / n as real),
        1real / n as real > 0real,
{
    assert(r.fits(1i32 as real / 1i32 as real));
    lemma_literal(r, 1, 1);
    assert(r.fits((n as usize) as real));
    assert(r.means(count::<T>(n as usize), n as real));
    let m = n as real;
    let q = 1real / m;
    assert(q * m == 1real) by (nonlinear_arith)
        requires
            m >= 1real,
            q == 1real / m,
    ;
    assert(q > 0real) by (nonlinear_arith)
        requires
            m >= 1real,
            q * m == 1real,
    ;
}

/// The right-hand side of the pressure equation, in numbers.
pub(crate) proof fn lemma_divergence<T: Scalar>(r: Reading<T>, n: int, u: Seq<T>, v: Seq<T>, k: int)
    requires
        r.sound(),
        r.never_rounds(),
        1 <= n < usize::MAX,
        field_of_numbers(r, n, u),
        field_of_numbers(r, n, v),
        0 <= k < cells(n),
        interior(k, n),
    ensures
        r.is(divergence(n, u, v, k)),
        r.at(divergence(n, u, v, k)) * (2real * n as real) == 0real - outflow(r, n, u, v, k),
{
    let w = n + 2;
    lemma_neighbours(k, n);
    lemma_spacing(r, n);
    assert(r.fits(1i32 as real / 2i32 as real));
    lemma_literal(r, 1, 2);
    assert(r.is(u[k + 1]) && r.is(u[k - 1]) && r.is(v[k + w]) && r.is(v[k - w]));
    assert(r.is(diff(u[k + 1], u[k - 1])));
    assert(r.is(sum(diff(u[k + 1], u[k - 1]), v[k + w])));
    let d = diff(sum(diff(u[k + 1], u[k - 1]), v[k + w]), v[k - w]);
    let o = outflow(r, n, u, v, k);
    assert(r.means(d, o));
    let half = neg(lit::<T>(1, 2));
    assert(r.means(half, 0real - 1real / 2real));
    let c = prod(half, spacing(n));
    assert(r.is(c));
    let (m, q) = (n as real, 1real / n as real);
    assert(q * m == 1real) by (nonlinear_arith)
        requires
            m >= 1real,
            q == 1real / m,
    ;
    let e = (0real - 1real / 2real) * q;
    assert(r.means(c, e));
    assert(e * (2real * m) == 0real - 1real) by (nonlinear_arith)
        requires
            e == (0real - 1real / 2real) * q,
            q * m == 1real,
    ;
    assert(e * o * (2real * m) == (e * (2real * m)) * o) by (nonlinear_arith);
    assert((0real - 1real) * o == 0real - o) by (nonlinear_arith);
}

/// The projection takes off the slope of a pressure that the surplus of the flow asks
/// for. The pressure starts from nothing and comes of twenty rounds, in each of which
/// every interior cell in turn takes a quarter of the four pressures around it and of
/// its right-hand side: minus half of what flows out of the cell more than in, times the
/// side of a cell. Every interior velocity then loses the slope of the pressure across
/// its cell, the side of the whole grid being the unit of length.
pub proof fn law_projection_takes_off_the_pressure<T: Scalar>(
    r: Reading<T>,
    given: Projection<T>,
    n: int,
)
    requires
        r.sound(),
        r.never_rounds(),
        1 <= n < usize::MAX,
        field_of_numbers(r, n, given.u),
        field_of_numbers(r, n, given.v),
        field_of_numbers(r, n, given.p),
        field_of_numbers(r, n, given.div),
    ensures
        ({
            let done = given.solved(n);
            let w = n + 2;
            &&& forall|k: int|
                0 <= k < cells(n) && interior(k, n) ==> r.at(#[trigger] done.div[k]) * (2real
                    * n as real) == 0real - outflow(r, n, given.u, given.v, k)
            &&& exists|flat: Seq<T>|
                #![trigger comes_of_twenty_rounds(r, n, 0, done.div, flat, done.p, 1real, 4real)]
                flat.len() == cells(n) && (forall|k: int|
                    0 <= k < cells(n) && interior(k, n) ==> r.at(#[trigger] flat[k]) == 0real)
                    && comes_of_twenty_rounds(r, n, 0, done.div, flat, done.p, 1real, 4real)
            &&& forall|k: int|
                0 <= k < cells(n) && interior(k, n) ==> r.at(#[trigger] done.u[k]) == r.at(
                    given.u[k],
                ) - (r.at(done.p[k + 1]) - r.at(done.p[k - 1])) / 2real * n as real
            &&& forall|k: int|
                0 <= k < cells(n) && interior(k, n) ==> r.at(#[trigger] done.v[k]) == r.at(
                    given.v[k],
                ) - (r.at(done.p[k + w]) - r.at(done.p[k - w])) / 2real * n as real
        }),
{
    let done = given.solved(n);
    let w = n + 2;
    assert(r.fits(0i32 as real / 1i32 as real));
    assert(r.fits(1i32 as real / 1i32 as real));
    assert(r.fits(4i32 as real / 1i32 as real));
    assert(r.fits(1i32 as real / 2i32 as real));
    lemma_literal(r, 0, 1);
    lemma_literal(r, 1, 1);
    lemma_literal(r, 4, 1);
    lemma_literal(r, 1, 2);
    lemma_spacing(r, n);
    let div = each_cell(given.div, n, |k: int, x: T| divergence(n, given.u, given.v, k));
    assert forall|k: int| 0 <= k < div.len() implies r.is(#[trigger] div[k]) by {
        if interior(k, n) {
            lemma_divergence(r, n, given.u, given.v, k);
        } else {
            assert(r.is(given.div[k]));
        }
    }
    lemma_bounded_numbers(r, n, 0, div, div);
    lemma_bounded_inside(n, 0, div);
    let zero = each_cell(given.p, n, |k: int, x: T| lit::<T>(0, 1));
    assert forall|k: int| 0 <= k < zero.len() implies r.is(#[trigger] zero[k]) by {
        assert(r.is(given.p[k]));
    }
    lemma_bounded_numbers(r, n, 0, zero, zero);
    lemma_bounded_inside(n, 0, zero);
    let flat = bounded(n, 0, zero);
    assert forall|k: int| 0 <= k < cells(n) && interior(k, n) implies r.at(#[trigger] flat[k])
        == 0real by {
        assert(flat[k] == zero[k]);
    }
    law_solver_relaxes_in_rounds(r, n, 0, flat, bounded(n, 0, div), lit(1, 1), lit(4, 1));
    assert(comes_of_twenty_rounds(r, n, 0, done.div, flat, done.p, 1real, 4real));
    assert forall|k: int| 0 <= k < cells(n) && interior(k, n) implies r.at(#[trigger] done.div[k])
        * (2real * n as real) == 0real - outflow(r, n, given.u, given.v, k) by {
        lemma_divergence(r, n, given.u, given.v, k);
        assert(done.div[k] == div[k]);
    }
    let p = done.p;
    let u = each_cell(given.u, n, |k: int, x: T| diff(x, gradient(n, p, k + 1, k - 1)));
    let v = each_cell(given.v, n, |k: int, x: T| diff(x, gradient(n, p, k + w, k - w)));
    lemma_bounded_inside(n, 1, u);
    lemma_bounded_inside(n, 2, v);
    assert forall|k: int| 0 <= k < cells(n) && interior(k, n) implies r.at(#[trigger] done.u[k])
        == r.at(given.u[k]) - (r.at(p[k + 1]) - r.at(p[k - 1])) / 2real * n as real by {
        lemma_neighbours(k, n);
        assert(done.u[k] == u[k]);
        lemma_slope(r, n, p, k + 1, k - 1);
        assert(r.is(given.u[k]));
    }
    assert forall|k: int| 0 <= k < cells(n) && interior(k, n) implies r.at(#[trigger] done.v[k])
        == r.at(given.v[k]) - (r.at(p[k + w]) - r.at(p[k - w])) / 2real * n as real by {
        lemma_neighbours(k, n);
        assert(done.v[k] == v[k]);
        lemma_slope(r, n, p, k + w, k - w);
        assert(r.is(given.v[k]));
    }
}

/// The slope of a pressure, in numbers.
pub(crate) proof fn lemma_slope<T: Scalar>(r: Reading<T>, n: int, p: Seq<T>, hi: int, lo: int)
    requires
        r.sound(),
        r.never_rounds(),
        1 <= n < usize::MAX,
        r.means(lit::<T>(1, 2), 1real / 2real),
        r.is(p[hi]),
        r.is(p[lo]),
    ensures
        r.means(gradient(n, p, hi, lo), (r.at(p[hi]) - r.at(p[lo])) / 2real * n as real),
{
    lemma_spacing(r, n);
    let d = r.at(p[hi]) - r.at(p[lo]);
    assert(r.means(diff(p[hi], p[lo]), d));
    let e = prod(lit::<T>(1, 2), diff(p[hi], p[lo]));
    assert((1real / 2real) * d == d / 2real);
    assert(r.means(e, d / 2real));
    let (m, q, x) = (n as real, 1real / n as real, d / 2real);
    assert(q * m == 1real) by (nonlinear_arith)
        requires
            m >= 1real,
            q == 1real / m,
    ;
    let z = x / q;
    assert(z * q == x) by (nonlinear_arith)
        requires
            q > 0real,
            z == x / q,
    ;
    assert(z == x * m) by (nonlinear_arith)
        requires
            z * q == x,
            q * m == 1real,
    ;
}

} // verus!
