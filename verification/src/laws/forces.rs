//! What acts on the smoke: lift, swirls, sources, and fading.

use crate::scalar::Scalar;
#[allow(unused_imports)]
use crate::laws::air::{field_of_numbers, outflow};
#[allow(unused_imports)]
use crate::laws::gas::grows;
#[allow(unused_imports)]
use crate::layout::{col, lemma_place_of_col_row, lemma_row_in_grid, place, row};
#[allow(unused_imports)]
use crate::reals::{larger, lemma_literal, lemma_spread, lemma_units, Reading};
#[allow(unused_imports)]
use crate::scalar::{diff, lit, magnitude, neg, prod, quot, root, sum};
#[allow(unused_imports)]
use crate::smoke::{
    cells, curl_at, interior, lemma_neighbours, slope, sourced, steepness, swirl_x, swirl_y,
    SmokeModel,
};
use vstd::prelude::*;

verus! {

/// The fields and the settings of the smoke are numbers.
pub open spec fn air_of_numbers<T: Scalar>(r: Reading<T>, air: SmokeModel<T>) -> bool {
    &&& air.valid() && 1 <= air.n
    &&& field_of_numbers(r, air.n, air.u) && field_of_numbers(r, air.n, air.v)
    &&& field_of_numbers(r, air.n, air.u0) && field_of_numbers(r, air.n, air.v0)
    &&& field_of_numbers(r, air.n, air.dens) && field_of_numbers(r, air.n, air.dens0)
    &&& field_of_numbers(r, air.n, air.curl)
    &&& r.is(air.buoyancy) && r.is(air.vorticity) && r.is(air.dissipation)
}

/// How fast the air turns in cell `k`, counted against the clock.
pub open spec fn spin<T: Scalar>(r: Reading<T>, n: int, u: Seq<T>, v: Seq<T>, k: int) -> real {
    (r.at(v[k + 1]) - r.at(v[k - 1]) - (r.at(u[k + (n + 2)]) - r.at(u[k - (n + 2)]))) / 2real
}

/// The curl is how fast the air turns.
proof fn lemma_curl<T: Scalar>(r: Reading<T>, n: int, u: Seq<T>, v: Seq<T>, k: int)
    requires
        r.sound(),
        r.never_rounds(),
        1 <= n,
        field_of_numbers(r, n, u),
        field_of_numbers(r, n, v),
        0 <= k < cells(n),
        interior(k, n),
    ensures
        r.means(curl_at(n, u, v, k), spin(r, n, u, v, k)),
{
    let w = n + 2;
    lemma_neighbours(k, n);
    assert(r.fits(1i32 as real / 2i32 as real));
    lemma_literal(r, 1, 2);
    assert(r.is(v[k + 1]) && r.is(v[k - 1]) && r.is(u[k + w]) && r.is(u[k - w]));
    assert(r.is(diff(v[k + 1], v[k - 1])) && r.is(diff(u[k + w], u[k - w])));
    let d = diff(diff(v[k + 1], v[k - 1]), diff(u[k + w], u[k - w]));
    assert(r.is(d));
    assert((1real / 2real) * r.at(d) == r.at(d) / 2real);
}

/// Air that streams and turns evenly, its horizontal velocity growing by `b` from column
/// to column and by `c` from row to row, and its vertical one by `e` and `f`, turns by
/// `e - c` everywhere and gains `2 * (b + f)` everywhere.
pub proof fn law_even_flow_turns_and_spreads_evenly<T: Scalar>(
    r: Reading<T>,
    n: int,
    u: Seq<T>,
    v: Seq<T>,
    k: int,
    a: real,
    b: real,
    c: real,
    d: real,
    e: real,
    f: real,
)
    requires
        r.sound(),
        r.never_rounds(),
        1 <= n,
        u.len() == cells(n),
        v.len() == cells(n),
        grows(r, n, u, a, b, c),
        grows(r, n, v, d, e, f),
        0 <= k < cells(n),
        interior(k, n),
    ensures
        r.means(curl_at(n, u, v, k), e - c),
        outflow(r, n, u, v, k) == 2real * (b + f),
{
    let w = n + 2;
    lemma_place_of_col_row(k, w);
    let (i, j) = (col(k, w), row(k, w));
    let (x, y) = (i as real, j as real);
    assert(w * (j + 1) == w * j + w && w * (j - 1) == w * j - w) by (nonlinear_arith);
    assert(k + 1 == place(i + 1, j, w) && k - 1 == place(i - 1, j, w));
    assert(k + w == place(i, j + 1, w) && k - w == place(i, j - 1, w));
    assert((i + 1) as real == x + 1real && (i - 1) as real == x - 1real);
    assert((j + 1) as real == y + 1real && (j - 1) as real == y - 1real);
    lemma_spread(b, x, 1real);
    lemma_spread(c, y, 1real);
    lemma_spread(e, x, 1real);
    lemma_spread(f, y, 1real);
    lemma_units(b);
    lemma_units(c);
    lemma_units(e);
    lemma_units(f);
    assert(r.means(u[place(i + 1, j, w)], a + b * (x + 1real) + c * y));
    assert(r.means(u[place(i - 1, j, w)], a + b * (x - 1real) + c * y));
    assert(r.means(u[place(i, j + 1, w)], a + b * x + c * (y + 1real)));
    assert(r.means(u[place(i, j - 1, w)], a + b * x + c * (y - 1real)));
    assert(r.means(v[place(i + 1, j, w)], d + e * (x + 1real) + f * y));
    assert(r.means(v[place(i - 1, j, w)], d + e * (x - 1real) + f * y));
    assert(r.means(v[place(i, j + 1, w)], d + e * x + f * (y + 1real)));
    assert(r.means(v[place(i, j - 1, w)], d + e * x + f * (y - 1real)));
    assert(field_of_numbers(r, n, u) && field_of_numbers(r, n, v)) by {
        assert forall|m: int| 0 <= m < u.len() implies r.is(#[trigger] u[m]) && r.is(v[m]) by {
            lemma_place_of_col_row(m, w);
            lemma_row_in_grid(m, w, w);
            assert(r.is(u[place(col(m, w), row(m, w), w)]));
            assert(r.is(v[place(col(m, w), row(m, w), w)]));
        }
        assert forall|m: int| 0 <= m < v.len() implies r.is(#[trigger] v[m]) by {
            assert(r.is(u[m]));
        }
    }
    lemma_curl(r, n, u, v, k);
}

/// The size of a number.
pub open spec fn size(x: real) -> real {
    larger(x, 0real - x)
}

/// How fast the size of a field grows from cell `lo` to cell `hi`, two cells apart.
pub open spec fn growth<T: Scalar>(r: Reading<T>, x: Seq<T>, hi: int, lo: int) -> real {
    (size(r.at(x[hi])) - size(r.at(x[lo]))) / 2real
}

/// The slope of a field's size, in numbers.
proof fn lemma_growth<T: Scalar>(r: Reading<T>, x: Seq<T>, hi: int, lo: int)
    requires
        r.sound(),
        r.never_rounds(),
        r.means(lit::<T>(1, 2), 1real / 2real),
        r.is(x[hi]),
        r.is(x[lo]),
    ensures
        r.means(slope(x, hi, lo), growth(r, x, hi, lo)),
{
    assert(r.is(magnitude(x[hi])) && r.is(magnitude(x[lo])));
    let d = diff(magnitude(x[hi]), magnitude(x[lo]));
    assert(r.is(d));
    assert((1real / 2real) * r.at(d) == r.at(d) / 2real);
}

/// The force of a swirl in cell `k`: across the slope of the curl's size, whose length is
/// `len`, and as strong as the curl.
pub open spec fn pushes_round(
    fx: real,
    fy: real,
    sx: real,
    sy: real,
    len: real,
    curl: real,
    strength: real,
) -> bool {
    &&& len >= 0real && len * len == sx * sx + sy * sy
    &&& fx * (len + 1real / 100000real) == strength * sy * curl
    &&& fy * (len + 1real / 100000real) == 0real - strength * sx * curl
}

/// A part of a force, in numbers.
proof fn lemma_push(s: real, l: real, strength: real, curl: real)
    requires
        l > 0real,
    ensures
        strength * (s / l) * curl * l == strength * s * curl,
        strength * (0real - s / l) * curl * l == 0real - strength * s * curl,
{
    let q = s / l;
    assert(q * l == s) by (nonlinear_arith)
        requires
            l > 0real,
            q == s / l,
    ;
    let x = strength * q;
    assert(x * l == strength * s) by (nonlinear_arith)
        requires
            x == strength * q,
            q * l == s,
    ;
    assert(x * curl * l == (x * l) * curl) by (nonlinear_arith);
    assert(strength * (0real - q) == 0real - x) by (nonlinear_arith)
        requires
            x == strength * q,
    ;
    assert((0real - x) * curl * l == 0real - x * curl * l) by (nonlinear_arith);
}

/// The swirl forces of cell `k`, in numbers.
proof fn lemma_swirl<T: Scalar>(r: Reading<T>, n: int, curl: Seq<T>, strength: T, k: int)
    requires
        r.sound(),
        r.never_rounds(),
        r.takes_roots(),
        1 <= n,
        field_of_numbers(r, n, curl),
        r.is(strength),
        0 <= k < cells(n),
        interior(k, n),
    ensures
        r.is(swirl_x(n, curl, strength, k)),
        r.is(swirl_y(n, curl, strength, k)),
        exists|len: real| #[trigger]
            pushes_round(
                r.at(swirl_x(n, curl, strength, k)),
                r.at(swirl_y(n, curl, strength, k)),
                growth(r, curl, k + 1, k - 1),
                growth(r, curl, k + (n + 2), k - (n + 2)),
                len,
                r.at(curl[k]),
                r.at(strength),
            ),
{
    let w = n + 2;
    lemma_neighbours(k, n);
    assert(r.fits(1i32 as real / 2i32 as real));
    assert(r.fits(1i32 as real / 100000i32 as real));
    lemma_literal(r, 1, 2);
    lemma_literal(r, 1, 100000);
    assert(r.is(curl[k]) && r.is(curl[k + 1]) && r.is(curl[k - 1]));
    assert(r.is(curl[k + w]) && r.is(curl[k - w]));
    lemma_growth(r, curl, k + 1, k - 1);
    lemma_growth(r, curl, k + w, k - w);
    let (x, y) = (slope(curl, k + 1, k - 1), slope(curl, k + w, k - w));
    let (sx, sy) = (r.at(x), r.at(y));
    assert(sx * sx >= 0real) by (nonlinear_arith);
    assert(sy * sy >= 0real) by (nonlinear_arith);
    assert(r.is(prod(x, x)) && r.is(prod(y, y)));
    let q = sum(prod(x, x), prod(y, y));
    assert(r.means(q, sx * sx + sy * sy));
    let len = r.at(root(q));
    let l = steepness(n, curl, k);
    assert(r.means(l, len + 1real / 100000real));
    let lv = r.at(l);
    let (st, cv) = (r.at(strength), r.at(curl[k]));
    assert(r.means(quot(y, l), sy / lv) && r.means(quot(x, l), sx / lv));
    assert(r.means(neg(quot(x, l)), 0real - sx / lv));
    assert(r.is(prod(strength, quot(y, l))) && r.is(prod(strength, neg(quot(x, l)))));
    lemma_push(sy, lv, st, cv);
    lemma_push(sx, lv, st, cv);
    assert(pushes_round(
        r.at(swirl_x(n, curl, strength, k)),
        r.at(swirl_y(n, curl, strength, k)),
        sx,
        sy,
        len,
        cv,
        st,
    ));
}

/// Smoke is lifted: in every interior cell the upward source grows by the buoyancy times
/// the density, and without vorticity confinement nothing else acts.
pub proof fn law_smoke_is_lifted<T: Scalar>(r: Reading<T>, air: SmokeModel<T>, k: int)
    requires
        r.sound(),
        r.never_rounds(),
        air_of_numbers(r, air),
        r.at(air.vorticity) <= 0real,
        0 <= k < cells(air.n),
    ensures
        air.forced().u0 == air.u0,
        interior(k, air.n) ==> r.means(
            air.forced().v0[k],
            r.at(air.v0[k]) + r.at(air.buoyancy) * r.at(air.dens[k]),
        ),
        !interior(k, air.n) ==> air.forced().v0[k] == air.v0[k],
{
    assert(r.fits(0i32 as real / 1i32 as real));
    lemma_literal(r, 0, 1);
    assert(r.is(air.v0[k]) && r.is(air.dens[k]));
    assert(r.is(prod(air.buoyancy, air.dens[k])));
}

/// Vorticity confinement puts swirls back: beside the lift, every interior cell is pushed
/// across the slope of the curl's size, round the middle of the swirl that the slope
/// points to and the way that the air turns there, by the strength of the confinement
/// times the curl. The curl is how fast the air turns.
pub proof fn law_swirls_are_put_back<T: Scalar>(r: Reading<T>, air: SmokeModel<T>, k: int)
    requires
        r.sound(),
        r.never_rounds(),
        r.takes_roots(),
        air_of_numbers(r, air),
        r.at(air.vorticity) > 0real,
        0 <= k < cells(air.n),
        interior(k, air.n),
    ensures
        ({
            let f = air.forced();
            let w = air.n + 2;
            &&& r.is(f.u0[k]) && r.is(f.v0[k])
            &&& r.at(f.curl[k]) == spin(r, air.n, air.u, air.v, k)
            &&& exists|len: real| #[trigger]
                pushes_round(
                    r.at(f.u0[k]) - r.at(air.u0[k]),
                    r.at(f.v0[k]) - r.at(air.v0[k]) - r.at(air.buoyancy) * r.at(air.dens[k]),
                    growth(r, f.curl, k + 1, k - 1),
                    growth(r, f.curl, k + w, k - w),
                    len,
                    r.at(f.curl[k]),
                    r.at(air.vorticity),
                )
        }),
{
    let n = air.n;
    assert(r.fits(0i32 as real / 1i32 as real));
    lemma_literal(r, 0, 1);
    let lifted = air.lifted();
    let turned = lifted.with_curl();
    let f = air.forced();
    assert(f == turned.stirred());
    assert forall|m: int| 0 <= m < turned.curl.len() implies r.is(#[trigger] turned.curl[m]) by {
        if interior(m, n) {
            lemma_curl(r, n, air.u, air.v, m);
        } else {
            assert(r.is(air.curl[m]));
        }
    }
    lemma_curl(r, n, air.u, air.v, k);
    lemma_swirl(r, n, turned.curl, air.vorticity, k);
    assert(r.is(air.u0[k]) && r.is(air.v0[k]) && r.is(air.dens[k]));
    assert(r.is(prod(air.buoyancy, air.dens[k])));
    assert(r.is(lifted.v0[k]));
    let len = choose|len: real| #[trigger]
        pushes_round(
            r.at(swirl_x(n, turned.curl, air.vorticity, k)),
            r.at(swirl_y(n, turned.curl, air.vorticity, k)),
            growth(r, turned.curl, k + 1, k - 1),
            growth(r, turned.curl, k + (n + 2), k - (n + 2)),
            len,
            r.at(turned.curl[k]),
            r.at(air.vorticity),
        );
    assert(r.at(f.u0[k]) - r.at(air.u0[k]) == r.at(swirl_x(n, turned.curl, air.vorticity, k)));
    assert(r.at(f.v0[k]) - r.at(air.v0[k]) - r.at(air.buoyancy) * r.at(air.dens[k]) == r.at(
        swirl_y(n, turned.curl, air.vorticity, k),
    ));
    assert(pushes_round(
        r.at(f.u0[k]) - r.at(air.u0[k]),
        r.at(f.v0[k]) - r.at(air.v0[k]) - r.at(air.buoyancy) * r.at(air.dens[k]),
        growth(r, f.curl, k + 1, k - 1),
        growth(r, f.curl, k + (n + 2), k - (n + 2)),
        len,
        r.at(f.curl[k]),
        r.at(air.vorticity),
    ));
}

/// Sources let in what they say: over a step of `dt` seconds every value gains `dt` times
/// its source.
pub proof fn law_sources_let_in<T: Scalar>(
    r: Reading<T>,
    x: Seq<T>,
    s: Seq<T>,
    dt: T,
    k: int,
)
    requires
        r.sound(),
        r.never_rounds(),
        x.len() == s.len(),
        0 <= k < x.len(),
        r.is(x[k]),
        r.is(s[k]),
        r.is(dt),
    ensures
        r.means(sourced(x, s, dt)[k], r.at(x[k]) + r.at(dt) * r.at(s[k])),
{
    assert(r.is(prod(dt, s[k])));
}

/// Smoke fades: where dissipation is on, what a step leaves of a cell's density was once
/// and `dt` times the dissipation as much; where it is off nothing fades.
pub proof fn law_smoke_fades<T: Scalar>(r: Reading<T>, air: SmokeModel<T>, dt: T, k: int)
    requires
        r.sound(),
        r.never_rounds(),
        air_of_numbers(r, air),
        r.is(dt),
        r.at(dt) >= 0real,
        0 <= k < cells(air.n),
    ensures
        r.at(air.dissipation) > 0real ==> r.at(air.faded(dt).dens[k]) * (1real + r.at(dt) * r.at(
            air.dissipation,
        )) == r.at(air.dens[k]),
        r.at(air.dissipation) <= 0real ==> air.faded(dt).dens[k] == air.dens[k],
{
    assert(r.fits(0i32 as real / 1i32 as real));
    assert(r.fits(1i32 as real / 1i32 as real));
    lemma_literal(r, 0, 1);
    lemma_literal(r, 1, 1);
    assert(r.is(air.dens[k]));
    if r.at(air.dissipation) > 0real {
        let (t, d, x) = (r.at(dt), r.at(air.dissipation), r.at(air.dens[k]));
        assert(t * d >= 0real) by (nonlinear_arith)
            requires
                t >= 0real,
                d > 0real,
        ;
        assert(r.means(prod(dt, air.dissipation), t * d));
        let c = sum(lit(1, 1), prod(dt, air.dissipation));
        assert(r.means(c, 1real + t * d));
        let cv = 1real + t * d;
        let q = 1real / cv;
        assert(r.means(quot(lit(1, 1), c), q));
        assert(q * cv == 1real) by (nonlinear_arith)
            requires
                cv >= 1real,
                q == 1real / cv,
        ;
        assert(x * q * cv == x) by (nonlinear_arith)
            requires
                q * cv == 1real,
        ;
    }
}

} // verus!
