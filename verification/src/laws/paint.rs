//! Where smoke is let in, and how it is drawn.

#[allow(unused_imports)]
use crate::gpu::backend::{InputModel, Key};
use crate::gpu::context::SurfaceSize;
#[allow(unused_imports)]
use crate::gpu::cpu_backends::{
    brightness, cell_at, hold, painted, painting, shade, sourced, SmokeBackendModel, SMOKE_N,
};
#[allow(unused_imports)]
use crate::layout::{lemma_col_row_of_place, lemma_place_in_grid, place};
#[allow(unused_imports)]
use crate::reals::{lemma_literal, Reading};
use crate::scalar::Scalar;
#[allow(unused_imports)]
use crate::scalar::{count, diff, exponential, greater, lesser, lit, neg, octet, prod, sum};
#[allow(unused_imports)]
use crate::smoke::SmokeModel;
#[allow(unused_imports)]
use crate::vec2::Vec2;
use vstd::prelude::*;

verus! {

/// Cell `(i, j)` is no more than two cells away from `c`, to each side.
pub open spec fn beside(i: int, j: int, c: (int, int)) -> bool {
    -2 <= i - c.0 <= 2 && -2 <= j - c.1 <= 2
}

/// The whole patch around `c` is inside the box.
pub open spec fn clear_of_walls(c: (int, int)) -> bool {
    3 <= c.0 <= SMOKE_N - 2 && 3 <= c.1 <= SMOKE_N - 2
}

/// Cell `(i, j)` is one of the source: near the bottom, in the middle.
pub open spec fn at_the_source(i: int, j: int) -> bool {
    -3 <= i - SMOKE_N / 2 <= 3 && 4 <= j <= 6
}

/// Which cells the first `upto` visits of the mouse have changed.
proof fn lemma_painted<T: Scalar>(
    smoke: SmokeModel<T>,
    c: (int, int),
    dv: Vec2<T>,
    upto: nat,
    i: int,
    j: int,
)
    requires
        smoke.valid(),
        smoke.n == SMOKE_N,
        1 <= c.0 <= SMOKE_N,
        1 <= c.1 <= SMOKE_N,
        clear_of_walls(c) || !beside(i, j, c),
        upto <= 25,
        1 <= i <= SMOKE_N,
        1 <= j <= SMOKE_N,
    ensures
        ({
            let after = painted(smoke, c.0, c.1, dv, upto);
            let k = place(i, j, SMOKE_N + 2);
            let done = beside(i, j, c) && (i - c.0 + 2) + 5 * (j - c.1 + 2) < upto;
            &&& after.valid() && after.n == SMOKE_N
            &&& after.dens == smoke.dens && after.u == smoke.u && after.v == smoke.v
            &&& after.dens0[k] == if done {
                sum(smoke.dens0[k], lit(60, 1))
            } else {
                smoke.dens0[k]
            }
            &&& after.u0[k] == if done {
                sum(smoke.u0[k], dv.x)
            } else {
                smoke.u0[k]
            }
            &&& after.v0[k] == if done {
                sum(smoke.v0[k], dv.y)
            } else {
                smoke.v0[k]
            }
        }),
    decreases upto,
{
    if upto > 0 {
        let m = upto - 1;
        lemma_painted(smoke, c, dv, m as nat, i, j);
        let (a, b) = (hold(c.0 + m % 5 - 2), hold(c.1 + m / 5 - 2));
        let w = SMOKE_N as int + 2;
        lemma_col_row_of_place(a, b, w);
        lemma_col_row_of_place(i, j, w);
        lemma_place_in_grid(a, b, w, w);
        lemma_place_in_grid(i, j, w, w);
    }
}

/// Which cells the first `upto` visits of the source have changed.
proof fn lemma_sourced<T: Scalar>(smoke: SmokeModel<T>, upto: nat, i: int, j: int)
    requires
        smoke.valid(),
        smoke.n == SMOKE_N,
        upto <= 21,
        1 <= i <= SMOKE_N,
        1 <= j <= SMOKE_N,
    ensures
        ({
            let after = sourced(smoke, upto);
            let k = place(i, j, SMOKE_N + 2);
            let done = at_the_source(i, j) && (i - SMOKE_N / 2 + 3) + 7 * (j - 4) < upto;
            &&& after.valid() && after.n == SMOKE_N
            &&& after.dens == smoke.dens && after.u == smoke.u && after.v == smoke.v
            &&& after.dens0[k] == if done {
                sum(smoke.dens0[k], lit(40, 1))
            } else {
                smoke.dens0[k]
            }
            &&& after.u0[k] == if done {
                sum(smoke.u0[k], lit(0, 1))
            } else {
                smoke.u0[k]
            }
            &&& after.v0[k] == if done {
                sum(smoke.v0[k], lit(6, 1))
            } else {
                smoke.v0[k]
            }
        }),
    decreases upto,
{
    if upto > 0 {
        let m = upto - 1;
        lemma_sourced(smoke, m as nat, i, j);
        let (a, b) = (hold(SMOKE_N / 2 + m % 7 - 3), 4 + m / 7);
        let w = SMOKE_N as int + 2;
        lemma_col_row_of_place(a, b, w);
        lemma_col_row_of_place(i, j, w);
        lemma_place_in_grid(a, b, w, w);
        lemma_place_in_grid(i, j, w, w);
    }
}

/// Smoke is let in at the source, where it rises, and around the mouse, where it goes with
/// the drag, and nowhere else. Each cell of the patch around the mouse is fed once, if the
/// patch is clear of the walls.
pub proof fn law_smoke_is_let_in<T: Scalar>(
    r: Reading<T>,
    air: SmokeBackendModel<T>,
    input: InputModel<T>,
    size: SurfaceSize,
    i: int,
    j: int,
)
    requires
        r.sound(),
        r.never_rounds(),
        air.valid(),
        1 <= i <= SMOKE_N,
        1 <= j <= SMOKE_N,
        ({
            let c = cell_at(input.mouse.0, input.mouse.1, size);
            clear_of_walls(c) || !beside(i, j, c)
        }),
        ({
            let k = place(i, j, SMOKE_N + 2);
            r.is(air.smoke.dens0[k]) && r.is(air.smoke.u0[k]) && r.is(air.smoke.v0[k])
        }),
        r.is_vec(SmokeBackendModel::wind(input, size)),
    ensures
        ({
            let k = place(i, j, SMOKE_N + 2);
            let after = air.fed(input, size).smoke;
            let wind = SmokeBackendModel::wind(input, size);
            let c = cell_at(input.mouse.0, input.mouse.1, size);
            let source = air.source_on && at_the_source(i, j);
            let mouse = input.mouse_down && beside(i, j, c);
            &&& r.means(
                after.dens0[k],
                r.at(air.smoke.dens0[k]) + (if source {
                    40real
                } else {
                    0real
                }) + (if mouse {
                    60real
                } else {
                    0real
                }),
            )
            &&& r.means(
                after.u0[k],
                r.at(air.smoke.u0[k]) + (if mouse {
                    r.at(wind.x)
                } else {
                    0real
                }),
            )
            &&& r.means(
                after.v0[k],
                r.at(air.smoke.v0[k]) + (if source {
                    6real
                } else {
                    0real
                }) + (if mouse {
                    r.at(wind.y)
                } else {
                    0real
                }),
            )
            &&& after.dens == air.smoke.dens && after.u == air.smoke.u && after.v == air.smoke.v
        }),
{
    assert(r.fits(60i32 as real / 1i32 as real));
    assert(r.fits(40i32 as real / 1i32 as real));
    assert(r.fits(6i32 as real / 1i32 as real));
    assert(r.fits(0i32 as real / 1i32 as real));
    lemma_literal(r, 60, 1);
    lemma_literal(r, 40, 1);
    lemma_literal(r, 6, 1);
    lemma_literal(r, 0, 1);
    let c = cell_at(input.mouse.0, input.mouse.1, size);
    lemma_sourced(air.smoke, 21, i, j);
    let a = if air.source_on {
        sourced(air.smoke, 21)
    } else {
        air.smoke
    };
    lemma_painted(a, c, SmokeBackendModel::wind(input, size), 25, i, j);
}

/// The part of white that smoke of density `d` is drawn with.
proof fn lemma_white<T: Scalar>(r: Reading<T>, d: T) -> (w: T)
    requires
        r.sound(),
        r.never_rounds(),
        r.takes_exponentials(),
        r.is(d),
    ensures
        r.is(w) && 0real <= r.at(w) < 255real,
        brightness(d) == octet(w),
        r.at(d) <= 0real ==> r.at(w) == 0real,
        w == prod(
            diff(lit(1, 1), exponential(prod(neg(greater(d, lit(0, 1))), lit(15, 10)))),
            lit(255, 1),
        ),
{
    assert(r.fits(0i32 as real / 1i32 as real));
    assert(r.fits(1i32 as real / 1i32 as real));
    assert(r.fits(15i32 as real / 10i32 as real));
    assert(r.fits(255i32 as real / 1i32 as real));
    lemma_literal(r, 0, 1);
    lemma_literal(r, 1, 1);
    lemma_literal(r, 15, 10);
    lemma_literal(r, 255, 1);
    let a = prod(neg(greater(d, lit(0, 1))), lit(15, 10));
    assert(r.is(a) && r.at(a) <= 0real);
    let e = exponential(a);
    let one = exponential(lit::<T>(0, 1));
    assert(r.at(e) <= r.at(one));
    let w = prod(diff(lit(1, 1), e), lit(255, 1));
    assert(r.is(diff(lit(1, 1), e)));
    assert(r.means(w, (1real - r.at(e)) * 255real));
    w
}

/// Clear air is black, and thicker smoke is never darker.
pub proof fn law_thicker_smoke_is_brighter<T: Scalar>(r: Reading<T>, thin: T, thick: T)
    requires
        r.sound(),
        r.never_rounds(),
        r.takes_exponentials(),
        r.is(thin),
        r.is(thick),
        r.at(thin) <= r.at(thick),
    ensures
        brightness(thin) <= brightness(thick),
        r.at(thin) <= 0real ==> brightness(thin) == 0,
{
    let (a, b) = (lemma_white(r, thin), lemma_white(r, thick));
    assert(r.fits(0i32 as real / 1i32 as real));
    assert(r.fits(15i32 as real / 10i32 as real));
    assert(r.fits(1i32 as real / 1i32 as real));
    assert(r.fits(255i32 as real / 1i32 as real));
    lemma_literal(r, 0, 1);
    lemma_literal(r, 15, 10);
    lemma_literal(r, 1, 1);
    lemma_literal(r, 255, 1);
    let p = prod(neg(greater(thin, lit(0, 1))), lit(15, 10));
    let q = prod(neg(greater(thick, lit(0, 1))), lit(15, 10));
    assert(r.is(p) && r.is(q) && r.at(q) <= r.at(p));
    assert(r.at(exponential(q)) <= r.at(exponential(p)));
    assert(r.is(diff(lit(1, 1), exponential(p))));
    assert(r.is(diff(lit(1, 1), exponential(q))));
    assert(r.at(a) <= r.at(b));
}

/// Smoke is drawn a little bluish, with nine tenths of its brightness in red and nineteen
/// twentieths in green, and in front of everything.
pub proof fn law_smoke_is_bluish<T: Scalar>(r: Reading<T>, d: T)
    requires
        r.sound(),
        r.never_rounds(),
    ensures
        10 * shade(d, 0) <= 9 * brightness(d) < 10 * shade(d, 0) + 10,
        20 * shade(d, 1) <= 19 * brightness(d) < 20 * shade(d, 1) + 20,
        shade(d, 2) == brightness(d),
        shade(d, 3) == 255,
{
    assert(r.fits(9i32 as real / 10i32 as real));
    assert(r.fits(95i32 as real / 100i32 as real));
    lemma_literal(r, 9, 10);
    lemma_literal(r, 95, 100);
    let b = brightness(d);
    assert(r.fits((b as usize) as real));
    assert(r.means(count::<T>(b as usize), b as real));
    let red = prod(count::<T>(b as usize), lit(9, 10));
    let green = prod(count::<T>(b as usize), lit(95, 100));
    assert(r.means(red, b as real * (9real / 10real)));
    assert(r.means(green, b as real * (95real / 100real)));
    assert(10real * octet(red) as real <= 9real * b as real);
    assert(20real * octet(green) as real <= 19real * b as real);
}

/// The keys of the smoke: `V` turns the vorticity confinement off where it is on, and on, at
/// strength three, where it is off; `S` does so with the source; `R` clears the air.
pub proof fn law_keys_switch_the_smoke<T: Scalar>(
    r: Reading<T>,
    air: SmokeBackendModel<T>,
    input: InputModel<T>,
)
    requires
        r.sound(),
        r.never_rounds(),
        air.valid(),
        r.is(air.smoke.vorticity),
    ensures
        ({
            let after = air.controlled(input);
            let (was, now) = (r.at(air.smoke.vorticity), r.at(after.smoke.vorticity));
            let clear = input.pressed.contains(Key::KeyR);
            &&& r.is(after.smoke.vorticity)
            &&& !input.pressed.contains(Key::KeyV) ==> now == was
            &&& input.pressed.contains(Key::KeyV) && was > 0real ==> now == 0real
            &&& input.pressed.contains(Key::KeyV) && was <= 0real ==> now == 3real
            &&& after.source_on == (air.source_on != input.pressed.contains(Key::KeyS))
            &&& !clear ==> after.smoke.dens == air.smoke.dens && after.smoke.u == air.smoke.u
                && after.smoke.v == air.smoke.v
            &&& clear ==> forall|k: int|
                0 <= k < after.smoke.dens.len() ==> r.at(#[trigger] after.smoke.dens[k]) == 0real
                    && r.at(after.smoke.u[k]) == 0real && r.at(after.smoke.v[k]) == 0real
        }),
{
    assert(r.fits(0i32 as real / 1i32 as real));
    assert(r.fits(3i32 as real / 1i32 as real));
    lemma_literal(r, 0, 1);
    lemma_literal(r, 3, 1);
}

/// A frame of the smoke applies the keys, lets smoke in, makes one step of the frame's time,
/// of which no more than a thirtieth of a second counts, and draws what came of it. The
/// length of the step is returned.
pub proof fn law_frame_steps_the_smoke<T: Scalar>(
    r: Reading<T>,
    air: SmokeBackendModel<T>,
    dt: T,
    input: InputModel<T>,
    size: SurfaceSize,
) -> (step: T)
    requires
        r.sound(),
        r.never_rounds(),
        r.is(dt),
    ensures
        r.is(step),
        30real * r.at(dt) <= 1real ==> r.at(step) == r.at(dt),
        30real * r.at(dt) > 1real ==> 30real * r.at(step) == 1real,
        ({
            let after = air.updated(dt, input, size);
            &&& after.smoke == air.controlled(input).fed(input, size).smoke.stepped(step)
            &&& after.rgba == painting(after.smoke)
            &&& after.source_on == air.controlled(input).source_on
        }),
{
    assert(r.fits(1i32 as real / 30i32 as real));
    lemma_literal(r, 1, 30);
    lesser(dt, lit(1, 30))
}

} // verus!
