//! What the keys and the clock do to the fluids.

#[allow(unused_imports)]
use crate::flip::stretch;
#[allow(unused_imports)]
use crate::gpu::backend::{InputModel, Key};
#[allow(unused_imports)]
use crate::gpu::clock::{after_steps, rest_of, saved_up, steps_in};
#[allow(unused_imports)]
use crate::gpu::controls::pulled;
#[allow(unused_imports)]
use crate::gpu::cpu_backends::{FlipBackendModel, SphCpuModel, MAX_STEPS};
#[allow(unused_imports)]
use crate::gpu::flip_gpu::{GpuFlipBackendModel, MAX_SUB};
#[allow(unused_imports)]
use crate::gpu::sph_backend::SphBackendModel;
#[allow(unused_imports)]
use crate::reals::{
    larger, lemma_literal, lemma_over, lemma_spread, lemma_swap, lemma_units, smaller, Reading,
};
use crate::scalar::Scalar;
#[allow(unused_imports)]
use crate::scalar::{count, diff, greater, lesser, lit, neg, prod, quot, sum};
#[allow(unused_imports)]
use crate::shell::Shell;
#[allow(unused_imports)]
use crate::vec2::Vec2;
use vstd::prelude::*;

verus! {

/// One where a key has been pressed in the frame, and nothing otherwise.
pub open spec fn hits<T: Scalar>(input: InputModel<T>, key: Key) -> real {
    if input.pressed.contains(key) {
        1real
    } else {
        0real
    }
}

/// The jolts of a frame to the right, of strength `s`: the right key gives one, and the
/// left key one the other way, so that both together cancel.
pub open spec fn sideways<T: Scalar>(input: InputModel<T>, s: real) -> real {
    s * (hits(input, Key::ArrowRight) - hits(input, Key::ArrowLeft))
}

/// The jolts of a frame upward, of strength `s`.
pub open spec fn upward<T: Scalar>(input: InputModel<T>, s: real) -> real {
    s * hits(input, Key::Space)
}

/// The keys shake every particle of the liquid alike. The liquid counts its rows from the
/// top, so that upward is toward smaller ones.
pub proof fn law_keys_shake_the_liquid<T: Scalar>(
    r: Reading<T>,
    liquid: SphCpuModel<T>,
    input: InputModel<T>,
    i: int,
)
    requires
        r.sound(),
        r.never_rounds(),
        0 <= i < liquid.sim.vel.len(),
        r.is_vec(liquid.sim.vel[i]),
    ensures
        ({
            let after = liquid.jolted(input);
            &&& after.pos == liquid.sim.pos
            &&& after.vel.len() == liquid.sim.vel.len()
            &&& r.means(
                after.vel[i].x,
                r.at(liquid.sim.vel[i].x) + sideways(input, 650real),
            )
            &&& r.means(after.vel[i].y, r.at(liquid.sim.vel[i].y) - upward(input, 650real))
        }),
{
    assert(r.fits(0i32 as real / 1i32 as real));
    assert(r.fits(650i32 as real / 1i32 as real));
    lemma_literal(r, 0, 1);
    lemma_literal(r, 650, 1);
}

/// The keys shake every particle of the water alike. The water counts its rows from the
/// bottom, so that upward is toward greater ones.
pub proof fn law_keys_shake_the_water<T: Scalar>(
    r: Reading<T>,
    water: FlipBackendModel<T>,
    input: InputModel<T>,
    i: int,
)
    requires
        r.sound(),
        r.never_rounds(),
        0 <= i < water.sim.vel.len(),
        r.is_vec(water.sim.vel[i]),
    ensures
        ({
            let after = water.jolted(input);
            &&& after.pos == water.sim.pos
            &&& after.vel.len() == water.sim.vel.len()
            &&& r.means(after.vel[i].x, r.at(water.sim.vel[i].x) + sideways(input, 14real))
            &&& r.means(after.vel[i].y, r.at(water.sim.vel[i].y) + upward(input, 14real))
        }),
{
    assert(r.fits(0i32 as real / 1i32 as real));
    assert(r.fits(14i32 as real / 1i32 as real));
    lemma_literal(r, 0, 1);
    lemma_literal(r, 14, 1);
}

/// A share among `n`, `n` times.
proof fn lemma_shared<T: Scalar>(r: Reading<T>, v: Vec2<T>, n: nat)
    requires
        r.sound(),
        r.never_rounds(),
        r.is_vec(v),
        0 < n <= 100,
    ensures
        ({
            let share = v.div_of(count(n as usize));
            &&& r.is_vec(share)
            &&& n as real * r.at(share.x) == r.at(v.x)
            &&& n as real * r.at(share.y) == r.at(v.y)
        }),
{
    let k = n as usize;
    assert(r.fits(k as real));
    assert(r.means(count::<T>(k), n as real));
    lemma_over(r.at(v.x), n as real);
    lemma_over(r.at(v.y), n as real);
    let share = v.div_of(count(k));
    assert(r.is_vec(share));
    lemma_swap(n as real, r.at(share.x));
    lemma_swap(n as real, r.at(share.y));
}

/// `steps_in` keeps to its limit.
proof fn lemma_steps<T: Scalar>(saved: T, dt: T, limit: nat)
    ensures
        steps_in(saved, dt, limit) <= limit,
    decreases limit,
{
    if limit > 0 {
        lemma_steps(diff(saved, dt), dt, (limit - 1) as nat);
    }
}

/// On the graphics processor the steps of a frame give the liquid the jolts of the keys
/// between them, with those that waited, and pull it down.
pub proof fn law_frame_shakes_and_pulls_the_liquid<T: Scalar>(
    r: Reading<T>,
    liquid: SphBackendModel<T>,
    dt: T,
    input: InputModel<T>,
)
    requires
        r.sound(),
        r.never_rounds(),
        r.is_vec(liquid.pending),
        liquid.steps(dt) > 0,
        r.is(liquid.controlled(dt, input).g_scale),
    ensures
        ({
            let steps = liquid.steps(dt) as real;
            let after = liquid.updated(dt, input);
            let (ix, iy) = (after.sim.params.impulse_x, after.sim.params.impulse_y);
            &&& r.is(ix) && steps * r.at(ix) == r.at(liquid.pending.x) + sideways(input, 650real)
            &&& r.is(iy) && steps * r.at(iy) == r.at(liquid.pending.y) - upward(input, 650real)
            &&& r.means(after.sim.params.gravity_x, 0real)
            &&& r.means(after.sim.params.gravity_y, 1200real * r.at(after.g_scale))
            &&& r.means(after.sim.params.dt, 8real / 10000real)
        }),
{
    assert(r.fits(0i32 as real / 1i32 as real));
    assert(r.fits(650i32 as real / 1i32 as real));
    assert(r.fits(1200i32 as real / 1i32 as real));
    assert(r.fits(8i32 as real / 10000i32 as real));
    lemma_literal(r, 0, 1);
    lemma_literal(r, 650, 1);
    lemma_literal(r, 1200, 1);
    lemma_literal(r, 8, 10000);
    let a = liquid.controlled(dt, input);
    assert(a.steps(dt) == liquid.steps(dt));
    lemma_steps(liquid.saved(dt), lit(8, 10000), MAX_STEPS as nat);
    assert(r.is_vec(a.pending));
    lemma_shared(r, a.pending, liquid.steps(dt));
    assert(r.means(
        prod(lit(1200, 1), a.g_scale),
        1200real * r.at(a.g_scale),
    ));
}

/// On the graphics processor the steps of a frame give the water the jolts of the keys
/// between them, with those that waited, and pull it down.
pub proof fn law_frame_shakes_and_pulls_the_water<T: Scalar>(
    r: Reading<T>,
    water: GpuFlipBackendModel<T>,
    dt: T,
    input: InputModel<T>,
)
    requires
        r.sound(),
        r.never_rounds(),
        r.is_vec(water.pending),
        water.steps(dt) > 0,
        r.is(water.controlled(dt, input).g_scale),
    ensures
        ({
            let steps = water.steps(dt) as real;
            let after = water.updated(dt, input);
            let (ix, iy) = (after.flip.params.impulse_x, after.flip.params.impulse_y);
            &&& r.is(ix) && steps * r.at(ix) == r.at(water.pending.x) + sideways(input, 14real)
            &&& r.is(iy) && steps * r.at(iy) == r.at(water.pending.y) + upward(input, 14real)
            &&& r.means(after.flip.params.gx, 0real)
            &&& r.means(after.flip.params.gy, 0real - 9real * r.at(after.g_scale))
            &&& r.means(after.flip.params.dt, 1real / 120real)
        }),
{
    assert(r.fits(0i32 as real / 1i32 as real));
    assert(r.fits(14i32 as real / 1i32 as real));
    assert(r.fits(9i32 as real / 1i32 as real));
    assert(r.fits(1i32 as real / 120i32 as real));
    lemma_literal(r, 0, 1);
    lemma_literal(r, 14, 1);
    lemma_literal(r, 9, 1);
    lemma_literal(r, 1, 120);
    let a = water.controlled(dt, input);
    assert(a.steps(dt) == water.steps(dt));
    lemma_steps(saved_up(water.accum, dt), lit(1, 120), MAX_SUB as nat);
    assert(r.is_vec(a.pending));
    lemma_shared(r, a.pending, water.steps(dt));
    assert(r.means(neg(lit::<T>(9, 1)), 0real - 9real));
    assert(r.means(prod(neg(lit(9, 1)), a.g_scale), (0real - 9real) * r.at(a.g_scale)));
}

/// The up key weakens gravity, by six fifths of its usual strength in a second and down to
/// nothing; the down key strengthens it as fast, up to two and a half times the usual.
pub proof fn law_keys_change_gravity<T: Scalar>(
    r: Reading<T>,
    scale: T,
    dt: T,
    input: InputModel<T>,
)
    requires
        r.sound(),
        r.never_rounds(),
        r.is(scale) && 0real <= r.at(scale) <= 5real / 2real,
        r.is(dt) && 0real <= r.at(dt),
    ensures
        ({
            let after = pulled(scale, dt, input);
            let (g, t) = (r.at(scale), r.at(dt));
            let up = input.held.contains(Key::ArrowUp);
            let down = input.held.contains(Key::ArrowDown);
            &&& r.is(after) && 0real <= r.at(after) <= 5real / 2real
            &&& !up && !down ==> r.at(after) == g
            &&& up && !down && t * 6real / 5real <= g ==> g - r.at(after) == t * 6real / 5real
            &&& up && !down && t * 6real / 5real > g ==> r.at(after) == 0real
            &&& down && !up && g + t * 6real / 5real <= 5real / 2real ==> r.at(after) - g == t
                * 6real / 5real
            &&& down && !up && g + t * 6real / 5real > 5real / 2real ==> r.at(after) == 5real
                / 2real
        }),
{
    assert(r.fits(0i32 as real / 1i32 as real));
    assert(r.fits(12i32 as real / 10i32 as real));
    assert(r.fits(25i32 as real / 10i32 as real));
    lemma_literal(r, 0, 1);
    lemma_literal(r, 12, 10);
    lemma_literal(r, 25, 10);
    let change = prod(lit(12, 10), dt);
    assert(r.means(change, 12real / 10real * r.at(dt)));
    assert(r.is(diff(scale, change)));
}

/// Gravity pulls the water down, by its strength after the keys of the frame; a reset brings
/// the usual strength back.
pub proof fn law_gravity_pulls_the_water_down<T: Scalar>(
    r: Reading<T>,
    water: FlipBackendModel<T>,
    dt: T,
    input: InputModel<T>,
)
    requires
        r.sound(),
        r.never_rounds(),
        r.is(water.g_scale) && 0real <= r.at(water.g_scale) <= 5real / 2real,
        r.is(dt) && 0real <= r.at(dt),
    ensures
        ({
            let after = water.controlled(dt, input);
            &&& r.is(after.g_scale) && 0real <= r.at(after.g_scale)
            &&& r.means(after.sim.cfg.gravity.x, 0real)
            &&& r.means(after.sim.cfg.gravity.y, 0real - 9real * r.at(after.g_scale))
            &&& input.pressed.contains(Key::KeyR) ==> r.at(after.g_scale) == 1real
        }),
{
    law_keys_change_gravity(r, water.g_scale, dt, input);
    assert(r.fits(0i32 as real / 1i32 as real));
    assert(r.fits(9i32 as real / 1i32 as real));
    assert(r.fits(1i32 as real / 1i32 as real));
    lemma_literal(r, 0, 1);
    lemma_literal(r, 9, 1);
    lemma_literal(r, 1, 1);
    let g = water.controlled(dt, input).g_scale;
    assert(r.means(neg(lit::<T>(9, 1)), 0real - 9real));
    assert(r.means(prod(neg(lit(9, 1)), g), (0real - 9real) * r.at(g)));
}

/// No time is lost or made up: where the limit is not reached, the steps and the rest are
/// the time that was saved, and the rest is shorter than a step. Where it is reached, there
/// was time for that many steps, and the rest is forgotten.
pub proof fn law_time_goes_into_steps<T: Scalar>(r: Reading<T>, saved: T, dt: T, limit: nat)
    requires
        r.sound(),
        r.never_rounds(),
        r.is(saved) && 0real <= r.at(saved),
        r.is(dt) && 0real < r.at(dt),
    ensures
        ({
            let steps = steps_in(saved, dt, limit);
            let rest = rest_of(saved, dt, limit);
            &&& steps <= limit
            &&& r.is(rest)
            &&& steps < limit ==> r.at(saved) == steps as real * r.at(dt) + r.at(rest)
            &&& steps < limit ==> 0real <= r.at(rest) < r.at(dt)
            &&& steps == limit ==> r.at(saved) >= steps as real * r.at(dt) && r.at(rest) == 0real
        }),
{
    lemma_time(r, saved, dt, limit);
    assert(r.fits(0i32 as real / 1i32 as real));
    lemma_literal(r, 0, 1);
}

/// The time before the first step and after the last.
proof fn lemma_time<T: Scalar>(r: Reading<T>, saved: T, dt: T, limit: nat)
    requires
        r.sound(),
        r.never_rounds(),
        r.is(saved) && 0real <= r.at(saved),
        r.is(dt) && 0real < r.at(dt),
    ensures
        ({
            let steps = steps_in(saved, dt, limit);
            let rest = after_steps(saved, dt, steps);
            &&& steps <= limit
            &&& r.is(rest) && 0real <= r.at(rest)
            &&& r.at(saved) == steps as real * r.at(dt) + r.at(rest)
            &&& steps < limit ==> r.at(rest) < r.at(dt)
        }),
    decreases limit,
{
    let t = r.at(dt);
    lemma_units(t);
    let steps = steps_in(saved, dt, limit);
    if steps > 0 {
        let left = diff(saved, dt);
        assert(r.means(left, r.at(saved) - t));
        lemma_time(r, left, dt, (limit - 1) as nat);
        lemma_spread(t, (steps - 1) as real, 1real);
    }
}

/// The time saved up grows by that of the frame, of which no more than a twentieth of a
/// second counts.
pub proof fn law_long_frames_are_cut<T: Scalar>(r: Reading<T>, accum: T, frame: T)
    requires
        r.sound(),
        r.never_rounds(),
        r.is(accum),
        r.is(frame),
    ensures
        r.is(saved_up(accum, frame)),
        20real * r.at(frame) <= 1real ==> r.at(saved_up(accum, frame)) - r.at(accum) == r.at(frame),
        20real * r.at(frame) > 1real ==> 20real * (r.at(saved_up(accum, frame)) - r.at(accum))
            == 1real,
{
    assert(r.fits(5i32 as real / 100i32 as real));
    lemma_literal(r, 5, 100);
}

/// Gravity pulls the liquid down, toward greater rows, by its strength: the frame's steps are
/// of eight ten-thousandths of a second, under a gravity of twelve hundred pixels per square
/// second at the usual strength. Step and gravity are returned.
pub proof fn law_gravity_pulls_the_liquid_down<T: Scalar>(
    r: Reading<T>,
    liquid: SphCpuModel<T>,
    dt: T,
) -> (pull: (T, Vec2<T>))
    requires
        r.sound(),
        r.never_rounds(),
        r.is(liquid.g_scale),
        r.is(liquid.accum) && 0real <= r.at(liquid.accum),
        r.is(dt) && 0real <= r.at(dt),
    ensures
        ({
            let after = liquid.advanced(dt);
            let (step, g) = pull;
            let time = r.at(liquid.accum) + smaller(r.at(dt), 1real / 20real);
            &&& r.means(step, 8real / 10000real)
            &&& r.means(g.x, 0real)
            &&& r.means(g.y, 1200real * r.at(liquid.g_scale))
            &&& exists|steps: nat|
                after.sim == #[trigger] liquid.sim.run(steps, step, g, liquid.bounds) && (
                steps as real * r.at(step) + r.at(after.accum) == time || steps == MAX_STEPS)
            &&& after.pos == after.sim.pos && after.vel == after.sim.vel
        }),
{
    assert(r.fits(0i32 as real / 1i32 as real));
    assert(r.fits(1i32 as real / 1i32 as real));
    assert(r.fits(1200i32 as real / 1i32 as real));
    assert(r.fits(8i32 as real / 10000i32 as real));
    assert(r.fits(5i32 as real / 100i32 as real));
    lemma_literal(r, 0, 1);
    lemma_literal(r, 1, 1);
    lemma_literal(r, 1200, 1);
    lemma_literal(r, 8, 10000);
    lemma_literal(r, 5, 100);
    let step = lit::<T>(8, 10000);
    let part = lesser(dt, lit(5, 100));
    lemma_units(r.at(part));
    assert(r.means(prod(part, lit(1, 1)), r.at(part)));
    let saved = sum(liquid.accum, prod(part, lit(1, 1)));
    law_time_goes_into_steps(r, saved, step, MAX_STEPS as nat);
    let g = Vec2 { x: lit(0, 1), y: prod(lit(1200, 1), liquid.g_scale) };
    let steps = steps_in(saved, step, MAX_STEPS as nat);
    assert(liquid.advanced(dt).sim == liquid.sim.run(steps, step, g, liquid.bounds));
    (step, g)
}

/// A frame of the water runs the steps that its time holds, each of a hundred and twentieth
/// of a second, and draws the particles with their height counted from the top of the basin
/// down. The step is returned.
pub proof fn law_frame_runs_the_water<T: Scalar>(
    r: Reading<T>,
    water: FlipBackendModel<T>,
    dt: T,
) -> (step: T)
    requires
        r.sound(),
        r.never_rounds(),
        water.valid(),
        r.is(water.sim.h),
        r.is(water.accum) && 0real <= r.at(water.accum),
        r.is(dt) && 0real <= r.at(dt),
    ensures
        ({
            let after = water.advanced(dt);
            let time = r.at(water.accum) + smaller(r.at(dt), 1real / 20real);
            let top = water.sim.ny as real * r.at(water.sim.h);
            &&& r.means(step, 1real / 120real)
            &&& exists|steps: nat|
                after.sim == #[trigger] water.sim.run(steps, step) && (steps as real * r.at(step)
                    + r.at(after.accum) == time || steps == MAX_STEPS)
            &&& after.vel == after.sim.vel
            &&& after.pos.len() == after.sim.pos.len()
            &&& forall|i: int|
                0 <= i < after.pos.len() && r.is_vec(after.sim.pos[i]) ==> r.at(
                    (#[trigger] after.pos[i]).x,
                ) == r.at(after.sim.pos[i].x) && r.at(after.pos[i].y) + r.at(after.sim.pos[i].y)
                    == top
        }),
{
    assert(r.fits(1i32 as real / 120i32 as real));
    assert(r.fits(5i32 as real / 100i32 as real));
    lemma_literal(r, 1, 120);
    lemma_literal(r, 5, 100);
    let step = lit::<T>(1, 120);
    let saved = saved_up(water.accum, dt);
    assert(r.is(saved));
    law_time_goes_into_steps(r, saved, step, MAX_STEPS as nat);
    let steps = steps_in(saved, step, MAX_STEPS as nat);
    let after = water.advanced(dt);
    assert(after.sim == water.sim.run(steps, step));
    let ny = water.sim.ny as usize;
    assert(r.fits(ny as real));
    assert(r.means(count::<T>(ny), water.sim.ny as real));
    assert(r.is(stretch(water.sim.ny, water.sim.h)));
    step
}

/// The frame rate that is shown goes a tenth of the way, each frame, to that of the frame,
/// whose time counts as a ten-thousandth of a second at least.
pub proof fn law_frame_rate_is_smoothed<T: Scalar>(r: Reading<T>, shell: Shell<T>, dt: T)
    requires
        r.sound(),
        r.never_rounds(),
        r.is(shell.fps),
        r.is(dt),
    ensures
        ({
            let frame = 1real / larger(r.at(dt), 1real / 10000real);
            let rate = shell.rate(dt);
            &&& r.is(rate)
            &&& 10real * (r.at(rate) - r.at(shell.fps)) == frame - r.at(shell.fps)
        }),
{
    assert(r.fits(9i32 as real / 10i32 as real));
    assert(r.fits(1i32 as real / 1i32 as real));
    assert(r.fits(1i32 as real / 10i32 as real));
    assert(r.fits(1i32 as real / 10000i32 as real));
    lemma_literal(r, 9, 10);
    lemma_literal(r, 1, 1);
    lemma_literal(r, 1, 10);
    lemma_literal(r, 1, 10000);
    let t = greater(dt, lit(1, 10000));
    assert(r.is(t));
    let frame = quot(lit(1, 1), t);
    assert(r.means(frame, 1real / r.at(t)));
    assert(r.means(prod(shell.fps, lit(9, 10)), r.at(shell.fps) * (9real / 10real)));
    assert(r.means(prod(frame, lit(1, 10)), r.at(frame) * (1real / 10real)));
}

} // verus!
