//! The solvers that run on the main processor, driven by input: each frame turns
//! keys and mouse into forces, advances the solver, and leaves behind what is to
//! be drawn.

use crate::flip::FlipSim;
use crate::gpu::backend::{Input, Key};
use crate::gpu::clock::drain;
use crate::gpu::context::SurfaceSize;
use crate::gpu::controls::{pull, DotParams};
use crate::layout::filled;
use crate::scalar::Scalar;
use crate::sim::{Bounds, Shape, Sim};
use crate::smoke::Smoke;
use crate::vec2::{vec2, Vec2};
#[allow(unused_imports)]
use crate::flip::{law_step_keeps_the_water, stretch, FlipModel, FlipSettings};
#[allow(unused_imports)]
use crate::gpu::backend::InputModel;
#[allow(unused_imports)]
use crate::gpu::clock::{rest_of, saved_up, steps_in};
#[allow(unused_imports)]
use crate::gpu::controls::pulled;
#[allow(unused_imports)]
use crate::layout::{lemma_col_row_of_place, lemma_place_in_grid, place};
#[allow(unused_imports)]
use crate::neighbors::indexable;
#[allow(unused_imports)]
use crate::scalar::{
    count, diff, exact, exact_exp, exact_powi, exponential, greater, lesser, lit, lt, neg, octet,
    prod, quot, sum, whole,
};
#[allow(unused_imports)]
use crate::sim::{girth, law_step_keeps_the_fluid, SimModel};
#[allow(unused_imports)]
use crate::smoke::SmokeModel;
#[allow(unused_imports)]
use crate::vec2::as_vectors;
use vstd::prelude::*;

verus! {

/// Steps that a frame takes at most.
pub const MAX_STEPS: usize = 40;

/// The liquid of smoothed particles, with its controls.
#[verifier::ext_equal]
pub struct SphCpuModel<T> {
    pub sim: SimModel<T>,
    pub bounds: Bounds<T>,
    pub g_scale: T,
    pub accum: T,
    pub pos: Seq<Vec2<T>>,
    pub vel: Seq<Vec2<T>>,
}

impl<T: Scalar> SphCpuModel<T> {
    /// The solver is sound, and the grid over the container can be indexed.
    pub open spec fn valid(self) -> bool {
        &&& self.sim.valid()
        &&& indexable(self.bounds)
    }

    /// The container that covers a surface of the given size.
    pub open spec fn container(size: SurfaceSize) -> Bounds<T> {
        Bounds {
            w: count(size.width as usize),
            h: count(size.height as usize),
            shape: Shape::Rect,
        }
    }

    /// The liquid at the start, in a container that covers the surface.
    pub open spec fn initial(size: SurfaceSize) -> SphCpuModel<T> {
        let bounds = Self::container(size);
        SphCpuModel {
            sim: SimModel::initial(bounds.w, bounds.h),
            bounds,
            g_scale: lit(1, 1),
            accum: lit(0, 1),
            pos: seq![],
            vel: seq![],
        }
    }

    /// The liquid shaken: by the left and right keys sideways, by the space bar
    /// upward.
    pub open spec fn jolted(self, input: InputModel<T>) -> SimModel<T> {
        let zero = lit::<T>(0, 1);
        let a = if input.pressed.contains(Key::ArrowLeft) {
            self.sim.shaken(Vec2 { x: neg(lit(650, 1)), y: zero })
        } else {
            self.sim
        };
        let b = if input.pressed.contains(Key::ArrowRight) {
            a.shaken(Vec2 { x: lit(650, 1), y: zero })
        } else {
            a
        };
        if input.pressed.contains(Key::Space) {
            b.shaken(Vec2 { x: zero, y: neg(lit(650, 1)) })
        } else {
            b
        }
    }

    /// The controls of a frame of `dt` seconds applied.
    pub open spec fn controlled(self, dt: T, input: InputModel<T>) -> SphCpuModel<T> {
        let bounds = if input.pressed.contains(Key::KeyC) {
            Bounds { shape: self.bounds.shape.other(), ..self.bounds }
        } else {
            self.bounds
        };
        let reset = input.pressed.contains(Key::KeyR);
        SphCpuModel {
            sim: if reset {
                self.jolted(input).spawned(bounds.w, bounds.h)
            } else {
                self.jolted(input)
            },
            bounds,
            g_scale: if reset {
                lit(1, 1)
            } else {
                pulled(self.g_scale, dt, input)
            },
            ..self
        }
    }

    /// The time of a frame of `dt` seconds turned into steps, and the particles
    /// laid out to be drawn.
    pub open spec fn advanced(self, dt: T) -> SphCpuModel<T> {
        let step = lit(8, 10000);
        let saved = sum(self.accum, prod(lesser(dt, lit(5, 100)), lit(1, 1)));
        let gravity = Vec2 { x: lit(0, 1), y: prod(lit(1200, 1), self.g_scale) };
        let sim = self.sim.run(
            steps_in(saved, step, MAX_STEPS as nat),
            step,
            gravity,
            self.bounds,
        );
        SphCpuModel {
            sim,
            accum: rest_of(saved, step, MAX_STEPS as nat),
            pos: sim.pos,
            vel: sim.vel,
            ..self
        }
    }

    /// The liquid after a frame of `dt` seconds.
    pub open spec fn updated(self, dt: T, input: InputModel<T>) -> SphCpuModel<T> {
        self.controlled(dt, input).advanced(dt)
    }
}

/// The liquid of smoothed particles, with its controls.
pub struct SphCpuBackend<T> {
    sim: Sim<T>,
    bounds: Bounds<T>,
    g_scale: T,
    accum: T,
    pos: Vec<[T; 2]>,
    vel: Vec<[T; 2]>,
}

impl<T: Scalar> View for SphCpuBackend<T> {
    type V = SphCpuModel<T>;

    closed spec fn view(&self) -> SphCpuModel<T> {
        SphCpuModel {
            sim: self.sim@,
            bounds: self.bounds,
            g_scale: self.g_scale,
            accum: self.accum,
            pos: as_vectors(self.pos@),
            vel: as_vectors(self.vel@),
        }
    }
}

impl<T: Scalar> SphCpuBackend<T> {
    /// Liquid in a container that covers a surface of the given size.
    pub fn new(size: SurfaceSize) -> (b: Self)
        requires
            exact::<T>(),
            exact_powi::<T>(),
            indexable(SphCpuModel::<T>::container(size)),
        ensures
            b@ == SphCpuModel::<T>::initial(size),
            b@.valid(),
    {
        let (w, h): (T, T) = (
            T::of_count(size.width as usize),
            T::of_count(size.height as usize),
        );
        let b = SphCpuBackend {
            sim: Sim::new(w, h),
            bounds: Bounds { w, h, shape: Shape::Rect },
            g_scale: T::ratio(1, 1),
            accum: T::ratio(0, 1),
            pos: Vec::new(),
            vel: Vec::new(),
        };
        assert(b@ =~= SphCpuModel::<T>::initial(size));
        b
    }

    /// Advance the liquid by a frame of `dt_real` seconds.
    pub fn update(&mut self, dt_real: T, input: &Input<T>)
        requires
            exact::<T>(),
            exact_powi::<T>(),
            old(self)@.valid(),
        ensures
            final(self)@ == old(self)@.updated(dt_real, input@),
            final(self)@.valid(),
    {
        self.control(dt_real, input);
        self.advance(dt_real);
    }

    /// Apply the controls of a frame.
    fn control(&mut self, dt_real: T, input: &Input<T>)
        requires
            exact::<T>(),
            old(self)@.valid(),
        ensures
            final(self)@ == old(self)@.controlled(dt_real, input@),
            final(self)@.valid(),
    {
        let zero: T = T::ratio(0, 1);
        let shake: T = T::ratio(650, 1);
        if input.pressed(Key::ArrowLeft) {
            self.sim.add_impulse(vec2(shake.negate(), zero));
        }
        if input.pressed(Key::ArrowRight) {
            self.sim.add_impulse(vec2(shake, zero));
        }
        if input.pressed(Key::Space) {
            self.sim.add_impulse(vec2(zero, shake.negate()));
        }
        assert(self.sim@ == old(self)@.jolted(input@));
        self.g_scale = pull(self.g_scale, dt_real, input);
        if input.pressed(Key::KeyC) {
            self.bounds.shape = self.bounds.shape.toggled();
        }
        if input.pressed(Key::KeyR) {
            self.g_scale = T::ratio(1, 1);
            self.sim.reset(self.bounds.w, self.bounds.h);
        }
        assert(self@ =~= old(self)@.controlled(dt_real, input@));
    }

    /// Turn the time of a frame into steps.
    fn advance(&mut self, dt_real: T)
        requires
            exact::<T>(),
            exact_powi::<T>(),
            old(self)@.valid(),
        ensures
            final(self)@ == old(self)@.advanced(dt_real),
            final(self)@.valid(),
    {
        let ghost start = self.sim@;
        let gravity: Vec2<T> = vec2(T::ratio(0, 1), T::ratio(1200, 1).times(self.g_scale));
        let dt: T = T::ratio(8, 10000);
        let saved: T = self.accum.plus(dt_real.lower(T::ratio(5, 100)).times(T::ratio(1, 1)));
        let (steps, rest): (usize, T) = drain(saved, dt, MAX_STEPS);
        let bounds: Bounds<T> = self.bounds;
        let mut k: usize = 0;
        while k < steps
            invariant
                exact::<T>(),
                exact_powi::<T>(),
                k <= steps,
                indexable(bounds),
                self.bounds == old(self).bounds,
                self.g_scale == old(self).g_scale,
                self.sim@.valid(),
                self.sim@ == start.run(k as nat, dt, gravity, bounds),
            decreases steps - k,
        {
            self.sim.step(dt, gravity, &bounds);
            k = k + 1;
        }
        self.accum = rest;
        self.pos = self.sim.positions_xy();
        self.vel = self.sim.velocities_xy();
        assert(self@ =~= old(self)@.advanced(dt_real));
    }

    /// Positions and velocities to be drawn.
    pub fn dots(&self) -> (list: (&Vec<[T; 2]>, &Vec<[T; 2]>))
        ensures
            as_vectors(list.0@) == self@.pos,
            as_vectors(list.1@) == self@.vel,
    {
        (&self.pos, &self.vel)
    }

    /// How the particles are drawn.
    pub fn dot_params(&self) -> (params: DotParams<T>)
        requires
            exact::<T>(),
        ensures
            params == (DotParams {
                capacity: self@.sim.pos.len() as u32,
                domain_w: self@.bounds.w,
                domain_h: self@.bounds.h,
                radius: prod(girth(), lit(85, 100)),
                max_speed: lit(450, 1),
            }),
    {
        let radius: T = T::ratio(16, 1).times(T::ratio(1, 2));
        DotParams {
            capacity: self.sim.len() as u32,
            domain_w: self.bounds.w,
            domain_h: self.bounds.h,
            radius: radius.times(T::ratio(85, 100)),
            max_speed: T::ratio(450, 1),
        }
    }

    /// Display name.
    pub fn name(&self) -> (name: &'static str)
        ensures
            name@ == "CPU SPH"@,
    {
        "CPU SPH"
    }

    /// Number of particles.
    pub fn num(&self) -> (n: usize)
        ensures
            n == self@.sim.pos.len(),
    {
        self.sim.len()
    }

    /// Strength of gravity.
    pub fn gravity_scale(&self) -> (g: T)
        ensures
            g == self@.g_scale,
    {
        self.g_scale
    }

    /// Set the strength of gravity.
    pub fn set_gravity_scale(&mut self, g: T)
        ensures
            final(self)@ == (SphCpuModel { g_scale: g, ..old(self)@ }),
    {
        self.g_scale = g;
    }

    /// Change the shape of the container.
    pub fn toggle_shape(&mut self)
        ensures
            final(self)@ == (SphCpuModel {
                bounds: Bounds { shape: old(self)@.bounds.shape.other(), ..old(self)@.bounds },
                ..old(self)@
            }),
            old(self)@.valid() ==> final(self)@.valid(),
    {
        self.bounds.shape = self.bounds.shape.toggled();
    }
}

/// Cells along a side of the smoke.
pub const SMOKE_N: usize = 128;

/// `x` held to the cells of the smoke.
pub open spec fn hold(x: int) -> int {
    if x < 1 {
        1
    } else if x > SMOKE_N {
        SMOKE_N as int
    } else {
        x
    }
}

/// `x` held to the cells of the smoke.
fn hold_cell(x: i64) -> (c: usize)
    ensures
        c == hold(x as int),
        1 <= c <= SMOKE_N,
{
    if x < 1 {
        1
    } else if x > SMOKE_N as i64 {
        SMOKE_N
    } else {
        x as usize
    }
}

/// Part of a side of `side` pixels that `x` pixels are, in cells.
pub open spec fn in_cells<T: Scalar>(x: T, side: u32) -> T {
    prod(quot(x, count(side as usize)), count(SMOKE_N))
}

/// Cell of the smoke that pixel `(px, py)` of the surface shows. Rows count from
/// the bottom.
pub open spec fn cell_at<T: Scalar>(px: T, py: T, size: SurfaceSize) -> (int, int) {
    (
        hold(whole(in_cells(px, size.width)) + 1),
        hold(SMOKE_N - whole(in_cells(py, size.height))),
    )
}

/// `smoke` with the first `upto` of the cells of the source at the bottom fed: a
/// patch seven cells wide and three high.
pub open spec fn sourced<T: Scalar>(smoke: SmokeModel<T>, upto: nat) -> SmokeModel<T>
    decreases upto,
{
    if upto == 0 {
        smoke
    } else {
        let m = upto - 1;
        let i = hold(SMOKE_N / 2 + m % 7 - 3) as usize;
        let j = (4 + m / 7) as usize;
        sourced(smoke, m as nat).fed(i, j, lit(40, 1)).pushed(i, j, lit(0, 1), lit(6, 1))
    }
}

/// `smoke` with the first `upto` of the cells around `(ci, cj)` fed and pushed: a
/// patch five cells wide and five high, held to the grid.
pub open spec fn painted<T: Scalar>(
    smoke: SmokeModel<T>,
    ci: int,
    cj: int,
    dv: Vec2<T>,
    upto: nat,
) -> SmokeModel<T>
    decreases upto,
{
    if upto == 0 {
        smoke
    } else {
        let m = upto - 1;
        let i = hold(ci + m % 5 - 2) as usize;
        let j = hold(cj + m / 5 - 2) as usize;
        painted(smoke, ci, cj, dv, m as nat).fed(i, j, lit(60, 1)).pushed(i, j, dv.x, dv.y)
    }
}

/// Brightness of smoke of the given density.
pub open spec fn brightness<T: Scalar>(d: T) -> u8 {
    octet(
        prod(
            diff(lit(1, 1), exponential(prod(neg(greater(d, lit(0, 1))), lit(15, 10)))),
            lit(255, 1),
        ),
    )
}

/// Byte `ch` of a pixel that shows smoke of the given density: a little bluish,
/// and in front of everything.
pub open spec fn shade<T: Scalar>(d: T, ch: int) -> u8 {
    let b = brightness(d);
    if ch == 0 {
        octet(prod(count::<T>(b as usize), lit(9, 10)))
    } else if ch == 1 {
        octet(prod(count::<T>(b as usize), lit(95, 100)))
    } else if ch == 2 {
        b
    } else {
        255
    }
}

/// The picture of the smoke, from the top row down.
pub open spec fn painting<T: Scalar>(smoke: SmokeModel<T>) -> Seq<u8> {
    Seq::new(
        (SMOKE_N * SMOKE_N * 4) as nat,
        |k: int|
            {
                let q = k / 4;
                let (x, y) = (q % (SMOKE_N as int), q / (SMOKE_N as int));
                shade(smoke.dens[place(x + 1, SMOKE_N - y, smoke.n + 2)], k % 4)
            },
    )
}

/// The smoke, with its controls.
#[verifier::ext_equal]
pub struct SmokeBackendModel<T> {
    pub smoke: SmokeModel<T>,
    pub rgba: Seq<u8>,
    pub source_on: bool,
}

impl<T: Scalar> SmokeBackendModel<T> {
    /// The solver is sound and has the grid that is drawn.
    pub open spec fn valid(self) -> bool {
        &&& self.smoke.valid()
        &&& self.smoke.n == SMOKE_N
        &&& self.rgba.len() == SMOKE_N * SMOKE_N * 4
    }

    /// Clear air, with the source on.
    pub open spec fn initial() -> SmokeBackendModel<T> {
        SmokeBackendModel {
            smoke: SmokeModel::initial(SMOKE_N as int),
            rgba: Seq::new((SMOKE_N * SMOKE_N * 4) as nat, |k: int| 0u8),
            source_on: true,
        }
    }

    /// The vorticity confinement turned on or off.
    pub open spec fn swirled(self, on: bool) -> SmokeBackendModel<T> {
        let vorticity = if on {
            lit(3, 1)
        } else {
            lit(0, 1)
        };
        SmokeBackendModel { smoke: SmokeModel { vorticity, ..self.smoke }, ..self }
    }

    /// The keys of a frame applied.
    pub open spec fn controlled(self, input: InputModel<T>) -> SmokeBackendModel<T> {
        let a = if input.pressed.contains(Key::KeyV) {
            self.swirled(!lt(lit(0, 1), self.smoke.vorticity))
        } else {
            self
        };
        SmokeBackendModel {
            smoke: if input.pressed.contains(Key::KeyR) {
                a.smoke.calmed()
            } else {
                a.smoke
            },
            source_on: if input.pressed.contains(Key::KeyS) {
                !self.source_on
            } else {
                self.source_on
            },
            ..a
        }
    }

    /// Velocity that dragging the mouse gives the air.
    pub open spec fn wind(input: InputModel<T>, size: SurfaceSize) -> Vec2<T> {
        Vec2 {
            x: prod(in_cells(input.drag().0, size.width), lit(3, 1)),
            y: prod(in_cells(neg(input.drag().1), size.height), lit(3, 1)),
        }
    }

    /// The smoke of the source and of the mouse let in.
    pub open spec fn fed(self, input: InputModel<T>, size: SurfaceSize) -> SmokeBackendModel<T> {
        let a = if self.source_on {
            sourced(self.smoke, 21)
        } else {
            self.smoke
        };
        let c = cell_at(input.mouse.0, input.mouse.1, size);
        SmokeBackendModel {
            smoke: if input.mouse_down {
                painted(a, c.0, c.1, Self::wind(input, size), 25)
            } else {
                a
            },
            ..self
        }
    }

    /// The smoke after a frame of `dt` seconds, of which no more than a thirtieth
    /// of a second counts, and its picture.
    pub open spec fn updated(self, dt: T, input: InputModel<T>, size: SurfaceSize)
        -> SmokeBackendModel<T> {
        let a = self.controlled(input).fed(input, size);
        let smoke = a.smoke.stepped(lesser(dt, lit(1, 30)));
        SmokeBackendModel { smoke, rgba: painting(smoke), ..a }
    }
}

/// The smoke, with its controls.
pub struct SmokeBackend<T> {
    smoke: Smoke<T>,
    rgba: Vec<u8>,
    source_on: bool,
}

impl<T: Scalar> View for SmokeBackend<T> {
    type V = SmokeBackendModel<T>;

    closed spec fn view(&self) -> SmokeBackendModel<T> {
        SmokeBackendModel {
            smoke: self.smoke@,
            rgba: self.rgba@,
            source_on: self.source_on,
        }
    }
}

impl<T: Scalar> SmokeBackend<T> {
    /// Clear air, with the source on.
    pub fn new() -> (b: Self)
        requires
            exact::<T>(),
        ensures
            b@ == SmokeBackendModel::<T>::initial(),
            b@.valid(),
    {
        let b = SmokeBackend {
            smoke: Smoke::new(SMOKE_N),
            rgba: filled(0u8, SMOKE_N * SMOKE_N * 4),
            source_on: true,
        };
        assert(b@ =~= SmokeBackendModel::<T>::initial());
        b
    }

    /// Cell of the smoke that pixel `(px, py)` of the surface shows.
    pub fn cell(px: T, py: T, size: SurfaceSize) -> (c: (usize, usize))
        requires
            exact::<T>(),
        ensures
            c.0 == cell_at(px, py, size).0,
            c.1 == cell_at(px, py, size).1,
            1 <= c.0 <= SMOKE_N,
            1 <= c.1 <= SMOKE_N,
    {
        let n: T = T::of_count(SMOKE_N);
        let x: i32 = px.over(T::of_count(size.width as usize)).times(n).to_i32();
        let y: i32 = py.over(T::of_count(size.height as usize)).times(n).to_i32();
        (hold_cell(x as i64 + 1), hold_cell(SMOKE_N as i64 - y as i64))
    }

    /// Advance the smoke by a frame of `dt_real` seconds.
    pub fn update(&mut self, dt_real: T, input: &Input<T>, size: SurfaceSize)
        requires
            exact::<T>(),
            exact_exp::<T>(),
            old(self)@.valid(),
        ensures
            final(self)@ == old(self)@.updated(dt_real, input@, size),
            final(self)@.valid(),
    {
        let dt: T = dt_real.lower(T::ratio(1, 30));
        self.control(input);
        self.feed(input, size);
        self.smoke.step(dt);
        self.paint();
    }

    /// Apply the keys of a frame.
    fn control(&mut self, input: &Input<T>)
        requires
            exact::<T>(),
            old(self)@.valid(),
        ensures
            final(self)@ == old(self)@.controlled(input@),
            final(self)@.valid(),
    {
        if input.pressed(Key::KeyS) {
            self.source_on = !self.source_on;
        }
        if input.pressed(Key::KeyV) {
            let on: bool = T::ratio(0, 1).below(self.smoke.swirl());
            self.set_vorticity(!on);
        }
        if input.pressed(Key::KeyR) {
            self.smoke.reset();
        }
        assert(self@ =~= old(self)@.controlled(input@));
    }

    /// Let in the smoke of the source and of the mouse.
    fn feed(&mut self, input: &Input<T>, size: SurfaceSize)
        requires
            exact::<T>(),
            old(self)@.valid(),
        ensures
            final(self)@ == old(self)@.fed(input@, size),
            final(self)@.valid(),
    {
        if self.source_on {
            self.feed_source();
        }
        if input.dragging() {
            let (px, py): (T, T) = input.pointer();
            let (ci, cj): (usize, usize) = Self::cell(px, py, size);
            let (dx, dy): (T, T) = input.mouse_delta();
            let n: T = T::of_count(SMOKE_N);
            let three: T = T::ratio(3, 1);
            let dvx: T = dx.over(T::of_count(size.width as usize)).times(n).times(three);
            let dvy: T = dy.negate().over(T::of_count(size.height as usize)).times(n).times(three);
            self.feed_patch(ci, cj, vec2(dvx, dvy));
        }
        assert(self@ =~= old(self)@.fed(input@, size));
    }

    /// Feed the cells of the source.
    fn feed_source(&mut self)
        requires
            exact::<T>(),
            old(self)@.valid(),
        ensures
            final(self)@ == (SmokeBackendModel { smoke: sourced(old(self)@.smoke, 21), ..old(self)@
            }),
            final(self)@.valid(),
    {
        let ghost start = self.smoke@;
        let (zero, amount, lift): (T, T, T) = (T::ratio(0, 1), T::ratio(40, 1), T::ratio(6, 1));
        let mut m: usize = 0;
        while m < 21
            invariant
                exact::<T>(),
                m <= 21,
                zero == lit::<T>(0, 1),
                amount == lit::<T>(40, 1),
                lift == lit::<T>(6, 1),
                self.rgba == old(self).rgba,
                self.source_on == old(self).source_on,
                self@.valid(),
                self.smoke@ == sourced(start, m as nat),
            decreases 21 - m,
        {
            let i: usize = hold_cell((SMOKE_N / 2) as i64 + (m % 7) as i64 - 3);
            let j: usize = 4 + m / 7;
            self.smoke.add_density(i, j, amount);
            self.smoke.add_velocity(i, j, zero, lift);
            m = m + 1;
        }
    }

    /// Feed and push the cells around `(ci, cj)`.
    fn feed_patch(&mut self, ci: usize, cj: usize, dv: Vec2<T>)
        requires
            exact::<T>(),
            old(self)@.valid(),
            ci <= SMOKE_N,
            cj <= SMOKE_N,
        ensures
            final(self)@ == (SmokeBackendModel {
                smoke: painted(old(self)@.smoke, ci as int, cj as int, dv, 25),
                ..old(self)@
            }),
            final(self)@.valid(),
    {
        let ghost start = self.smoke@;
        let amount: T = T::ratio(60, 1);
        let mut m: usize = 0;
        while m < 25
            invariant
                exact::<T>(),
                m <= 25,
                ci <= SMOKE_N,
                cj <= SMOKE_N,
                amount == lit::<T>(60, 1),
                self.rgba == old(self).rgba,
                self.source_on == old(self).source_on,
                self@.valid(),
                self.smoke@ == painted(start, ci as int, cj as int, dv, m as nat),
            decreases 25 - m,
        {
            let i: usize = hold_cell(ci as i64 + (m % 5) as i64 - 2);
            let j: usize = hold_cell(cj as i64 + (m / 5) as i64 - 2);
            self.smoke.add_density(i, j, amount);
            self.smoke.add_velocity(i, j, dv.x, dv.y);
            m = m + 1;
        }
    }

    /// Draw the smoke into the picture.
    fn paint(&mut self)
        requires
            exact::<T>(),
            exact_exp::<T>(),
            old(self)@.valid(),
        ensures
            final(self)@ == (SmokeBackendModel { rgba: painting(old(self)@.smoke), ..old(self)@ }),
            final(self)@.valid(),
    {
        let ghost smoke = self.smoke@;
        let ghost want = painting(smoke);
        let mut q: usize = 0;
        while q < SMOKE_N * SMOKE_N
            invariant
                exact::<T>(),
                exact_exp::<T>(),
                q <= SMOKE_N * SMOKE_N,
                smoke == old(self).smoke@,
                self.smoke@ == smoke,
                smoke.valid(),
                smoke.n == SMOKE_N,
                want == painting(smoke),
                self.source_on == old(self).source_on,
                self.rgba@.len() == SMOKE_N * SMOKE_N * 4,
                forall|k: int| 0 <= k < 4 * q ==> #[trigger] self.rgba@[k] == want[k],
            decreases SMOKE_N * SMOKE_N - q,
        {
            let (x, y): (usize, usize) = (q % SMOKE_N, q / SMOKE_N);
            proof {
                lemma_place_in_grid(x + 1, SMOKE_N - y, smoke.n + 2, smoke.n + 2);
            }
            let d: T = self.smoke.density_at(x + 1, SMOKE_N - y).upper(T::ratio(0, 1));
            let glow: T = T::ratio(1, 1).minus(d.negate().times(T::ratio(15, 10)).exp());
            let b: u8 = glow.times(T::ratio(255, 1)).to_u8();
            let level: T = T::of_count(b as usize);
            let red: u8 = level.times(T::ratio(9, 10)).to_u8();
            let green: u8 = level.times(T::ratio(95, 100)).to_u8();
            let k: usize = q * 4;
            self.rgba.set(k, red);
            self.rgba.set(k + 1, green);
            self.rgba.set(k + 2, b);
            self.rgba.set(k + 3, 255);
            q = q + 1;
        }
        assert(self.rgba@ =~= want);
    }

    /// The picture, four bytes to a pixel, from the top row down.
    pub fn picture(&self) -> (rgba: &Vec<u8>)
        ensures
            rgba@ == self@.rgba,
    {
        &self.rgba
    }

    /// Display name.
    pub fn name(&self) -> (name: &'static str)
        ensures
            name@ == "smoke"@,
    {
        "smoke"
    }

    /// Whether the source is on.
    pub fn has_source(&self) -> (on: bool)
        ensures
            on == self@.source_on,
    {
        self.source_on
    }

    /// Turn the source on or off.
    pub fn set_source(&mut self, on: bool)
        ensures
            final(self)@ == (SmokeBackendModel { source_on: on, ..old(self)@ }),
    {
        self.source_on = on;
    }

    /// Whether vorticity is confined.
    pub fn has_vorticity(&self) -> (on: bool)
        requires
            exact::<T>(),
        ensures
            on == lt(lit(0, 1), self@.smoke.vorticity),
    {
        T::ratio(0, 1).below(self.smoke.swirl())
    }

    /// Turn the vorticity confinement on or off.
    pub fn set_vorticity(&mut self, on: bool)
        requires
            exact::<T>(),
        ensures
            final(self)@ == old(self)@.swirled(on),
            old(self)@.valid() ==> final(self)@.valid(),
    {
        let strength: T = if on {
            T::ratio(3, 1)
        } else {
            T::ratio(0, 1)
        };
        self.smoke.set_swirl(strength);
    }
}

/// Cells along a side of the basin.
pub const FLIP_NX: usize = 80;

/// Cells from the floor of the basin to its top.
pub const FLIP_NY: usize = 80;

/// The water, with its controls.
#[verifier::ext_equal]
pub struct FlipBackendModel<T> {
    pub sim: FlipModel<T>,
    pub g_scale: T,
    pub accum: T,
    pub pos: Seq<Vec2<T>>,
    pub vel: Seq<Vec2<T>>,
}

impl<T: Scalar> FlipBackendModel<T> {
    /// The solver is sound, and its basin is that of the backend.
    pub open spec fn valid(self) -> bool {
        &&& self.sim.valid()
        &&& self.sim.nx == FLIP_NX
        &&& self.sim.ny == FLIP_NY
    }

    /// The water at the start.
    pub open spec fn initial() -> FlipBackendModel<T> {
        FlipBackendModel {
            sim: FlipModel::initial(FLIP_NX as int, FLIP_NY as int, lit(1, 1)),
            g_scale: lit(1, 1),
            accum: lit(0, 1),
            pos: seq![],
            vel: seq![],
        }
    }

    /// The water shaken: by the left and right keys sideways, by the space bar
    /// upward.
    pub open spec fn jolted(self, input: InputModel<T>) -> FlipModel<T> {
        let zero = lit::<T>(0, 1);
        let a = if input.pressed.contains(Key::ArrowLeft) {
            self.sim.shaken(Vec2 { x: neg(lit(14, 1)), y: zero })
        } else {
            self.sim
        };
        let b = if input.pressed.contains(Key::ArrowRight) {
            a.shaken(Vec2 { x: lit(14, 1), y: zero })
        } else {
            a
        };
        if input.pressed.contains(Key::Space) {
            b.shaken(Vec2 { x: zero, y: lit(14, 1) })
        } else {
            b
        }
    }

    /// The keys of a frame of `dt` seconds applied, and gravity set.
    pub open spec fn controlled(self, dt: T, input: InputModel<T>) -> FlipBackendModel<T> {
        let reset = input.pressed.contains(Key::KeyR);
        let g_scale = if reset {
            lit(1, 1)
        } else {
            pulled(self.g_scale, dt, input)
        };
        let sim = if reset {
            self.jolted(input).spawned()
        } else {
            self.jolted(input)
        };
        FlipBackendModel {
            sim: FlipModel {
                cfg: FlipSettings {
                    gravity: Vec2 { x: lit(0, 1), y: prod(neg(lit(9, 1)), g_scale) },
                    ..sim.cfg
                },
                ..sim
            },
            g_scale,
            ..self
        }
    }

    /// Point of the basin that pixel `(px, py)` of the surface shows.
    pub open spec fn point_at(self, px: T, py: T, size: SurfaceSize) -> Vec2<T> {
        Vec2 {
            x: prod(quot(px, count(size.width as usize)), stretch(self.sim.nx, self.sim.h)),
            y: prod(
                diff(lit(1, 1), quot(py, count(size.height as usize))),
                stretch(self.sim.ny, self.sim.h),
            ),
        }
    }

    /// Velocity that dragging the mouse gives the water.
    pub open spec fn current(self, input: InputModel<T>, size: SurfaceSize) -> Vec2<T> {
        let step = lit(1, 120);
        Vec2 {
            x: prod(
                quot(
                    prod(
                        quot(input.drag().0, count(size.width as usize)),
                        stretch(self.sim.nx, self.sim.h),
                    ),
                    step,
                ),
                lit(2, 100),
            ),
            y: prod(
                quot(
                    prod(
                        quot(neg(input.drag().1), count(size.height as usize)),
                        stretch(self.sim.ny, self.sim.h),
                    ),
                    step,
                ),
                lit(2, 100),
            ),
        }
    }

    /// The water around the mouse pushed along.
    pub open spec fn dragged(self, input: InputModel<T>, size: SurfaceSize) -> FlipBackendModel<T> {
        if input.mouse_down {
            FlipBackendModel {
                sim: self.sim.nudged(
                    self.point_at(input.mouse.0, input.mouse.1, size),
                    self.current(input, size),
                    prod(stretch(self.sim.ny, self.sim.h), lit(12, 100)),
                ),
                ..self
            }
        } else {
            self
        }
    }

    /// The time of a frame of `dt` seconds turned into steps, and the particles
    /// laid out to be drawn, from the top down.
    pub open spec fn advanced(self, dt: T) -> FlipBackendModel<T> {
        let step = lit(1, 120);
        let saved = saved_up(self.accum, dt);
        let sim = self.sim.run(steps_in(saved, step, MAX_STEPS as nat), step);
        FlipBackendModel {
            sim,
            accum: rest_of(saved, step, MAX_STEPS as nat),
            pos: turned(sim.pos, stretch(self.sim.ny, self.sim.h)),
            vel: sim.vel,
            ..self
        }
    }

    /// The water after a frame of `dt` seconds.
    pub open spec fn updated(self, dt: T, input: InputModel<T>, size: SurfaceSize)
        -> FlipBackendModel<T> {
        self.controlled(dt, input).dragged(input, size).advanced(dt)
    }
}

/// Points with their height counted from a ceiling at `top` down.
pub open spec fn turned<T: Scalar>(pos: Seq<Vec2<T>>, top: T) -> Seq<Vec2<T>> {
    Seq::new(pos.len(), |i: int| Vec2 { x: pos[i].x, y: diff(top, pos[i].y) })
}

/// The water, with its controls.
pub struct FlipBackend<T> {
    sim: FlipSim<T>,
    g_scale: T,
    accum: T,
    pos: Vec<[T; 2]>,
    vel: Vec<[T; 2]>,
}

impl<T: Scalar> View for FlipBackend<T> {
    type V = FlipBackendModel<T>;

    closed spec fn view(&self) -> FlipBackendModel<T> {
        FlipBackendModel {
            sim: self.sim@,
            g_scale: self.g_scale,
            accum: self.accum,
            pos: as_vectors(self.pos@),
            vel: as_vectors(self.vel@),
        }
    }
}

impl<T: Scalar> FlipBackend<T> {
    /// Water in its basin.
    pub fn new() -> (b: Self)
        requires
            exact::<T>(),
        ensures
            b@ == FlipBackendModel::<T>::initial(),
            b@.valid(),
    {
        let b = FlipBackend {
            sim: FlipSim::new(FLIP_NX, FLIP_NY, T::ratio(1, 1)),
            g_scale: T::ratio(1, 1),
            accum: T::ratio(0, 1),
            pos: Vec::new(),
            vel: Vec::new(),
        };
        assert(b@ =~= FlipBackendModel::<T>::initial());
        b
    }

    /// Advance the water by a frame of `dt_real` seconds.
    pub fn update(&mut self, dt_real: T, input: &Input<T>, size: SurfaceSize)
        requires
            exact::<T>(),
            old(self)@.valid(),
        ensures
            final(self)@ == old(self)@.updated(dt_real, input@, size),
            final(self)@.valid(),
    {
        self.control(dt_real, input);
        self.drag(input, size);
        self.advance(dt_real);
    }

    /// Apply the keys of a frame, and set gravity.
    fn control(&mut self, dt_real: T, input: &Input<T>)
        requires
            exact::<T>(),
            old(self)@.valid(),
        ensures
            final(self)@ == old(self)@.controlled(dt_real, input@),
            final(self)@.valid(),
    {
        let zero: T = T::ratio(0, 1);
        let shake: T = T::ratio(14, 1);
        if input.pressed(Key::ArrowLeft) {
            self.sim.add_impulse(shake.negate(), zero);
        }
        if input.pressed(Key::ArrowRight) {
            self.sim.add_impulse(shake, zero);
        }
        if input.pressed(Key::Space) {
            self.sim.add_impulse(zero, shake);
        }
        assert(self.sim@ == old(self)@.jolted(input@));
        self.g_scale = pull(self.g_scale, dt_real, input);
        if input.pressed(Key::KeyR) {
            self.g_scale = T::ratio(1, 1);
            self.sim.reset();
        }
        let gravity: [T; 2] = [zero, T::ratio(9, 1).negate().times(self.g_scale)];
        self.sim.config().gravity = gravity;
        assert(self@ =~= old(self)@.controlled(dt_real, input@));
    }

    /// Push the water around the mouse along.
    fn drag(&mut self, input: &Input<T>, size: SurfaceSize)
        requires
            exact::<T>(),
            old(self)@.valid(),
        ensures
            final(self)@ == old(self)@.dragged(input@, size),
            final(self)@.valid(),
    {
        if input.dragging() {
            let (w, h): (T, T) = self.sim.domain();
            let sw: T = T::of_count(size.width as usize);
            let sh: T = T::of_count(size.height as usize);
            let (px, py): (T, T) = input.pointer();
            let wx: T = px.over(sw).times(w);
            let wy: T = T::ratio(1, 1).minus(py.over(sh)).times(h);
            let (dx, dy): (T, T) = input.mouse_delta();
            let (dt, part): (T, T) = (T::ratio(1, 120), T::ratio(2, 100));
            let dvx: T = dx.over(sw).times(w).over(dt).times(part);
            let dvy: T = dy.negate().over(sh).times(h).over(dt).times(part);
            self.sim.push(wx, wy, dvx, dvy, h.times(T::ratio(12, 100)));
        }
        assert(self@ =~= old(self)@.dragged(input@, size));
    }

    /// Turn the time of a frame into steps.
    fn advance(&mut self, dt_real: T)
        requires
            exact::<T>(),
            old(self)@.valid(),
        ensures
            final(self)@ == old(self)@.advanced(dt_real),
            final(self)@.valid(),
    {
        let ghost start = self.sim@;
        let dt: T = T::ratio(1, 120);
        let saved: T = self.accum.plus(dt_real.lower(T::ratio(5, 100)));
        let (steps, rest): (usize, T) = drain(saved, dt, MAX_STEPS);
        let (_w, h): (T, T) = self.sim.domain();
        let mut k: usize = 0;
        while k < steps
            invariant
                exact::<T>(),
                k <= steps,
                self.g_scale == old(self).g_scale,
                self@.valid(),
                self.sim@.h == start.h,
                self.sim@ == start.run(k as nat, dt),
            decreases steps - k,
        {
            proof {
                law_step_keeps_the_water(self.sim@, dt);
            }
            self.sim.step(dt);
            k = k + 1;
        }
        self.accum = rest;
        self.vel = self.sim.velocities_xy();
        let mut pos: Vec<[T; 2]> = self.sim.positions_xy();
        let ghost given = pos@;
        let n: usize = pos.len();
        let mut i: usize = 0;
        while i < n
            invariant
                exact::<T>(),
                i <= n,
                n == pos@.len(),
                n == given.len(),
                forall|k: int|
                    0 <= k < i ==> (#[trigger] pos@[k])[0] == given[k][0] && pos@[k][1] == diff(
                        h,
                        given[k][1],
                    ),
                forall|k: int| i <= k < n ==> #[trigger] pos@[k] == given[k],
            decreases n - i,
        {
            let p: [T; 2] = pos[i];
            let shown: [T; 2] = [p[0], h.minus(p[1])];
            assert(shown[0] == given[i as int][0] && shown[1] == diff(h, given[i as int][1]));
            pos.set(i, shown);
            i = i + 1;
        }
        proof {
            let top = stretch(start.ny, start.h);
            assert forall|k: int| 0 <= k < n implies #[trigger] as_vectors(pos@)[k] == turned(
                self.sim@.pos,
                top,
            )[k] by {
                assert(as_vectors(given)[k] == self.sim@.pos[k]);
                assert(pos@[k][0] == given[k][0]);
            }
            assert(as_vectors(given).len() == self.sim@.pos.len());
            assert(as_vectors(pos@) =~= turned(self.sim@.pos, top));
        }
        self.pos = pos;
        assert(self@ =~= old(self)@.advanced(dt_real));
    }

    /// Positions and velocities to be drawn.
    pub fn dots(&self) -> (list: (&Vec<[T; 2]>, &Vec<[T; 2]>))
        ensures
            as_vectors(list.0@) == self@.pos,
            as_vectors(list.1@) == self@.vel,
    {
        (&self.pos, &self.vel)
    }

    /// How the particles are drawn.
    pub fn dot_params(&self) -> (params: DotParams<T>)
        requires
            exact::<T>(),
        ensures
            params == (DotParams {
                capacity: self@.sim.pos.len() as u32,
                domain_w: stretch(self@.sim.nx, self@.sim.h),
                domain_h: stretch(self@.sim.ny, self@.sim.h),
                radius: prod(lit(1, 1), lit(45, 100)),
                max_speed: lit(25, 1),
            }),
    {
        let (domain_w, domain_h): (T, T) = self.sim.domain();
        DotParams {
            capacity: self.sim.len() as u32,
            domain_w,
            domain_h,
            radius: T::ratio(1, 1).times(T::ratio(45, 100)),
            max_speed: T::ratio(25, 1),
        }
    }

    /// Display name.
    pub fn name(&self) -> (name: &'static str)
        ensures
            name@ == "FLIP water"@,
    {
        "FLIP water"
    }

    /// Number of particles.
    pub fn num(&self) -> (n: usize)
        ensures
            n == self@.sim.pos.len(),
    {
        self.sim.len()
    }

    /// Strength of gravity.
    pub fn gravity_scale(&self) -> (g: T)
        ensures
            g == self@.g_scale,
    {
        self.g_scale
    }

    /// Set the strength of gravity.
    pub fn set_gravity_scale(&mut self, g: T)
        ensures
            final(self)@ == (FlipBackendModel { g_scale: g, ..old(self)@ }),
    {
        self.g_scale = g;
    }
}

/// The reset key puts the particles back into the starting block, at rest, and
/// sets gravity back, whatever else happens in the frame before its steps.
pub proof fn law_reset_key_starts_over<T: Scalar>(
    liquid: SphCpuModel<T>,
    water: FlipBackendModel<T>,
    dt: T,
    input: InputModel<T>,
)
    requires
        input.pressed.contains(Key::KeyR),
    ensures
        liquid.controlled(dt, input).sim.pos == SimModel::initial(
            liquid.bounds.w,
            liquid.bounds.h,
        ).pos,
        liquid.controlled(dt, input).sim.vel == SimModel::initial(
            liquid.bounds.w,
            liquid.bounds.h,
        ).vel,
        forall|i: int|
            0 <= i < liquid.controlled(dt, input).sim.vel.len() ==> #[trigger] liquid.controlled(
                dt,
                input,
            ).sim.vel[i] == Vec2::<T>::origin(),
        liquid.controlled(dt, input).g_scale == lit::<T>(1, 1),
        water.controlled(dt, input).sim.pos == FlipModel::initial(
            water.sim.nx,
            water.sim.ny,
            water.sim.h,
        ).pos,
        water.controlled(dt, input).sim.vel == FlipModel::initial(
            water.sim.nx,
            water.sim.ny,
            water.sim.h,
        ).vel,
        forall|i: int|
            0 <= i < water.controlled(dt, input).sim.vel.len() ==> #[trigger] water.controlled(
                dt,
                input,
            ).sim.vel[i] == Vec2::<T>::origin(),
        water.controlled(dt, input).g_scale == lit::<T>(1, 1),
{
}

/// Steps neither add nor remove particles.
pub proof fn law_running_keeps_the_particles<T: Scalar>(
    fluid: SimModel<T>,
    water: FlipModel<T>,
    n: nat,
    dt: T,
    gravity: Vec2<T>,
    bounds: Bounds<T>,
)
    requires
        fluid.valid(),
        water.valid(),
        water.can_step(),
    ensures
        fluid.run(n, dt, gravity, bounds).valid(),
        fluid.run(n, dt, gravity, bounds).pos.len() == fluid.pos.len(),
        water.run(n, dt).valid(),
        water.run(n, dt).can_step(),
        water.run(n, dt).pos.len() == water.pos.len(),
    decreases n,
{
    if n > 0 {
        law_running_keeps_the_particles(fluid, water, (n - 1) as nat, dt, gravity, bounds);
        law_step_keeps_the_fluid(
            fluid.run((n - 1) as nat, dt, gravity, bounds),
            dt,
            gravity,
            bounds,
        );
        law_step_keeps_the_water(water.run((n - 1) as nat, dt), dt);
    }
}

/// The picture of the smoke stands upright: pixel `(x, y)`, counted from the top,
/// shows the cell of column `x + 1` in the row that is `y` rows below the top.
pub proof fn law_picture_stands_upright<T: Scalar>(smoke: SmokeModel<T>, x: int, y: int, ch: int)
    requires
        0 <= x < SMOKE_N,
        0 <= y < SMOKE_N,
        0 <= ch < 4,
    ensures
        painting(smoke)[4 * place(x, y, SMOKE_N as int) + ch] == shade(
            smoke.dens[place(x + 1, SMOKE_N - y, smoke.n + 2)],
            ch,
        ),
{
    let q = place(x, y, SMOKE_N as int);
    lemma_place_in_grid(x, y, SMOKE_N as int, SMOKE_N as int);
    lemma_col_row_of_place(x, y, SMOKE_N as int);
    assert((4 * q + ch) / 4 == q);
    assert((4 * q + ch) % 4 == ch);
}

/// Wherever the mouse is, the cell under it is an inner one, so that nothing that
/// it lets in is lost.
pub proof fn law_mouse_hits_a_cell<T: Scalar>(px: T, py: T, size: SurfaceSize)
    ensures
        1 <= cell_at(px, py, size).0 <= SMOKE_N,
        1 <= cell_at(px, py, size).1 <= SMOKE_N,
{
}

} // verus!
