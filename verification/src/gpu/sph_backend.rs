//! The particle solver of the graphics processor, driven by input.

use crate::gpu::backend::{Input, Key};
use crate::gpu::clock::drain;
use crate::gpu::context::SurfaceSize;
use crate::gpu::controls::pull;
use crate::gpu::render::{Draw, RenderMode, Renderer};
use crate::gpu::sim::{GpuSim, SphParams, SphPass};
use crate::scalar::Scalar;
use crate::vec2::{vec2, Vec2};
#[allow(unused_imports)]
use crate::gpu::backend::InputModel;
#[allow(unused_imports)]
use crate::gpu::clock::{rest_of, steps_in};
#[allow(unused_imports)]
use crate::gpu::controls::pulled;
#[allow(unused_imports)]
use crate::gpu::render::RendererModel;
#[allow(unused_imports)]
use crate::gpu::sim::{countable, GpuSimModel};
#[allow(unused_imports)]
use crate::neighbors::indexable;
#[allow(unused_imports)]
use crate::scalar::{count, diff, exact, exact_powi, lesser, lit, prod, sum};
#[allow(unused_imports)]
use crate::sim::{Bounds, Shape};
use vstd::prelude::*;

verus! {

/// Steps that a frame takes at most.
pub const MAX_STEPS: usize = 40;

/// What a frame asks of the graphics processor: whether the particles are put
/// back, what the shaders are told where there are steps, and how many times the
/// passes are run.
pub struct SphFrame<T> {
    pub reset: bool,
    pub params: Option<SphParams<T>>,
    pub steps: usize,
    pub passes: Vec<SphPass>,
}

/// The liquid on the graphics processor, with its controls.
pub struct SphBackendModel<T> {
    pub sim: GpuSimModel<T>,
    pub renderer: RendererModel<T>,
    pub g_scale: T,
    pub accumulator: T,
    pub pending: Vec2<T>,
    pub shape: u32,
    pub mode: RenderMode,
}

impl<T: Scalar> SphBackendModel<T> {
    /// The solver is sound, and the container is one of the two shapes.
    pub open spec fn valid(self) -> bool {
        &&& self.sim.valid()
        &&& self.shape <= 1
    }

    /// A surface of the given size has a grid that can be indexed and counted.
    pub open spec fn fits(size: SurfaceSize) -> bool {
        let w = count::<T>(size.width as usize);
        let h = count::<T>(size.height as usize);
        &&& indexable(Bounds { w, h, shape: Shape::Rect })
        &&& countable(w, h)
    }

    /// The liquid at the start, in a container that covers the surface.
    pub open spec fn initial(size: SurfaceSize) -> SphBackendModel<T> {
        let sim = GpuSimModel::initial(
            count::<T>(size.width as usize),
            count::<T>(size.height as usize),
        );
        SphBackendModel {
            sim,
            renderer: RendererModel::of(sim, size.width, size.height),
            g_scale: lit(1, 1),
            accumulator: lit(0, 1),
            pending: Vec2::origin(),
            shape: 0,
            mode: RenderMode::Metaballs,
        }
    }

    /// The jolt that is still to be given, with that of the frame: by the left and
    /// right keys sideways, by the space bar upward.
    pub open spec fn jolted(self, input: InputModel<T>) -> Vec2<T> {
        let a = if input.pressed.contains(Key::ArrowLeft) {
            diff(self.pending.x, lit(650, 1))
        } else {
            self.pending.x
        };
        Vec2 {
            x: if input.pressed.contains(Key::ArrowRight) {
                sum(a, lit(650, 1))
            } else {
                a
            },
            y: if input.pressed.contains(Key::Space) {
                diff(self.pending.y, lit(650, 1))
            } else {
                self.pending.y
            },
        }
    }

    /// The controls of a frame of `dt` seconds applied.
    pub open spec fn controlled(self, dt: T, input: InputModel<T>) -> SphBackendModel<T> {
        SphBackendModel {
            pending: self.jolted(input),
            g_scale: if input.pressed.contains(Key::KeyR) {
                lit(1, 1)
            } else {
                pulled(self.g_scale, dt, input)
            },
            shape: if input.pressed.contains(Key::KeyC) {
                (1 - self.shape) as u32
            } else {
                self.shape
            },
            mode: if input.pressed.contains(Key::KeyM) {
                self.mode.following()
            } else {
                self.mode
            },
            ..self
        }
    }

    /// The time saved up with that of a frame of `dt` seconds.
    pub open spec fn saved(self, dt: T) -> T {
        sum(self.accumulator, prod(lesser(dt, lit(5, 100)), lit(1, 1)))
    }

    /// Steps of a frame of `dt` seconds.
    pub open spec fn steps(self, dt: T) -> nat {
        steps_in(self.saved(dt), lit(8, 10000), MAX_STEPS as nat)
    }

    /// The time of a frame of `dt` seconds turned into steps. Where there are any,
    /// they share the jolt out among them.
    pub open spec fn advanced(self, dt: T) -> SphBackendModel<T> {
        let n = self.steps(dt);
        let accumulator = rest_of(self.saved(dt), lit(8, 10000), MAX_STEPS as nat);
        if n > 0 {
            SphBackendModel {
                sim: self.sim.framed(
                    Vec2 { x: lit(0, 1), y: prod(lit(1200, 1), self.g_scale) },
                    lit(8, 10000),
                    self.pending.div_of(count(n as usize)),
                    self.shape,
                ),
                pending: Vec2::origin(),
                accumulator,
                ..self
            }
        } else {
            SphBackendModel { accumulator, ..self }
        }
    }

    /// The liquid after a frame of `dt` seconds.
    pub open spec fn updated(self, dt: T, input: InputModel<T>) -> SphBackendModel<T> {
        self.controlled(dt, input).advanced(dt)
    }
}

/// The liquid on the graphics processor, with its controls.
pub struct SphBackend<T> {
    sim: GpuSim<T>,
    renderer: Renderer<T>,
    g_scale: T,
    accumulator: T,
    pending: Vec2<T>,
    shape: u32,
    mode: RenderMode,
}

impl<T: Scalar> View for SphBackend<T> {
    type V = SphBackendModel<T>;

    closed spec fn view(&self) -> SphBackendModel<T> {
        SphBackendModel {
            sim: self.sim@,
            renderer: self.renderer@,
            g_scale: self.g_scale,
            accumulator: self.accumulator,
            pending: self.pending,
            shape: self.shape,
            mode: self.mode,
        }
    }
}

impl<T: Scalar> SphBackend<T> {
    /// The solver is sound, and the container is one of the two shapes.
    pub closed spec fn valid(self) -> bool {
        &&& self.sim.valid()
        &&& self@.valid()
    }

    /// Liquid in a container that covers a surface of the given size.
    pub fn new(size: SurfaceSize) -> (b: Self)
        requires
            exact::<T>(),
            exact_powi::<T>(),
            SphBackendModel::<T>::fits(size),
        ensures
            b@ == SphBackendModel::<T>::initial(size),
            b.valid(),
    {
        let w: T = T::of_count(size.width as usize);
        let h: T = T::of_count(size.height as usize);
        let sim: GpuSim<T> = GpuSim::new(w, h);
        let renderer: Renderer<T> = Renderer::new(&sim, size.width, size.height);
        SphBackend {
            sim,
            renderer,
            g_scale: T::ratio(1, 1),
            accumulator: T::ratio(0, 1),
            pending: Vec2::zero(),
            shape: 0,
            mode: RenderMode::default(),
        }
    }

    /// Advance the liquid by a frame of `dt_real` seconds.
    pub fn update(&mut self, dt_real: T, input: &Input<T>) -> (frame: SphFrame<T>)
        requires
            exact::<T>(),
            old(self).valid(),
        ensures
            final(self)@ == old(self)@.updated(dt_real, input@),
            final(self).valid(),
            frame.reset == input@.pressed.contains(Key::KeyR),
            frame.steps == old(self)@.steps(dt_real),
            frame.params == if frame.steps > 0 {
                Some(final(self)@.sim.params)
            } else {
                None
            },
            frame.passes@ == final(self)@.sim.step_passes(false),
    {
        let reset: bool = self.control(dt_real, input);
        let dt: T = T::ratio(8, 10000);
        let saved: T = self.accumulator.plus(
            dt_real.lower(T::ratio(5, 100)).times(T::ratio(1, 1)),
        );
        let (steps, rest): (usize, T) = drain(saved, dt, MAX_STEPS);
        self.accumulator = rest;
        let mut params: Option<SphParams<T>> = None;
        if steps > 0 {
            let gravity: [T; 2] = [T::ratio(0, 1), T::ratio(1200, 1).times(self.g_scale)];
            let share: Vec2<T> = self.pending.over(T::of_count(steps));
            let impulse: [T; 2] = [share.x, share.y];
            self.pending = Vec2::zero();
            self.sim.set_frame(gravity, dt, impulse, self.shape);
            params = Some(self.sim.upload_params());
        }
        SphFrame { reset, params, steps, passes: self.sim.record_step() }
    }

    /// Apply the controls of a frame, and say whether the particles are put back.
    fn control(&mut self, dt_real: T, input: &Input<T>) -> (reset: bool)
        requires
            exact::<T>(),
            old(self).valid(),
        ensures
            final(self)@ == old(self)@.controlled(dt_real, input@),
            final(self).valid(),
            reset == input@.pressed.contains(Key::KeyR),
    {
        let shake: T = T::ratio(650, 1);
        let mut pending: Vec2<T> = self.pending;
        if input.pressed(Key::ArrowLeft) {
            pending = vec2(pending.x.minus(shake), pending.y);
        }
        if input.pressed(Key::ArrowRight) {
            pending = vec2(pending.x.plus(shake), pending.y);
        }
        if input.pressed(Key::Space) {
            pending = vec2(pending.x, pending.y.minus(shake));
        }
        self.pending = pending;
        self.g_scale = pull(self.g_scale, dt_real, input);
        if input.pressed(Key::KeyC) {
            self.shape = 1 - self.shape;
        }
        if input.pressed(Key::KeyM) {
            self.mode = self.mode.next();
        }
        let reset: bool = input.pressed(Key::KeyR);
        if reset {
            self.g_scale = T::ratio(1, 1);
        }
        reset
    }

    /// The solver, whose buffers are to be made.
    pub fn solver(&self) -> (sim: &GpuSim<T>)
        requires
            self.valid(),
        ensures
            sim@ == self@.sim,
            sim.valid(),
    {
        &self.sim
    }

    /// The renderer, whose field is to be made.
    pub fn painter(&self) -> (renderer: &Renderer<T>)
        ensures
            renderer@ == self@.renderer,
    {
        &self.renderer
    }

    /// The passes that draw the liquid.
    pub fn render(&self) -> (plan: Vec<Draw>)
        requires
            self@.renderer.can_draw(self@.mode),
        ensures
            plan@ == self@.renderer.passes(self@.mode),
    {
        self.renderer.render(self.mode)
    }

    /// Whether the liquid can be drawn: whether the vertices can be counted.
    pub fn drawable(&self) -> (ok: bool)
        ensures
            ok == self@.renderer.can_draw(self@.mode),
    {
        self.renderer.drawable(self.mode)
    }

    /// Fit the field of the renderer to a new size of the surface. The domain of
    /// the liquid stays what it is.
    pub fn resize(&mut self, width: u32, height: u32)
        ensures
            final(self)@ == (SphBackendModel {
                renderer: old(self)@.renderer.resized(width, height),
                ..old(self)@
            }),
            old(self).valid() ==> final(self).valid(),
    {
        self.renderer.resize(width, height);
    }

    /// Display name.
    pub fn name(&self) -> (name: &'static str)
        ensures
            name@ == "GPU SPH"@,
    {
        "GPU SPH"
    }

    /// Number of particles.
    pub fn num(&self) -> (n: u32)
        requires
            self.valid(),
        ensures
            n == self@.sim.params.num,
    {
        self.sim.num()
    }

    /// Strength of gravity.
    pub fn gravity_scale(&self) -> (g: T)
        ensures
            g == self@.g_scale,
    {
        self.g_scale
    }

    /// Set the strength of gravity.
    pub fn set_gravity_scale(&mut self, g: T)
        ensures
            final(self)@ == (SphBackendModel { g_scale: g, ..old(self)@ }),
            old(self).valid() ==> final(self).valid(),
    {
        self.g_scale = g;
    }

    /// The way the liquid is drawn.
    pub fn mode(&self) -> (mode: RenderMode)
        ensures
            mode == self@.mode,
    {
        self.mode
    }

    /// Set the way the liquid is drawn.
    pub fn set_mode(&mut self, mode: RenderMode)
        ensures
            final(self)@ == (SphBackendModel { mode, ..old(self)@ }),
            old(self).valid() ==> final(self).valid(),
    {
        self.mode = mode;
    }

    /// Change the shape of the container.
    pub fn toggle_shape(&mut self)
        requires
            old(self).valid(),
        ensures
            final(self)@ == (SphBackendModel { shape: (1 - old(self)@.shape) as u32, ..old(self)@
            }),
            final(self).valid(),
    {
        self.shape = 1 - self.shape;
    }
}

/// A jolt waits for a frame that has steps, and is then given once: the steps
/// share it out, and none of it is left. Without steps it is kept.
pub proof fn law_jolt_is_given_once<T: Scalar>(
    liquid: SphBackendModel<T>,
    dt: T,
    input: InputModel<T>,
)
    ensures
        ({
            let n = liquid.steps(dt);
            let after = liquid.updated(dt, input);
            let share = liquid.jolted(input).div_of(count(n as usize));
            if n > 0 {
                &&& after.pending == Vec2::<T>::origin()
                &&& after.sim.params.impulse_x == share.x
                &&& after.sim.params.impulse_y == share.y
            } else {
                &&& after.pending == liquid.jolted(input)
                &&& after.sim == liquid.sim
            }
        }),
{
}

/// A frame leaves the start, the domain and the grid of the solver as they are.
pub proof fn law_frames_keep_the_solver<T: Scalar>(
    liquid: SphBackendModel<T>,
    dt: T,
    input: InputModel<T>,
)
    requires
        liquid.valid(),
    ensures
        liquid.updated(dt, input).valid(),
        liquid.updated(dt, input).sim.start == liquid.sim.start,
        liquid.updated(dt, input).sim.domain == liquid.sim.domain,
        liquid.updated(dt, input).sim.cols == liquid.sim.cols,
        liquid.updated(dt, input).sim.rows == liquid.sim.rows,
        liquid.updated(dt, input).renderer == liquid.renderer,
        liquid.steps(dt) <= MAX_STEPS,
{
    crate::gpu::clock::law_no_time_piles_up(
        liquid.saved(dt),
        lit(8, 10000),
        MAX_STEPS as nat,
    );
}

} // verus!
