//! FLIP water on the graphics processor: its buffers, and the passes of a step.
//! The pressure is solved by red-black sweeps that work in place.

use crate::flip::{carve, FlipSim};
use crate::gpu::backend::{Input, Key};
use crate::gpu::clock::drain;
use crate::gpu::controls::{pull, DotParams, Restart};
use crate::gpu::dispatch::cover;
use crate::scalar::Scalar;
use crate::vec2::{vec2, Vec2};
#[allow(unused_imports)]
use crate::flip::{open_cells, stretch, FlipModel};
#[allow(unused_imports)]
use crate::gpu::backend::InputModel;
#[allow(unused_imports)]
use crate::gpu::clock::{law_no_time_piles_up, rest_of, saved_up, steps_in};
#[allow(unused_imports)]
use crate::gpu::controls::pulled;
#[allow(unused_imports)]
use crate::gpu::dispatch::groups_for;
#[allow(unused_imports)]
use crate::scalar::{count, diff, exact, lit, neg, prod, sum};
#[allow(unused_imports)]
use crate::vec2::as_vectors;
use vstd::prelude::*;

verus! {

/// Sweeps of the pressure solver in a step, unless set otherwise.
pub const DEFAULT_SWEEPS: usize = 10;

/// What the shaders are told.
#[derive(Clone, Copy)]
pub struct FlipParams<T> {
    pub num: u32,
    pub nx: u32,
    pub ny: u32,
    pub h: T,
    pub gx: T,
    pub gy: T,
    pub dt: T,
    pub flip: T,
    pub impulse_x: T,
    pub impulse_y: T,
}

/// A buffer of the particles or of the grid.
#[derive(Clone, Copy, PartialEq, Eq, Debug, Structural)]
pub enum FlipBuffer {
    Pos,
    Vel,
    U,
    V,
    UPrev,
    VPrev,
    Au,
    Av,
    Wu,
    Wv,
    S,
    Fluid,
    Div,
    P,
    P2,
}

/// A shader.
#[derive(Clone, Copy, PartialEq, Eq, Debug, Structural)]
pub enum FlipStage {
    Integrate,
    Clear,
    P2g,
    Normalize,
    Divergence,
    SorRed,
    SorBlack,
    SubtractGradient,
    G2p,
}

/// One pass of a step: a shader with `x` by `y` workgroups.
#[derive(Clone, Copy, PartialEq, Eq, Debug, Structural)]
pub struct FlipPass {
    pub stage: FlipStage,
    pub x: u32,
    pub y: u32,
}

/// Workgroups for `n` items in a row.
pub fn wg1(n: u32) -> (g: u32)
    ensures
        g == groups_for(n as int, 64),
{
    cover(n, 64)
}

/// Workgroups along a side of `n` cells.
pub fn wg2(n: u32) -> (g: u32)
    ensures
        g == groups_for(n as int, 8),
{
    cover(n, 8)
}

impl FlipStage {
    /// Entry point of the shader.
    pub open spec fn title(self) -> Seq<char> {
        match self {
            FlipStage::Integrate => "integrate"@,
            FlipStage::Clear => "clear"@,
            FlipStage::P2g => "p2g"@,
            FlipStage::Normalize => "normalize"@,
            FlipStage::Divergence => "divergence"@,
            FlipStage::SorRed => "sor_red"@,
            FlipStage::SorBlack => "sor_black"@,
            FlipStage::SubtractGradient => "subtract_gradient"@,
            FlipStage::G2p => "g2p"@,
        }
    }

    /// Entry point of the shader.
    pub fn entry(self) -> (name: &'static str)
        ensures
            name@ == self.title(),
    {
        match self {
            FlipStage::Integrate => "integrate",
            FlipStage::Clear => "clear",
            FlipStage::P2g => "p2g",
            FlipStage::Normalize => "normalize",
            FlipStage::Divergence => "divergence",
            FlipStage::SorRed => "sor_red",
            FlipStage::SorBlack => "sor_black",
            FlipStage::SubtractGradient => "subtract_gradient",
            FlipStage::G2p => "g2p",
        }
    }
}

/// The buffers in the order of their binding numbers, from one on.
pub open spec fn binding_order() -> Seq<FlipBuffer> {
    seq![
        FlipBuffer::Pos,
        FlipBuffer::Vel,
        FlipBuffer::U,
        FlipBuffer::V,
        FlipBuffer::UPrev,
        FlipBuffer::VPrev,
        FlipBuffer::Au,
        FlipBuffer::Av,
        FlipBuffer::Wu,
        FlipBuffer::Wv,
        FlipBuffer::S,
        FlipBuffer::Fluid,
        FlipBuffer::Div,
        FlipBuffer::P,
        FlipBuffer::P2,
    ]
}

/// The buffers in the order of their binding numbers, from one on.
pub fn bindings() -> (list: Vec<FlipBuffer>)
    ensures
        list@ == binding_order(),
{
    let list: Vec<FlipBuffer> = vec![
        FlipBuffer::Pos,
        FlipBuffer::Vel,
        FlipBuffer::U,
        FlipBuffer::V,
        FlipBuffer::UPrev,
        FlipBuffer::VPrev,
        FlipBuffer::Au,
        FlipBuffer::Av,
        FlipBuffer::Wu,
        FlipBuffer::Wv,
        FlipBuffer::S,
        FlipBuffer::Fluid,
        FlipBuffer::Div,
        FlipBuffer::P,
        FlipBuffer::P2,
    ];
    assert(list@ =~= binding_order());
    list
}

/// The greater of two counts.
pub open spec fn larger(a: int, b: int) -> int {
    if a >= b {
        a
    } else {
        b
    }
}

/// The water solver: its grid, its sweeps, what the shaders are told, and where
/// the particles start.
#[verifier::ext_equal]
pub struct GpuFlipModel<T> {
    pub nx: int,
    pub ny: int,
    pub h: T,
    pub sweeps: nat,
    pub params: FlipParams<T>,
    pub start: Seq<Vec2<T>>,
}

impl<T: Scalar> GpuFlipModel<T> {
    /// The faces and cells of the grid can be counted.
    pub open spec fn valid(self) -> bool {
        &&& 0 <= self.nx < u32::MAX
        &&& 0 <= self.ny < u32::MAX
        &&& (self.nx + 1) * self.ny <= u32::MAX
        &&& self.nx * (self.ny + 1) <= u32::MAX
        &&& self.params.num == self.start.len() as u32
    }

    /// The solver for a basin of `nx` by `ny` cells of size `h`, with the block of
    /// water that such a basin starts with.
    pub open spec fn initial(nx: u32, ny: u32, h: T) -> GpuFlipModel<T> {
        let start = FlipModel::initial(nx as int, ny as int, h).pos;
        GpuFlipModel {
            nx: nx as int,
            ny: ny as int,
            h,
            sweeps: DEFAULT_SWEEPS as nat,
            params: FlipParams {
                num: start.len() as u32,
                nx,
                ny,
                h,
                gx: lit(0, 1),
                gy: neg(lit(9, 1)),
                dt: lit(1, 120),
                flip: lit(9, 10),
                impulse_x: lit(0, 1),
                impulse_y: lit(0, 1),
            },
            start,
        }
    }

    /// The inputs of a frame set.
    pub open spec fn framed(self, gravity: Vec2<T>, dt: T, impulse: Vec2<T>) -> GpuFlipModel<T> {
        GpuFlipModel {
            params: FlipParams {
                gx: gravity.x,
                gy: gravity.y,
                dt,
                impulse_x: impulse.x,
                impulse_y: impulse.y,
                ..self.params
            },
            ..self
        }
    }

    /// Faces of the kind there are more of.
    pub open spec fn faces(self) -> int {
        larger((self.nx + 1) * self.ny, self.nx * (self.ny + 1))
    }

    /// A pass over `n` items in a row.
    pub open spec fn line(self, stage: FlipStage, n: int) -> FlipPass {
        FlipPass { stage, x: groups_for(n, 64) as u32, y: 1 }
    }

    /// A pass over all cells.
    pub open spec fn sheet(self, stage: FlipStage) -> FlipPass {
        FlipPass {
            stage,
            x: groups_for(self.nx, 8) as u32,
            y: groups_for(self.ny, 8) as u32,
        }
    }

    /// The passes of the pressure solver: red and black in turn.
    pub open spec fn pressure_passes(self, sweeps: nat) -> Seq<FlipPass> {
        Seq::new(
            2 * sweeps,
            |k: int|
                if k % 2 == 0 {
                    self.sheet(FlipStage::SorRed)
                } else {
                    self.sheet(FlipStage::SorBlack)
                },
        )
    }

    /// The passes of a step.
    pub open spec fn step_passes(self) -> Seq<FlipPass> {
        let num = self.params.num as int;
        seq![
            self.line(FlipStage::Integrate, num),
            self.line(FlipStage::Clear, larger(self.faces(), self.nx * self.ny)),
            self.line(FlipStage::P2g, num),
            self.line(FlipStage::Normalize, self.faces()),
            self.sheet(FlipStage::Divergence),
        ] + self.pressure_passes(self.sweeps) + seq![
            self.line(FlipStage::SubtractGradient, self.faces()),
            self.line(FlipStage::G2p, num),
        ]
    }

    /// Size of a buffer.
    pub open spec fn bytes_of(self, buffer: FlipBuffer) -> int {
        match buffer {
            FlipBuffer::Pos => self.start.len() as u32 * 8,
            FlipBuffer::Vel => self.start.len() as u32 * 8,
            FlipBuffer::U => (self.nx + 1) * self.ny * 4,
            FlipBuffer::UPrev => (self.nx + 1) * self.ny * 4,
            FlipBuffer::Au => (self.nx + 1) * self.ny * 4,
            FlipBuffer::Wu => (self.nx + 1) * self.ny * 4,
            FlipBuffer::V => self.nx * (self.ny + 1) * 4,
            FlipBuffer::VPrev => self.nx * (self.ny + 1) * 4,
            FlipBuffer::Av => self.nx * (self.ny + 1) * 4,
            FlipBuffer::Wv => self.nx * (self.ny + 1) * 4,
            FlipBuffer::S => self.nx * self.ny * 4,
            FlipBuffer::Fluid => self.nx * self.ny * 4,
            FlipBuffer::Div => self.nx * self.ny * 4,
            FlipBuffer::P => self.nx * self.ny * 4,
            FlipBuffer::P2 => self.nx * self.ny * 4,
        }
    }
}

/// The water solver on the graphics processor.
pub struct GpuFlip<T> {
    params: FlipParams<T>,
    nx: u32,
    ny: u32,
    h: T,
    num: u32,
    sweeps: usize,
    initial_pos: Vec<[T; 2]>,
}

impl<T: Scalar> View for GpuFlip<T> {
    type V = GpuFlipModel<T>;

    closed spec fn view(&self) -> GpuFlipModel<T> {
        GpuFlipModel {
            nx: self.nx as int,
            ny: self.ny as int,
            h: self.h,
            sweeps: self.sweeps as nat,
            params: self.params,
            start: as_vectors(self.initial_pos@),
        }
    }
}

impl<T: Scalar> GpuFlip<T> {
    /// The faces and cells can be counted, and the count of the particles is what
    /// the shaders are told.
    pub closed spec fn valid(self) -> bool {
        &&& self@.valid()
        &&& self.num == self.params.num
    }

    /// Solver for a basin of `nx` by `ny` cells of size `h`.
    pub fn new(nx: u32, ny: u32, h: T) -> (flip: Self)
        requires
            exact::<T>(),
            nx < u32::MAX,
            ny < u32::MAX,
            (nx + 1) * ny <= u32::MAX,
            nx * (ny + 1) <= u32::MAX,
        ensures
            flip@ == GpuFlipModel::<T>::initial(nx, ny, h),
            flip.valid(),
            flip@.valid(),
    {
        let basin: FlipSim<T> = FlipSim::new(nx as usize, ny as usize, h);
        let initial_pos: Vec<[T; 2]> = basin.positions_xy();
        let num: u32 = initial_pos.len() as u32;
        let flip = GpuFlip {
            params: FlipParams {
                num,
                nx,
                ny,
                h,
                gx: T::ratio(0, 1),
                gy: T::ratio(9, 1).negate(),
                dt: T::ratio(1, 120),
                flip: T::ratio(9, 10),
                impulse_x: T::ratio(0, 1),
                impulse_y: T::ratio(0, 1),
            },
            nx,
            ny,
            h,
            num,
            sweeps: DEFAULT_SWEEPS,
            initial_pos,
        };
        assert(flip@ =~= GpuFlipModel::<T>::initial(nx, ny, h));
        flip
    }

    /// Number of particles.
    pub fn num(&self) -> (num: u32)
        requires
            self.valid(),
        ensures
            num == self@.params.num,
    {
        self.num
    }

    /// Width and height of the basin.
    pub fn domain(&self) -> (d: (T, T))
        requires
            exact::<T>(),
        ensures
            d.0 == stretch(self@.nx, self@.h),
            d.1 == stretch(self@.ny, self@.h),
    {
        (
            T::of_count(self.nx as usize).times(self.h),
            T::of_count(self.ny as usize).times(self.h),
        )
    }

    /// The buffer of the positions.
    pub fn pos_buffer(&self) -> (buffer: FlipBuffer)
        ensures
            buffer == FlipBuffer::Pos,
    {
        FlipBuffer::Pos
    }

    /// The buffer of the velocities.
    pub fn vel_buffer(&self) -> (buffer: FlipBuffer)
        ensures
            buffer == FlipBuffer::Vel,
    {
        FlipBuffer::Vel
    }

    /// Size of a buffer.
    pub fn buffer_bytes(&self, buffer: FlipBuffer) -> (bytes: u64)
        requires
            self.valid(),
        ensures
            bytes == self@.bytes_of(buffer),
    {
        proof {
            lemma_cells_fit(self.nx as int, self.ny as int);
        }
        let usz: u32 = (self.nx + 1) * self.ny;
        let vsz: u32 = self.nx * (self.ny + 1);
        let csz: u32 = self.nx * self.ny;
        match buffer {
            FlipBuffer::Pos | FlipBuffer::Vel => self.num as u64 * 8,
            FlipBuffer::U | FlipBuffer::UPrev | FlipBuffer::Au | FlipBuffer::Wu => usz as u64 * 4,
            FlipBuffer::V | FlipBuffer::VPrev | FlipBuffer::Av | FlipBuffer::Wv => vsz as u64 * 4,
            FlipBuffer::S
            | FlipBuffer::Fluid
            | FlipBuffer::Div
            | FlipBuffer::P
            | FlipBuffer::P2 => csz as u64 * 4,
        }
    }

    /// The open cells: what the buffer of that name holds.
    pub fn solid_mask(&self) -> (mask: Vec<T>)
        requires
            exact::<T>(),
            self@.valid(),
        ensures
            mask@ == open_cells::<T>(self@.nx, self@.ny),
    {
        proof {
            lemma_cells_fit(self.nx as int, self.ny as int);
        }
        carve(self.nx as usize, self.ny as usize)
    }

    /// Set the inputs of a frame. The impulse is added to every velocity in every
    /// step of the frame.
    pub fn set_frame(&mut self, gravity: [T; 2], dt: T, impulse: [T; 2])
        ensures
            final(self)@ == old(self)@.framed(
                Vec2 { x: gravity[0], y: gravity[1] },
                dt,
                Vec2 { x: impulse[0], y: impulse[1] },
            ),
            old(self).valid() ==> final(self).valid(),
    {
        self.params.gx = gravity[0];
        self.params.gy = gravity[1];
        self.params.dt = dt;
        self.params.impulse_x = impulse[0];
        self.params.impulse_y = impulse[1];
    }

    /// What the shaders are to be told.
    pub fn upload_params(&self) -> (params: FlipParams<T>)
        ensures
            params == self@.params,
    {
        self.params
    }

    /// Put the particles back where they started, at rest: the buffer of the
    /// positions is to be filled with the start, and that of the velocities with
    /// zeros.
    pub fn reset(&self) -> (restart: Restart<'_, T, FlipBuffer>)
        requires
            self.valid(),
        ensures
            as_vectors(restart.start@) == self@.start,
            restart.into == FlipBuffer::Pos,
            restart.zeroed == FlipBuffer::Vel,
            restart.bytes == self@.params.num * 8,
            restart.bytes == self@.bytes_of(FlipBuffer::Vel),
    {
        Restart {
            start: &self.initial_pos,
            into: FlipBuffer::Pos,
            zeroed: FlipBuffer::Vel,
            bytes: self.num as u64 * 8,
        }
    }

    /// Set the sweeps of the pressure solver in a step.
    pub fn set_sweeps(&mut self, n: usize)
        ensures
            final(self)@ == (GpuFlipModel { sweeps: n as nat, ..old(self)@ }),
            old(self).valid() ==> final(self).valid(),
    {
        self.sweeps = n;
    }

    /// Append a pass over `n` items in a row.
    fn pass1d(&self, plan: &mut Vec<FlipPass>, stage: FlipStage, n: u32)
        ensures
            final(plan)@ == old(plan)@.push(self@.line(stage, n as int)),
    {
        plan.push(FlipPass { stage, x: wg1(n), y: 1 });
    }

    /// Append a pass over all cells.
    fn pass2d(&self, plan: &mut Vec<FlipPass>, stage: FlipStage)
        ensures
            final(plan)@ == old(plan)@.push(self@.sheet(stage)),
    {
        plan.push(FlipPass { stage, x: wg2(self.nx), y: wg2(self.ny) });
    }

    /// The passes of a step.
    pub fn record_step(&self) -> (plan: Vec<FlipPass>)
        requires
            self.valid(),
        ensures
            plan@ == self@.step_passes(),
    {
        proof {
            lemma_cells_fit(self.nx as int, self.ny as int);
        }
        let usz: u32 = (self.nx + 1) * self.ny;
        let vsz: u32 = self.nx * (self.ny + 1);
        let faces: u32 = if usz >= vsz {
            usz
        } else {
            vsz
        };
        let cells: u32 = self.nx * self.ny;
        let all: u32 = if faces >= cells {
            faces
        } else {
            cells
        };
        let mut plan: Vec<FlipPass> = Vec::new();
        self.pass1d(&mut plan, FlipStage::Integrate, self.num);
        self.pass1d(&mut plan, FlipStage::Clear, all);
        self.pass1d(&mut plan, FlipStage::P2g, self.num);
        self.pass1d(&mut plan, FlipStage::Normalize, faces);
        self.pass2d(&mut plan, FlipStage::Divergence);
        let ghost head = plan@;
        let mut sweep: usize = 0;
        assert(plan@ =~= head + self@.pressure_passes(0));
        while sweep < self.sweeps
            invariant
                sweep <= self.sweeps,
                plan@ == head + self@.pressure_passes(sweep as nat),
            decreases self.sweeps - sweep,
        {
            self.pass2d(&mut plan, FlipStage::SorRed);
            self.pass2d(&mut plan, FlipStage::SorBlack);
            sweep = sweep + 1;
            assert(plan@ =~= head + self@.pressure_passes(sweep as nat));
        }
        self.pass1d(&mut plan, FlipStage::SubtractGradient, faces);
        self.pass1d(&mut plan, FlipStage::G2p, self.num);
        assert(plan@ =~= self@.step_passes());
        plan
    }
}

/// Where the faces of a grid can be counted, so can its cells.
proof fn lemma_cells_fit(nx: int, ny: int)
    requires
        0 <= nx,
        0 <= ny,
        (nx + 1) * ny <= u32::MAX,
        nx * (ny + 1) <= u32::MAX,
    ensures
        0 <= nx * ny <= u32::MAX,
        0 <= (nx + 1) * ny,
        0 <= nx * (ny + 1),
{
    assert(0 <= nx * ny && nx * ny <= (nx + 1) * ny && 0 <= nx * (ny + 1)) by (nonlinear_arith)
        requires
            0 <= nx,
            0 <= ny,
    ;
}

/// A step takes two passes for each sweep, and seven around them.
pub proof fn law_passes_of_a_step<T: Scalar>(flip: GpuFlipModel<T>)
    ensures
        flip.step_passes().len() == 2 * flip.sweeps + 7,
{
}

/// The sweeps go over the cells in red and in black in turn, and end with black.
pub proof fn law_sweeps_alternate<T: Scalar>(flip: GpuFlipModel<T>, sweep: int)
    requires
        0 <= sweep < flip.sweeps,
    ensures
        flip.step_passes()[5 + 2 * sweep].stage == FlipStage::SorRed,
        flip.step_passes()[5 + 2 * sweep + 1].stage == FlipStage::SorBlack,
        flip.step_passes()[5 + 2 * flip.sweeps as int].stage == FlipStage::SubtractGradient,
{
}

/// The water on the graphics processor starts with the particles that the same
/// basin starts with on the main processor.
pub proof fn law_starts_like_the_basin<T: Scalar>(nx: u32, ny: u32, h: T)
    ensures
        GpuFlipModel::<T>::initial(nx, ny, h).start == FlipModel::initial(
            nx as int,
            ny as int,
            h,
        ).pos,
{
}

/// Cells from wall to wall of the basin of the backend.
pub const NX: u32 = 128;

/// Cells from the floor to the top of the basin of the backend.
pub const NY: u32 = 128;

/// Steps that a frame takes at most.
pub const MAX_SUB: usize = 8;

/// What a frame asks of the graphics processor: whether the particles are put
/// back, what the shaders are told where there are steps, and how many times the
/// passes are run.
pub struct FlipFrame<T> {
    pub reset: bool,
    pub params: Option<FlipParams<T>>,
    pub steps: usize,
    pub passes: Vec<FlipPass>,
}

/// The water on the graphics processor, with its controls.
pub struct GpuFlipBackendModel<T> {
    pub flip: GpuFlipModel<T>,
    pub g_scale: T,
    pub accum: T,
    pub pending: Vec2<T>,
}

impl<T: Scalar> GpuFlipBackendModel<T> {
    /// The water at the start.
    pub open spec fn initial() -> GpuFlipBackendModel<T> {
        GpuFlipBackendModel {
            flip: GpuFlipModel::initial(NX, NY, lit(1, 1)),
            g_scale: lit(1, 1),
            accum: lit(0, 1),
            pending: Vec2::origin(),
        }
    }

    /// The jolt that is still to be given, with that of the frame: by the left and
    /// right keys sideways, by the space bar upward.
    pub open spec fn jolted(self, input: InputModel<T>) -> Vec2<T> {
        let a = if input.pressed.contains(Key::ArrowLeft) {
            diff(self.pending.x, lit(14, 1))
        } else {
            self.pending.x
        };
        Vec2 {
            x: if input.pressed.contains(Key::ArrowRight) {
                sum(a, lit(14, 1))
            } else {
                a
            },
            y: if input.pressed.contains(Key::Space) {
                sum(self.pending.y, lit(14, 1))
            } else {
                self.pending.y
            },
        }
    }

    /// The controls of a frame of `dt` seconds applied.
    pub open spec fn controlled(self, dt: T, input: InputModel<T>) -> GpuFlipBackendModel<T> {
        GpuFlipBackendModel {
            pending: self.jolted(input),
            g_scale: if input.pressed.contains(Key::KeyR) {
                lit(1, 1)
            } else {
                pulled(self.g_scale, dt, input)
            },
            ..self
        }
    }

    /// Steps of a frame of `dt` seconds.
    pub open spec fn steps(self, dt: T) -> nat {
        steps_in(saved_up(self.accum, dt), lit(1, 120), MAX_SUB as nat)
    }

    /// The time of a frame of `dt` seconds turned into steps. Where there are any,
    /// they share the jolt out among them.
    pub open spec fn advanced(self, dt: T) -> GpuFlipBackendModel<T> {
        let n = self.steps(dt);
        let accum = rest_of(saved_up(self.accum, dt), lit(1, 120), MAX_SUB as nat);
        if n > 0 {
            GpuFlipBackendModel {
                flip: self.flip.framed(
                    Vec2 { x: lit(0, 1), y: prod(neg(lit(9, 1)), self.g_scale) },
                    lit(1, 120),
                    self.pending.div_of(count(n as usize)),
                ),
                pending: Vec2::origin(),
                accum,
                ..self
            }
        } else {
            GpuFlipBackendModel { accum, ..self }
        }
    }

    /// The water after a frame of `dt` seconds.
    pub open spec fn updated(self, dt: T, input: InputModel<T>) -> GpuFlipBackendModel<T> {
        self.controlled(dt, input).advanced(dt)
    }
}

/// The water on the graphics processor, with its controls.
pub struct GpuFlipBackend<T> {
    flip: GpuFlip<T>,
    g_scale: T,
    accum: T,
    pending: Vec2<T>,
}

impl<T: Scalar> View for GpuFlipBackend<T> {
    type V = GpuFlipBackendModel<T>;

    closed spec fn view(&self) -> GpuFlipBackendModel<T> {
        GpuFlipBackendModel {
            flip: self.flip@,
            g_scale: self.g_scale,
            accum: self.accum,
            pending: self.pending,
        }
    }
}

impl<T: Scalar> GpuFlipBackend<T> {
    /// The solver is sound.
    pub closed spec fn valid(self) -> bool {
        self.flip.valid()
    }

    /// Water in its basin.
    pub fn new() -> (b: Self)
        requires
            exact::<T>(),
        ensures
            b@ == GpuFlipBackendModel::<T>::initial(),
            b.valid(),
    {
        GpuFlipBackend {
            flip: GpuFlip::new(NX, NY, T::ratio(1, 1)),
            g_scale: T::ratio(1, 1),
            accum: T::ratio(0, 1),
            pending: Vec2::zero(),
        }
    }

    /// Advance the water by a frame of `dt_real` seconds.
    pub fn update(&mut self, dt_real: T, input: &Input<T>) -> (frame: FlipFrame<T>)
        requires
            exact::<T>(),
            old(self).valid(),
        ensures
            final(self)@ == old(self)@.updated(dt_real, input@),
            final(self).valid(),
            frame.reset == input@.pressed.contains(Key::KeyR),
            frame.steps == old(self)@.steps(dt_real),
            frame.params == if frame.steps > 0 {
                Some(final(self)@.flip.params)
            } else {
                None
            },
            frame.passes@ == final(self)@.flip.step_passes(),
    {
        let reset: bool = self.control(dt_real, input);
        let dt: T = T::ratio(1, 120);
        let saved: T = self.accum.plus(dt_real.lower(T::ratio(5, 100)));
        let (steps, rest): (usize, T) = drain(saved, dt, MAX_SUB);
        self.accum = rest;
        let mut params: Option<FlipParams<T>> = None;
        if steps > 0 {
            let gravity: [T; 2] = [T::ratio(0, 1), T::ratio(9, 1).negate().times(self.g_scale)];
            let share: Vec2<T> = self.pending.over(T::of_count(steps));
            let impulse: [T; 2] = [share.x, share.y];
            self.pending = Vec2::zero();
            self.flip.set_frame(gravity, dt, impulse);
            params = Some(self.flip.upload_params());
        }
        FlipFrame { reset, params, steps, passes: self.flip.record_step() }
    }

    /// Apply the controls of a frame, and say whether the particles are put back.
    fn control(&mut self, dt_real: T, input: &Input<T>) -> (reset: bool)
        requires
            exact::<T>(),
            old(self).valid(),
        ensures
            final(self)@ == old(self)@.controlled(dt_real, input@),
            final(self).valid(),
            reset == input@.pressed.contains(Key::KeyR),
    {
        let shake: T = T::ratio(14, 1);
        let mut pending: Vec2<T> = self.pending;
        if input.pressed(Key::ArrowLeft) {
            pending = vec2(pending.x.minus(shake), pending.y);
        }
        if input.pressed(Key::ArrowRight) {
            pending = vec2(pending.x.plus(shake), pending.y);
        }
        if input.pressed(Key::Space) {
            pending = vec2(pending.x, pending.y.plus(shake));
        }
        self.pending = pending;
        self.g_scale = pull(self.g_scale, dt_real, input);
        let reset: bool = input.pressed(Key::KeyR);
        if reset {
            self.g_scale = T::ratio(1, 1);
        }
        reset
    }

    /// The solver, whose buffers are to be made.
    pub fn solver(&self) -> (flip: &GpuFlip<T>)
        requires
            self.valid(),
        ensures
            flip@ == self@.flip,
            flip.valid(),
    {
        &self.flip
    }

    /// How the particles are drawn.
    pub fn dot_params(&self) -> (params: DotParams<T>)
        requires
            exact::<T>(),
            self.valid(),
        ensures
            params == (DotParams {
                capacity: self@.flip.params.num,
                domain_w: stretch(self@.flip.nx, self@.flip.h),
                domain_h: stretch(self@.flip.ny, self@.flip.h),
                radius: prod(lit(1, 1), lit(45, 100)),
                max_speed: lit(25, 1),
            }),
    {
        let (domain_w, domain_h): (T, T) = self.flip.domain();
        DotParams {
            capacity: self.flip.num(),
            domain_w,
            domain_h,
            radius: T::ratio(1, 1).times(T::ratio(45, 100)),
            max_speed: T::ratio(25, 1),
        }
    }

    /// Display name.
    pub fn name(&self) -> (name: &'static str)
        ensures
            name@ == "GPU FLIP"@,
    {
        "GPU FLIP"
    }

    /// Strength of gravity.
    pub fn gravity_scale(&self) -> (g: T)
        ensures
            g == self@.g_scale,
    {
        self.g_scale
    }

    /// Set the strength of gravity.
    pub fn set_gravity_scale(&mut self, g: T)
        ensures
            final(self)@ == (GpuFlipBackendModel { g_scale: g, ..old(self)@ }),
            old(self).valid() ==> final(self).valid(),
    {
        self.g_scale = g;
    }
}

/// A jolt waits for a frame that has steps, and is then given once: the steps
/// share it out, and none of it is left. Without steps it is kept.
pub proof fn law_jolt_is_given_once<T: Scalar>(
    water: GpuFlipBackendModel<T>,
    dt: T,
    input: InputModel<T>,
)
    ensures
        water.steps(dt) <= MAX_SUB,
        ({
            let n = water.steps(dt);
            let after = water.updated(dt, input);
            let share = water.jolted(input).div_of(count(n as usize));
            if n > 0 {
                &&& after.pending == Vec2::<T>::origin()
                &&& after.flip.params.impulse_x == share.x
                &&& after.flip.params.impulse_y == share.y
            } else {
                &&& after.pending == water.jolted(input)
                &&& after.flip == water.flip
            }
        }),
{
    law_no_time_piles_up(saved_up(water.accum, dt), lit(1, 120), MAX_SUB as nat);
}

} // verus!
