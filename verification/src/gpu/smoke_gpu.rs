//! Smoke on the graphics processor: its buffers, and the passes of a step. The
//! pressure is solved by a Jacobi relaxation that goes back and forth between
//! two buffers.

use crate::gpu::backend::{Input, Key};
use crate::gpu::dispatch::cover;
use crate::scalar::Scalar;
#[allow(unused_imports)]
use crate::gpu::backend::InputModel;
#[allow(unused_imports)]
use crate::gpu::dispatch::groups_for;
#[allow(unused_imports)]
use crate::scalar::{exact, lesser, lit, lt};
use vstd::prelude::*;

verus! {

/// Rounds of the relaxation in a projection.
pub const ITERS: usize = 40;

/// Threads along a side of a workgroup.
pub const WG: u32 = 8;

/// What the shaders are told.
#[derive(Clone, Copy)]
pub struct SmokeParams<T> {
    pub n: u32,
    pub dt: T,
    pub buoyancy: T,
    pub dissipation: T,
    pub src_amount: T,
    pub src_vy: T,
    pub src_half: u32,
    pub src_y: u32,
}

/// A field of the grid.
#[derive(Clone, Copy, PartialEq, Eq, Debug, Structural)]
pub enum SmokeBuffer {
    U,
    V,
    Nu,
    Nv,
    Dens,
    Ndens,
    P,
    Q,
    Div,
}

/// A shader.
#[derive(Clone, Copy, PartialEq, Eq, Debug, Structural)]
pub enum SmokeStage {
    Forces,
    Divergence,
    Jacobi,
    SubtractGradient,
    AdvectVel,
    AdvectDens,
}

/// Which of the two pressure buffers a pass reads.
#[derive(Clone, Copy, PartialEq, Eq, Debug, Structural)]
pub enum SmokeBinding {
    Main,
    Swap,
}

/// One command of a step.
#[derive(Clone, Copy, PartialEq, Eq, Debug, Structural)]
pub enum SmokeCommand {
    /// Run a shader with `groups` by `groups` workgroups.
    Pass { stage: SmokeStage, binding: SmokeBinding, groups: u32 },
    /// Copy a field over another.
    Copy { from: SmokeBuffer, to: SmokeBuffer, bytes: u64 },
}

/// Workgroups along a side of a grid of `n` by `n` cells.
pub fn groups(n: u32) -> (g: u32)
    ensures
        g == groups_for(n as int, WG as int),
{
    cover(n, WG)
}

impl SmokeStage {
    /// Entry point of the shader.
    pub open spec fn title(self) -> Seq<char> {
        match self {
            SmokeStage::Forces => "forces"@,
            SmokeStage::Divergence => "divergence"@,
            SmokeStage::Jacobi => "jacobi"@,
            SmokeStage::SubtractGradient => "subtract_gradient"@,
            SmokeStage::AdvectVel => "advect_vel"@,
            SmokeStage::AdvectDens => "advect_dens"@,
        }
    }

    /// Entry point of the shader.
    pub fn entry(self) -> (name: &'static str)
        ensures
            name@ == self.title(),
    {
        match self {
            SmokeStage::Forces => "forces",
            SmokeStage::Divergence => "divergence",
            SmokeStage::Jacobi => "jacobi",
            SmokeStage::SubtractGradient => "subtract_gradient",
            SmokeStage::AdvectVel => "advect_vel",
            SmokeStage::AdvectDens => "advect_dens",
        }
    }
}

impl SmokeBinding {
    /// The pressure buffer that a pass reads.
    pub open spec fn reads(self) -> SmokeBuffer {
        match self {
            SmokeBinding::Main => SmokeBuffer::P,
            SmokeBinding::Swap => SmokeBuffer::Q,
        }
    }

    /// The pressure buffer that a pass writes.
    pub open spec fn writes(self) -> SmokeBuffer {
        match self {
            SmokeBinding::Main => SmokeBuffer::Q,
            SmokeBinding::Swap => SmokeBuffer::P,
        }
    }

    /// The fields in the order of their binding numbers, from one on.
    pub open spec fn order(self) -> Seq<SmokeBuffer> {
        seq![
            SmokeBuffer::U,
            SmokeBuffer::V,
            SmokeBuffer::Nu,
            SmokeBuffer::Nv,
            SmokeBuffer::Dens,
            SmokeBuffer::Ndens,
            self.reads(),
            self.writes(),
            SmokeBuffer::Div,
        ]
    }

    /// The fields in the order of their binding numbers, from one on.
    pub fn buffers(self) -> (list: Vec<SmokeBuffer>)
        ensures
            list@ == self.order(),
    {
        let (read, write): (SmokeBuffer, SmokeBuffer) = match self {
            SmokeBinding::Main => (SmokeBuffer::P, SmokeBuffer::Q),
            SmokeBinding::Swap => (SmokeBuffer::Q, SmokeBuffer::P),
        };
        let list: Vec<SmokeBuffer> = vec![
            SmokeBuffer::U,
            SmokeBuffer::V,
            SmokeBuffer::Nu,
            SmokeBuffer::Nv,
            SmokeBuffer::Dens,
            SmokeBuffer::Ndens,
            read,
            write,
            SmokeBuffer::Div,
        ];
        assert(list@ =~= self.order());
        list
    }
}

/// Bytes of a field of a grid of `n` by `n` cells and its border.
pub open spec fn field_bytes(n: int) -> int {
    (n + 2) * (n + 2) * 4
}

/// A pass over all cells of a grid of `n` by `n` cells.
pub open spec fn pass_of(n: int, stage: SmokeStage, binding: SmokeBinding) -> SmokeCommand {
    SmokeCommand::Pass { stage, binding, groups: groups_for(n, WG as int) as u32 }
}

/// The copy of a field of a grid of `n` by `n` cells over another.
pub open spec fn copy_of(n: int, from: SmokeBuffer, to: SmokeBuffer) -> SmokeCommand {
    SmokeCommand::Copy { from, to, bytes: field_bytes(n) as u64 }
}

/// Which of the two pressure buffers round `it` of the relaxation reads.
pub open spec fn side(it: int) -> SmokeBinding {
    if it % 2 == 0 {
        SmokeBinding::Main
    } else {
        SmokeBinding::Swap
    }
}

/// The passes of a projection: the divergence, the rounds of the relaxation, and
/// the gradient.
pub open spec fn projection(n: int) -> Seq<SmokeCommand> {
    seq![pass_of(n, SmokeStage::Divergence, SmokeBinding::Main)] + Seq::new(
        ITERS as nat,
        |it: int| pass_of(n, SmokeStage::Jacobi, side(it)),
    ) + seq![pass_of(n, SmokeStage::SubtractGradient, SmokeBinding::Main)]
}

/// The commands of a step: the forces, a projection, the advection of the
/// velocity, another projection, and the advection of the density.
pub open spec fn step_of(n: int) -> Seq<SmokeCommand> {
    seq![pass_of(n, SmokeStage::Forces, SmokeBinding::Main)] + projection(n) + seq![
        pass_of(n, SmokeStage::AdvectVel, SmokeBinding::Main),
        copy_of(n, SmokeBuffer::Nu, SmokeBuffer::U),
        copy_of(n, SmokeBuffer::Nv, SmokeBuffer::V),
    ] + projection(n) + seq![
        pass_of(n, SmokeStage::AdvectDens, SmokeBinding::Main),
        copy_of(n, SmokeBuffer::Ndens, SmokeBuffer::Dens),
    ]
}

/// The fields that a reset fills with zeros.
pub open spec fn reset_order() -> Seq<SmokeBuffer> {
    seq![
        SmokeBuffer::U,
        SmokeBuffer::V,
        SmokeBuffer::Dens,
        SmokeBuffer::P,
        SmokeBuffer::Q,
        SmokeBuffer::Div,
    ]
}

/// The smoke solver on the graphics processor.
pub struct GpuSmoke<T> {
    n: u32,
    params: SmokeParams<T>,
}

/// The smoke solver: its grid, and what the shaders are told.
pub struct GpuSmokeModel<T> {
    pub n: int,
    pub params: SmokeParams<T>,
}

impl<T: Scalar> View for GpuSmoke<T> {
    type V = GpuSmokeModel<T>;

    closed spec fn view(&self) -> GpuSmokeModel<T> {
        GpuSmokeModel { n: self.n as int, params: self.params }
    }
}

impl<T: Scalar> GpuSmokeModel<T> {
    /// The bytes of a field can be counted.
    pub open spec fn valid(self) -> bool {
        &&& 0 <= self.n
        &&& (self.n + 2) * (self.n + 2) <= u32::MAX
    }

    /// A solver for a grid of `n` by `n` cells, with its source on.
    pub open spec fn initial(n: u32) -> GpuSmokeModel<T> {
        GpuSmokeModel {
            n: n as int,
            params: SmokeParams {
                n,
                dt: lit(1, 30),
                buoyancy: lit(1, 1),
                dissipation: lit(4, 10),
                src_amount: lit(40, 1),
                src_vy: lit(6, 1),
                src_half: if n / 20 > 3 {
                    n / 20
                } else {
                    3
                },
                src_y: 4,
            },
        }
    }

    /// The look of the smoke set.
    pub open spec fn tuned(self, buoyancy: T, dissipation: T) -> GpuSmokeModel<T> {
        GpuSmokeModel { params: SmokeParams { buoyancy, dissipation, ..self.params }, ..self }
    }

    /// The next step set to `dt` seconds.
    pub open spec fn timed(self, dt: T) -> GpuSmokeModel<T> {
        GpuSmokeModel { params: SmokeParams { dt, ..self.params }, ..self }
    }

    /// The source turned on or off.
    pub open spec fn sourced(self, on: bool) -> GpuSmokeModel<T> {
        GpuSmokeModel {
            params: SmokeParams {
                src_amount: if on {
                    lit(40, 1)
                } else {
                    lit(0, 1)
                },
                src_vy: if on {
                    lit(6, 1)
                } else {
                    lit(0, 1)
                },
                ..self.params
            },
            ..self
        }
    }
}

impl<T: Scalar> GpuSmoke<T> {
    /// Solver for a grid of `n` by `n` cells.
    pub fn new(n: u32) -> (smoke: Self)
        requires
            exact::<T>(),
            (n + 2) * (n + 2) <= u32::MAX,
        ensures
            smoke@ == GpuSmokeModel::<T>::initial(n),
            smoke@.valid(),
    {
        let src_half: u32 = if n / 20 > 3 {
            n / 20
        } else {
            3
        };
        GpuSmoke {
            n,
            params: SmokeParams {
                n,
                dt: T::ratio(1, 30),
                buoyancy: T::ratio(1, 1),
                dissipation: T::ratio(4, 10),
                src_amount: T::ratio(40, 1),
                src_vy: T::ratio(6, 1),
                src_half,
                src_y: 4,
            },
        }
    }

    /// Cells along a side of the grid.
    pub fn n(&self) -> (n: u32)
        ensures
            n == self@.n,
    {
        self.n
    }

    /// What the shaders are to be told.
    pub fn upload_params(&self) -> (params: SmokeParams<T>)
        ensures
            params == self@.params,
    {
        self.params
    }

    /// The field that is drawn.
    pub fn dens_buffer(&self) -> (buffer: SmokeBuffer)
        ensures
            buffer == SmokeBuffer::Dens,
    {
        SmokeBuffer::Dens
    }

    /// Size of a field.
    pub fn buffer_bytes(&self) -> (bytes: u64)
        requires
            self@.valid(),
        ensures
            bytes == field_bytes(self@.n),
    {
        proof {
            lemma_side_fits(self.n as int);
        }
        let cells: u32 = (self.n + 2) * (self.n + 2);
        cells as u64 * 4
    }

    /// Set the look of the smoke.
    pub fn set_params(&mut self, buoyancy: T, dissipation: T)
        ensures
            final(self)@ == old(self)@.tuned(buoyancy, dissipation),
    {
        self.params.buoyancy = buoyancy;
        self.params.dissipation = dissipation;
    }

    /// Set the next step to `dt` seconds.
    pub fn set_dt(&mut self, dt: T)
        ensures
            final(self)@ == old(self)@.timed(dt),
    {
        self.params.dt = dt;
    }

    /// Turn the source at the bottom on or off.
    pub fn set_source(&mut self, on: bool)
        requires
            exact::<T>(),
        ensures
            final(self)@ == old(self)@.sourced(on),
    {
        self.params.src_amount = if on {
            T::ratio(40, 1)
        } else {
            T::ratio(0, 1)
        };
        self.params.src_vy = if on {
            T::ratio(6, 1)
        } else {
            T::ratio(0, 1)
        };
    }

    /// The fields to be filled with zeros.
    pub fn reset(&self) -> (list: Vec<SmokeBuffer>)
        ensures
            list@ == reset_order(),
    {
        let list: Vec<SmokeBuffer> = vec![
            SmokeBuffer::U,
            SmokeBuffer::V,
            SmokeBuffer::Dens,
            SmokeBuffer::P,
            SmokeBuffer::Q,
            SmokeBuffer::Div,
        ];
        assert(list@ =~= reset_order());
        list
    }

    /// Append a pass over all cells.
    fn pass(&self, plan: &mut Vec<SmokeCommand>, stage: SmokeStage, binding: SmokeBinding)
        ensures
            final(plan)@ == old(plan)@.push(pass_of(self@.n, stage, binding)),
    {
        plan.push(SmokeCommand::Pass { stage, binding, groups: groups(self.n) });
    }

    /// Append a projection.
    fn project(&self, plan: &mut Vec<SmokeCommand>)
        ensures
            final(plan)@ == old(plan)@ + projection(self@.n),
    {
        let ghost n = self@.n;
        let ghost head = old(plan)@.push(pass_of(n, SmokeStage::Divergence, SmokeBinding::Main));
        self.pass(plan, SmokeStage::Divergence, SmokeBinding::Main);
        let mut it: usize = 0;
        while it < ITERS
            invariant
                it <= ITERS,
                n == self@.n,
                plan@ == head + Seq::new(
                    it as nat,
                    |it: int| pass_of(n, SmokeStage::Jacobi, side(it)),
                ),
            decreases ITERS - it,
        {
            let binding: SmokeBinding = if it % 2 == 0 {
                SmokeBinding::Main
            } else {
                SmokeBinding::Swap
            };
            self.pass(plan, SmokeStage::Jacobi, binding);
            it = it + 1;
            assert(plan@ =~= head + Seq::new(
                it as nat,
                |it: int| pass_of(n, SmokeStage::Jacobi, side(it)),
            ));
        }
        self.pass(plan, SmokeStage::SubtractGradient, SmokeBinding::Main);
        assert(plan@ =~= old(plan)@ + projection(n));
    }

    /// The commands of a step.
    pub fn record_step(&self) -> (plan: Vec<SmokeCommand>)
        requires
            self@.valid(),
        ensures
            plan@ == step_of(self@.n),
    {
        let ghost n = self@.n;
        let bytes: u64 = self.buffer_bytes();
        let mut plan: Vec<SmokeCommand> = Vec::new();
        self.pass(&mut plan, SmokeStage::Forces, SmokeBinding::Main);
        self.project(&mut plan);
        self.pass(&mut plan, SmokeStage::AdvectVel, SmokeBinding::Main);
        plan.push(SmokeCommand::Copy { from: SmokeBuffer::Nu, to: SmokeBuffer::U, bytes });
        plan.push(SmokeCommand::Copy { from: SmokeBuffer::Nv, to: SmokeBuffer::V, bytes });
        self.project(&mut plan);
        self.pass(&mut plan, SmokeStage::AdvectDens, SmokeBinding::Main);
        plan.push(SmokeCommand::Copy { from: SmokeBuffer::Ndens, to: SmokeBuffer::Dens, bytes });
        assert(plan@ =~= step_of(n));
        plan
    }
}

/// Where the cells of a grid can be counted, so can those along its side.
proof fn lemma_side_fits(n: int)
    requires
        0 <= n,
        (n + 2) * (n + 2) <= u32::MAX,
    ensures
        n + 2 <= u32::MAX,
        field_bytes(n) <= u64::MAX,
{
    assert(n + 2 <= (n + 2) * (n + 2)) by (nonlinear_arith)
        requires
            0 <= n,
    ;
}

/// The relaxation hands the pressure on: each round reads the buffer that the
/// round before wrote, the first reads the buffer that the divergence pass was
/// bound with, and the gradient pass reads the buffer that the last round wrote.
pub proof fn law_pressure_ends_where_it_is_read(it: int)
    requires
        0 <= it < ITERS,
    ensures
        side(0) == SmokeBinding::Main,
        it > 0 ==> side(it).reads() == side(it - 1).writes(),
        side(it).reads() != side(it).writes(),
        side(ITERS - 1).writes() == SmokeBinding::Main.reads(),
{
}

/// A step has two projections and six commands around them.
pub proof fn law_step_length(n: int)
    ensures
        projection(n).len() == ITERS + 2,
        step_of(n).len() == 2 * (ITERS + 2) + 6,
{
}

/// Turning the source off and on again gives back what it gave.
pub proof fn law_source_toggles<T: Scalar>(smoke: GpuSmokeModel<T>, on: bool)
    ensures
        smoke.sourced(!on).sourced(on) == smoke.sourced(on),
        GpuSmokeModel::<T>::initial(smoke.params.n).sourced(true) == GpuSmokeModel::<T>::initial(
            smoke.params.n,
        ),
{
}

/// Cells along a side of the grid of the backend.
pub const SMOKE_N: u32 = 256;

/// What the shader that draws the smoke is told.
#[derive(Clone, Copy)]
pub struct SmokeRenderParams<T> {
    pub n: u32,
    pub display_k: T,
}

/// What a frame asks of the graphics processor: the fields to be filled with
/// zeros, what the shaders are told, and the commands.
pub struct SmokeFrame<T> {
    pub cleared: Vec<SmokeBuffer>,
    pub params: SmokeParams<T>,
    pub commands: Vec<SmokeCommand>,
}

/// The smoke on the graphics processor, with its controls.
pub struct GpuSmokeBackendModel<T> {
    pub smoke: GpuSmokeModel<T>,
    pub buoyancy: T,
    pub dissipation: T,
    pub source_on: bool,
}

impl<T: Scalar> GpuSmokeBackendModel<T> {
    /// Clear air, with the source on.
    pub open spec fn initial() -> GpuSmokeBackendModel<T> {
        GpuSmokeBackendModel {
            smoke: GpuSmokeModel::initial(SMOKE_N),
            buoyancy: lit(1, 1),
            dissipation: lit(4, 10),
            source_on: true,
        }
    }

    /// The part of a frame of `dt` seconds that counts: no more than a thirtieth of
    /// a second.
    pub open spec fn share(dt: T) -> T {
        lesser(dt, lit(1, 30))
    }

    /// The smoke after a frame of `dt` seconds.
    pub open spec fn updated(self, dt: T, input: InputModel<T>) -> GpuSmokeBackendModel<T> {
        let on = if input.pressed.contains(Key::KeyS) {
            !self.source_on
        } else {
            self.source_on
        };
        GpuSmokeBackendModel {
            smoke: self.smoke.timed(Self::share(dt)).tuned(self.buoyancy, self.dissipation).sourced(
                on,
            ),
            source_on: on,
            ..self
        }
    }

    /// The commands of a frame of `dt` seconds: a step, or none where no time has
    /// passed.
    pub open spec fn work(self, dt: T) -> Seq<SmokeCommand> {
        if lt(lit(0, 1), dt) {
            step_of(self.smoke.n)
        } else {
            seq![]
        }
    }
}

/// The smoke on the graphics processor, with its controls.
pub struct GpuSmokeBackend<T> {
    smoke: GpuSmoke<T>,
    buoyancy: T,
    dissipation: T,
    source_on: bool,
}

impl<T: Scalar> View for GpuSmokeBackend<T> {
    type V = GpuSmokeBackendModel<T>;

    closed spec fn view(&self) -> GpuSmokeBackendModel<T> {
        GpuSmokeBackendModel {
            smoke: self.smoke@,
            buoyancy: self.buoyancy,
            dissipation: self.dissipation,
            source_on: self.source_on,
        }
    }
}

impl<T: Scalar> GpuSmokeBackend<T> {
    /// Clear air, with the source on.
    pub fn new() -> (b: Self)
        requires
            exact::<T>(),
        ensures
            b@ == GpuSmokeBackendModel::<T>::initial(),
            b@.smoke.valid(),
    {
        GpuSmokeBackend {
            smoke: GpuSmoke::new(SMOKE_N),
            buoyancy: T::ratio(1, 1),
            dissipation: T::ratio(4, 10),
            source_on: true,
        }
    }

    /// Advance the smoke by a frame of `dt_real` seconds. The step is as long as the
    /// frame, but no longer than a thirtieth of a second; where no time has passed,
    /// the fields are left alone but for a reset.
    pub fn update(&mut self, dt_real: T, input: &Input<T>) -> (frame: SmokeFrame<T>)
        requires
            exact::<T>(),
            old(self)@.smoke.valid(),
        ensures
            final(self)@ == old(self)@.updated(dt_real, input@),
            final(self)@.smoke.valid(),
            frame.params == final(self)@.smoke.params,
            frame.params.dt == lesser(dt_real, lit(1, 30)),
            frame.commands@ == old(self)@.work(dt_real),
            frame.cleared@ == if input@.pressed.contains(Key::KeyR) {
                reset_order()
            } else {
                seq![]
            },
    {
        if input.pressed(Key::KeyS) {
            self.source_on = !self.source_on;
        }
        let mut cleared: Vec<SmokeBuffer> = Vec::new();
        if input.pressed(Key::KeyR) {
            cleared = self.smoke.reset();
        }
        self.smoke.set_dt(dt_real.lower(T::ratio(1, 30)));
        self.smoke.set_params(self.buoyancy, self.dissipation);
        self.smoke.set_source(self.source_on);
        let mut commands: Vec<SmokeCommand> = Vec::new();
        if T::ratio(0, 1).below(dt_real) {
            commands = self.smoke.record_step();
        }
        SmokeFrame { cleared, params: self.smoke.upload_params(), commands }
    }

    /// The solver, whose fields are to be made.
    pub fn solver(&self) -> (smoke: &GpuSmoke<T>)
        ensures
            smoke@ == self@.smoke,
    {
        &self.smoke
    }

    /// What the shader that draws the smoke is told.
    pub fn render_params(&self) -> (params: SmokeRenderParams<T>)
        requires
            exact::<T>(),
        ensures
            params == (SmokeRenderParams { n: SMOKE_N, display_k: lit::<T>(15, 10) }),
    {
        SmokeRenderParams { n: SMOKE_N, display_k: T::ratio(15, 10) }
    }

    /// Display name.
    pub fn name(&self) -> (name: &'static str)
        ensures
            name@ == "GPU smoke"@,
    {
        "GPU smoke"
    }

    /// Buoyancy, dissipation, and whether the source is on.
    pub fn settings(&self) -> (s: (T, T, bool))
        ensures
            s == (self@.buoyancy, self@.dissipation, self@.source_on),
    {
        (self.buoyancy, self.dissipation, self.source_on)
    }

    /// Set buoyancy, dissipation, and whether the source is on.
    pub fn set(&mut self, buoyancy: T, dissipation: T, source_on: bool)
        ensures
            final(self)@ == (GpuSmokeBackendModel {
                buoyancy,
                dissipation,
                source_on,
                ..old(self)@
            }),
    {
        self.buoyancy = buoyancy;
        self.dissipation = dissipation;
        self.source_on = source_on;
    }
}

/// A frame goes by the time that it took: where none has passed there is nothing to
/// do, and otherwise there is one step, told the frame's time up to a thirtieth of
/// a second.
pub proof fn law_frames_go_by_the_time<T: Scalar>(
    b: GpuSmokeBackendModel<T>,
    dt: T,
    input: InputModel<T>,
)
    ensures
        b.updated(dt, input).smoke.params.dt == lesser(dt, lit(1, 30)),
        !lt(lit(0, 1), dt) ==> b.work(dt).len() == 0,
        lt(lit(0, 1), dt) ==> b.work(dt) == step_of(b.smoke.n),
{
}

} // verus!
