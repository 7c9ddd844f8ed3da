//! Smoothed particles on the graphics processor: their buffers, and the passes
//! of a step.

use crate::gpu::controls::Restart;
use crate::gpu::dispatch::cover;
use crate::scalar::Scalar;
use crate::sim::{sph_constants, Sim, SphConstants};
#[allow(unused_imports)]
use crate::gpu::dispatch::groups_for;
#[allow(unused_imports)]
use crate::neighbors::indexable;
#[allow(unused_imports)]
use crate::scalar::{ceiling, exact, exact_powi, lit, quot, word};
#[allow(unused_imports)]
use crate::sim::{reach, Bounds, Shape, SimModel};
#[allow(unused_imports)]
use crate::vec2::{as_vectors, Vec2};
use vstd::prelude::*;

verus! {

/// Particles that a cell of the grid has room for.
pub const GRID_CAP: u32 = 64;

/// Threads of a workgroup.
pub const WORKGROUP: u32 = 64;

/// What the shaders are told.
#[derive(Clone, Copy)]
pub struct SphParams<T> {
    pub num: u32,
    pub cols: u32,
    pub rows: u32,
    pub grid_cap: u32,
    pub h: T,
    pub mass: T,
    pub poly6: T,
    pub spiky_grad: T,
    pub visc_lap: T,
    pub visc: T,
    pub rest_dens: T,
    pub stiffness: T,
    pub gravity_x: T,
    pub gravity_y: T,
    pub dt: T,
    pub max_speed: T,
    pub bound_w: T,
    pub bound_h: T,
    pub bound_shape: u32,
    pub bound_damping: T,
    pub particle_radius: T,
    pub impulse_x: T,
    pub impulse_y: T,
}

/// A buffer of the particles or of the grid.
#[derive(Clone, Copy, PartialEq, Eq, Debug, Structural)]
pub enum SphBuffer {
    Pos,
    Vel,
    Force,
    Rho,
    Pressure,
    GridCount,
    GridCells,
}

/// A shader.
#[derive(Clone, Copy, PartialEq, Eq, Debug, Structural)]
pub enum SphStage {
    ClearGrid,
    BuildGrid,
    DensityPressure,
    Forces,
    Integrate,
}

/// One pass of a step: a shader, its workgroups, and the two slots that its time
/// is taken in.
#[derive(Clone, Copy, PartialEq, Eq, Debug, Structural)]
pub struct SphPass {
    pub stage: SphStage,
    pub groups: u32,
    pub begin: Option<u32>,
    pub end: Option<u32>,
}

/// Workgroups for `n` items.
pub fn workgroups(n: u32) -> (g: u32)
    ensures
        g == groups_for(n as int, WORKGROUP as int),
{
    cover(n, WORKGROUP)
}

impl SphStage {
    /// Entry point of the shader.
    pub open spec fn title(self) -> Seq<char> {
        match self {
            SphStage::ClearGrid => "clear_grid"@,
            SphStage::BuildGrid => "build_grid"@,
            SphStage::DensityPressure => "density_pressure"@,
            SphStage::Forces => "forces"@,
            SphStage::Integrate => "integrate"@,
        }
    }

    /// Entry point of the shader.
    pub fn entry(self) -> (name: &'static str)
        ensures
            name@ == self.title(),
    {
        match self {
            SphStage::ClearGrid => "clear_grid",
            SphStage::BuildGrid => "build_grid",
            SphStage::DensityPressure => "density_pressure",
            SphStage::Forces => "forces",
            SphStage::Integrate => "integrate",
        }
    }
}

/// The buffers in the order of their binding numbers, from one on.
pub open spec fn binding_order() -> Seq<SphBuffer> {
    seq![
        SphBuffer::Pos,
        SphBuffer::Vel,
        SphBuffer::Force,
        SphBuffer::Rho,
        SphBuffer::Pressure,
        SphBuffer::GridCount,
        SphBuffer::GridCells,
    ]
}

/// The buffers in the order of their binding numbers, from one on.
pub fn bindings() -> (list: Vec<SphBuffer>)
    ensures
        list@ == binding_order(),
{
    let list: Vec<SphBuffer> = vec![
        SphBuffer::Pos,
        SphBuffer::Vel,
        SphBuffer::Force,
        SphBuffer::Rho,
        SphBuffer::Pressure,
        SphBuffer::GridCount,
        SphBuffer::GridCells,
    ];
    assert(list@ =~= binding_order());
    list
}

/// Whole cells that a side of the given length takes up.
pub open spec fn cells_along<T: Scalar>(side: T) -> int {
    word(ceiling(quot(side, reach()))) + 1
}

/// The cells of the grid over a domain of the given size can be counted.
pub open spec fn countable<T: Scalar>(w: T, h: T) -> bool {
    &&& cells_along(w) <= u32::MAX
    &&& cells_along(h) <= u32::MAX
    &&& cells_along(w) * cells_along(h) <= u32::MAX
}

/// The particle solver: its grid, its domain, what the shaders are told, and
/// where the particles start.
#[verifier::ext_equal]
pub struct GpuSimModel<T> {
    pub params: SphParams<T>,
    pub cols: int,
    pub rows: int,
    pub domain: (T, T),
    pub start: Seq<Vec2<T>>,
}

impl<T: Scalar> GpuSimModel<T> {
    /// The cells of the grid can be counted, and the shaders are told the number
    /// of particles.
    pub open spec fn valid(self) -> bool {
        &&& 0 <= self.cols <= u32::MAX
        &&& 0 <= self.rows <= u32::MAX
        &&& self.cols * self.rows <= u32::MAX
        &&& self.params.num == self.start.len() as u32
    }

    /// The solver for a domain of the given size, with the fluid that a box of
    /// that size starts with.
    pub open spec fn initial(w: T, h: T) -> GpuSimModel<T> {
        let fluid = SimModel::initial(w, h);
        let k = SphConstants::<T>::tuned();
        GpuSimModel {
            params: SphParams {
                num: fluid.pos.len() as u32,
                cols: cells_along(w) as u32,
                rows: cells_along(h) as u32,
                grid_cap: GRID_CAP,
                h: k.h,
                mass: k.mass,
                poly6: k.poly6,
                spiky_grad: k.spiky_grad,
                visc_lap: k.visc_lap,
                visc: k.visc,
                rest_dens: fluid.rest_dens,
                stiffness: k.stiffness,
                gravity_x: lit(0, 1),
                gravity_y: lit(1200, 1),
                dt: lit(8, 10000),
                max_speed: k.max_speed,
                bound_w: w,
                bound_h: h,
                bound_shape: 0,
                bound_damping: k.bound_damping,
                particle_radius: k.particle_radius,
                impulse_x: lit(0, 1),
                impulse_y: lit(0, 1),
            },
            cols: cells_along(w),
            rows: cells_along(h),
            domain: (w, h),
            start: fluid.pos,
        }
    }

    /// The inputs of a frame set.
    pub open spec fn framed(
        self,
        gravity: Vec2<T>,
        dt: T,
        impulse: Vec2<T>,
        shape: u32,
    ) -> GpuSimModel<T> {
        GpuSimModel {
            params: SphParams {
                gravity_x: gravity.x,
                gravity_y: gravity.y,
                dt,
                impulse_x: impulse.x,
                impulse_y: impulse.y,
                bound_shape: shape,
                ..self.params
            },
            ..self
        }
    }

    /// Pass `i` of a step, with the slots that its time is taken in where it is
    /// to be timed.
    pub open spec fn pass_at(self, i: int, timed: bool) -> SphPass {
        let n = if i == 0 {
            self.cols * self.rows
        } else {
            self.params.num as int
        };
        SphPass {
            stage: stage_at(i),
            groups: groups_for(n, WORKGROUP as int) as u32,
            begin: if timed {
                Some((2 * i) as u32)
            } else {
                None
            },
            end: if timed {
                Some((2 * i + 1) as u32)
            } else {
                None
            },
        }
    }

    /// The passes of a step.
    pub open spec fn step_passes(self, timed: bool) -> Seq<SphPass> {
        Seq::new(PASSES as nat, |i: int| self.pass_at(i, timed))
    }

    /// Size of a buffer.
    pub open spec fn bytes_of(self, buffer: SphBuffer) -> int {
        let num = self.start.len() as u32;
        match buffer {
            SphBuffer::Pos => num * 8,
            SphBuffer::Vel => num * 8,
            SphBuffer::Force => num * 8,
            SphBuffer::Rho => num * 4,
            SphBuffer::Pressure => num * 4,
            SphBuffer::GridCount => self.cols * self.rows * 4,
            SphBuffer::GridCells => self.cols * self.rows * GRID_CAP * 4,
        }
    }
}

/// Passes of a step.
pub const PASSES: usize = 5;

/// Shader of pass `i` of a step.
pub open spec fn stage_at(i: int) -> SphStage {
    if i == 0 {
        SphStage::ClearGrid
    } else if i == 1 {
        SphStage::BuildGrid
    } else if i == 2 {
        SphStage::DensityPressure
    } else if i == 3 {
        SphStage::Forces
    } else {
        SphStage::Integrate
    }
}

/// The particle solver on the graphics processor.
pub struct GpuSim<T> {
    params: SphParams<T>,
    num: u32,
    cols: u32,
    rows: u32,
    domain: (T, T),
    initial_pos: Vec<[T; 2]>,
}

impl<T: Scalar> View for GpuSim<T> {
    type V = GpuSimModel<T>;

    closed spec fn view(&self) -> GpuSimModel<T> {
        GpuSimModel {
            params: self.params,
            cols: self.cols as int,
            rows: self.rows as int,
            domain: self.domain,
            start: as_vectors(self.initial_pos@),
        }
    }
}

impl<T: Scalar> GpuSim<T> {
    /// The cells can be counted, and the count of the particles is what the
    /// shaders are told.
    pub closed spec fn valid(self) -> bool {
        &&& self@.valid()
        &&& self.num == self.params.num
    }

    /// Whether the cells of the grid over a domain of the given size can be
    /// counted.
    pub fn fits(w: T, h: T) -> (fits: bool)
        requires
            exact::<T>(),
        ensures
            fits == countable(w, h),
    {
        let reach: T = T::ratio(16, 1);
        let (cols, rows): (u32, u32) = (w.over(reach).ceil().to_u32(), h.over(reach).ceil().to_u32());
        if cols == u32::MAX || rows == u32::MAX {
            return false;
        }
        (cols + 1).checked_mul(rows + 1).is_some()
    }

    /// Solver for a domain of the given size.
    pub fn new(w: T, h: T) -> (sim: Self)
        requires
            exact::<T>(),
            exact_powi::<T>(),
            indexable(Bounds { w, h, shape: Shape::Rect }),
            countable(w, h),
        ensures
            sim@ == GpuSimModel::initial(w, h),
            sim.valid(),
            sim@.valid(),
    {
        let fluid: Sim<T> = Sim::new(w, h);
        let initial_pos: Vec<[T; 2]> = fluid.positions_xy();
        let rest_dens: T = fluid.rest_density();
        let k: SphConstants<T> = sph_constants();
        let num: u32 = initial_pos.len() as u32;
        let cols: u32 = w.over(k.h).ceil().to_u32() + 1;
        let rows: u32 = h.over(k.h).ceil().to_u32() + 1;
        let zero: T = T::ratio(0, 1);
        let sim = GpuSim {
            params: SphParams {
                num,
                cols,
                rows,
                grid_cap: GRID_CAP,
                h: k.h,
                mass: k.mass,
                poly6: k.poly6,
                spiky_grad: k.spiky_grad,
                visc_lap: k.visc_lap,
                visc: k.visc,
                rest_dens,
                stiffness: k.stiffness,
                gravity_x: zero,
                gravity_y: T::ratio(1200, 1),
                dt: T::ratio(8, 10000),
                max_speed: k.max_speed,
                bound_w: w,
                bound_h: h,
                bound_shape: 0,
                bound_damping: k.bound_damping,
                particle_radius: k.particle_radius,
                impulse_x: zero,
                impulse_y: zero,
            },
            num,
            cols,
            rows,
            domain: (w, h),
            initial_pos,
        };
        assert(sim@ =~= GpuSimModel::initial(w, h));
        sim
    }

    /// Number of particles.
    pub fn num(&self) -> (num: u32)
        requires
            self.valid(),
        ensures
            num == self@.params.num,
    {
        self.num
    }

    /// Width and height of the domain.
    pub fn domain(&self) -> (d: (T, T))
        ensures
            d == self@.domain,
    {
        self.domain
    }

    /// Radius that a particle is drawn with.
    pub fn particle_radius(&self) -> (r: T)
        ensures
            r == self@.params.particle_radius,
    {
        self.params.particle_radius
    }

    /// The speed that no particle exceeds.
    pub fn max_speed(&self) -> (v: T)
        ensures
            v == self@.params.max_speed,
    {
        self.params.max_speed
    }

    /// The buffer of the positions.
    pub fn pos_buffer(&self) -> (buffer: SphBuffer)
        ensures
            buffer == SphBuffer::Pos,
    {
        SphBuffer::Pos
    }

    /// The buffer of the velocities.
    pub fn vel_buffer(&self) -> (buffer: SphBuffer)
        ensures
            buffer == SphBuffer::Vel,
    {
        SphBuffer::Vel
    }

    /// Size of a buffer.
    pub fn buffer_bytes(&self, buffer: SphBuffer) -> (bytes: u64)
        requires
            self.valid(),
        ensures
            bytes == self@.bytes_of(buffer),
    {
        proof {
            assert(0 <= self.cols * self.rows) by (nonlinear_arith)
                requires
                    0 <= self.cols,
                    0 <= self.rows,
            ;
        }
        let cells: u32 = self.cols * self.rows;
        assert(cells * GRID_CAP == cells * 64);
        match buffer {
            SphBuffer::Pos | SphBuffer::Vel | SphBuffer::Force => self.num as u64 * 8,
            SphBuffer::Rho | SphBuffer::Pressure => self.num as u64 * 4,
            SphBuffer::GridCount => cells as u64 * 4,
            SphBuffer::GridCells => cells as u64 * GRID_CAP as u64 * 4,
        }
    }

    /// Set the inputs of a frame. The impulse is added to every velocity in every
    /// step of the frame.
    pub fn set_frame(&mut self, gravity: [T; 2], dt: T, impulse: [T; 2], shape: u32)
        ensures
            final(self)@ == old(self)@.framed(
                Vec2 { x: gravity[0], y: gravity[1] },
                dt,
                Vec2 { x: impulse[0], y: impulse[1] },
                shape,
            ),
            old(self).valid() ==> final(self).valid(),
    {
        self.params.gravity_x = gravity[0];
        self.params.gravity_y = gravity[1];
        self.params.dt = dt;
        self.params.impulse_x = impulse[0];
        self.params.impulse_y = impulse[1];
        self.params.bound_shape = shape;
    }

    /// What the shaders are to be told.
    pub fn upload_params(&self) -> (params: SphParams<T>)
        ensures
            params == self@.params,
    {
        self.params
    }

    /// The passes of a step, with the slots that their times are taken in where
    /// they are to be timed.
    fn record(&self, timed: bool) -> (plan: Vec<SphPass>)
        requires
            self.valid(),
        ensures
            plan@ == self@.step_passes(timed),
    {
        proof {
            assert(0 <= self.cols * self.rows) by (nonlinear_arith)
                requires
                    0 <= self.cols,
                    0 <= self.rows,
            ;
        }
        let cells: u32 = self.cols * self.rows;
        let n: u32 = self.num;
        let stages: [(SphStage, u32); 5] = [
            (SphStage::ClearGrid, workgroups(cells)),
            (SphStage::BuildGrid, workgroups(n)),
            (SphStage::DensityPressure, workgroups(n)),
            (SphStage::Forces, workgroups(n)),
            (SphStage::Integrate, workgroups(n)),
        ];
        let mut plan: Vec<SphPass> = Vec::new();
        let mut i: usize = 0;
        while i < PASSES
            invariant
                i <= PASSES,
                plan@ == Seq::new(i as nat, |i: int| self@.pass_at(i, timed)),
                forall|k: int|
                    0 <= k < PASSES ==> (#[trigger] stages[k]).0 == self@.pass_at(k, timed).stage
                        && stages[k].1 == self@.pass_at(k, timed).groups,
            decreases PASSES - i,
        {
            let (stage, groups): (SphStage, u32) = stages[i];
            let (begin, end): (Option<u32>, Option<u32>) = if timed {
                (Some(i as u32 * 2), Some(i as u32 * 2 + 1))
            } else {
                (None, None)
            };
            plan.push(SphPass { stage, groups, begin, end });
            i = i + 1;
            assert(plan@ =~= Seq::new(i as nat, |i: int| self@.pass_at(i, timed)));
        }
        plan
    }

    /// The passes of a step.
    pub fn record_step(&self) -> (plan: Vec<SphPass>)
        requires
            self.valid(),
        ensures
            plan@ == self@.step_passes(false),
    {
        self.record(false)
    }

    /// The passes of a step, each timed.
    pub fn record_step_timed(&self) -> (plan: Vec<SphPass>)
        requires
            self.valid(),
        ensures
            plan@ == self@.step_passes(true),
    {
        self.record(true)
    }

    /// Put the particles back where they started, at rest: the buffer of the
    /// positions is to be filled with the start, and that of the velocities with
    /// zeros.
    pub fn reset(&self) -> (restart: Restart<'_, T, SphBuffer>)
        requires
            self.valid(),
        ensures
            as_vectors(restart.start@) == self@.start,
            restart.into == SphBuffer::Pos,
            restart.zeroed == SphBuffer::Vel,
            restart.bytes == self@.params.num * 8,
            restart.bytes == self@.bytes_of(SphBuffer::Vel),
    {
        Restart {
            start: &self.initial_pos,
            into: SphBuffer::Pos,
            zeroed: SphBuffer::Vel,
            bytes: self.num as u64 * 8,
        }
    }
}

/// The fluid on the graphics processor starts with the particles and the rest
/// density that a box of the same size starts with on the main processor, and
/// goes by the same constants.
pub proof fn law_starts_like_the_fluid<T: Scalar>(w: T, h: T)
    ensures
        GpuSimModel::initial(w, h).start == SimModel::initial(w, h).pos,
        GpuSimModel::initial(w, h).params.rest_dens == SimModel::initial(w, h).rest_dens,
        GpuSimModel::initial(w, h).params.stiffness == SimModel::initial(w, h).stiffness,
        GpuSimModel::initial(w, h).params.poly6 == SimModel::initial(w, h).poly6,
        GpuSimModel::initial(w, h).params.spiky_grad == SimModel::initial(w, h).spiky_grad,
        GpuSimModel::initial(w, h).params.visc_lap == SimModel::initial(w, h).visc_lap,
{
}

/// The passes of a timed step take their times in slots of their own, which are
/// the first of twice as many slots as there are passes.
pub proof fn law_time_slots_are_apart<T: Scalar>(sim: GpuSimModel<T>, i: int, j: int)
    requires
        0 <= i < j < PASSES,
    ensures
        sim.step_passes(true).len() == PASSES,
        sim.step_passes(true)[i].begin->0 < sim.step_passes(true)[i].end->0,
        sim.step_passes(true)[i].end->0 < sim.step_passes(true)[j].begin->0,
        sim.step_passes(true)[j].end->0 < 2 * PASSES,
{
}

/// A timed step does what a step does that is not timed.
pub proof fn law_timing_changes_no_work<T: Scalar>(sim: GpuSimModel<T>, i: int)
    requires
        0 <= i < PASSES,
    ensures
        sim.step_passes(true)[i].stage == sim.step_passes(false)[i].stage,
        sim.step_passes(true)[i].groups == sim.step_passes(false)[i].groups,
        sim.step_passes(false)[i].begin is None,
        sim.step_passes(false)[i].end is None,
{
}

} // verus!
