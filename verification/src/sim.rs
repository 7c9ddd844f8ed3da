//! Two-dimensional smoothed-particle hydrodynamics (SPH), weakly compressible,
//! after Müller et al., "Particle-Based Fluid Simulation for Interactive
//! Applications". The fluid is a cloud of particles: pressure pushes them apart
//! toward a rest density, viscosity smooths their relative motion, gravity pulls
//! them down, and a container holds them.
//!
//! Lengths are in pixels; `y` counts downward.

use crate::layout::filled;
use crate::neighbors::{cells_over, for_neighbors, sort_particles};
use crate::parallel::{par_update, par_update_pairs};
use crate::scalar::Scalar;
use crate::vec2::{pairs, vec2, Vec2};
#[allow(unused_imports)]
use crate::neighbors::{
    all_below, columns, indexable, law_neighbors_are_the_touching_cells, lemma_nearby_are_particles,
    lines, lists, nearby, slot, sorted, touch,
};
#[allow(unused_imports)]
use crate::scalar::{
    diff, exact, exact_powi, ge, greater, lesser, lit, lt, magnitude, neg, nil, pi, power, prod,
    quot, sum,
};
#[allow(unused_imports)]
use crate::vec2::as_vectors;
use vstd::prelude::*;

verus! {

/// Rows that a block of particles has at most.
pub const MAX_ROWS: u32 = 0x8000_0000;

/// Reach of the kernels: particles further apart do not act on one another.
pub open spec fn reach<T: Scalar>() -> T {
    lit(16, 1)
}

/// Mass of a particle.
pub open spec fn mass<T: Scalar>() -> T {
    lit(5, 2)
}

/// Thickness of the fluid.
pub open spec fn thickness<T: Scalar>() -> T {
    lit(200, 1)
}

/// Part of the normal velocity that survives a bounce off a wall.
pub open spec fn rebound<T: Scalar>() -> T {
    lit(4, 10)
}

/// The speed that no particle exceeds.
pub open spec fn speed_limit<T: Scalar>() -> T {
    lit(1500, 1)
}

/// The density that a division goes by at least.
pub open spec fn density_floor<T: Scalar>() -> T {
    lit(1, 1000000)
}

/// Radius of a particle, which is also how far it keeps off the walls.
pub open spec fn girth<T: Scalar>() -> T {
    prod(reach(), lit(1, 2))
}

/// The tuned constants of the solver.
#[derive(Clone, Copy, Debug)]
pub struct SphConstants<T> {
    pub h: T,
    pub mass: T,
    pub poly6: T,
    pub spiky_grad: T,
    pub visc_lap: T,
    pub visc: T,
    pub stiffness: T,
    pub bound_damping: T,
    pub particle_radius: T,
    pub max_speed: T,
}

impl<T: Scalar> SphConstants<T> {
    /// The constants that the solver runs with.
    pub open spec fn tuned() -> SphConstants<T> {
        SphConstants {
            h: reach(),
            mass: mass(),
            poly6: quot(lit(4, 1), prod(pi::<T>(), power(reach(), 8))),
            spiky_grad: quot(lit(30, 1), prod(pi::<T>(), power(reach(), 5))),
            visc_lap: quot(lit(40, 1), prod(pi::<T>(), power(reach(), 5))),
            visc: thickness(),
            stiffness: lit(2000000, 1),
            bound_damping: rebound(),
            particle_radius: girth(),
            max_speed: speed_limit(),
        }
    }
}

/// The solver constants.
pub fn sph_constants<T: Scalar>() -> (k: SphConstants<T>)
    requires
        exact::<T>(),
        exact_powi::<T>(),
    ensures
        k == SphConstants::<T>::tuned(),
{
    let h: T = T::ratio(16, 1);
    SphConstants {
        h,
        mass: T::ratio(5, 2),
        poly6: T::ratio(4, 1).over(T::pi().times(h.powi(8))),
        spiky_grad: T::ratio(30, 1).over(T::pi().times(h.powi(5))),
        visc_lap: T::ratio(40, 1).over(T::pi().times(h.powi(5))),
        visc: T::ratio(200, 1),
        stiffness: T::ratio(2000000, 1),
        bound_damping: T::ratio(4, 10),
        particle_radius: h.times(T::ratio(1, 2)),
        max_speed: T::ratio(1500, 1),
    }
}

/// Shape of the container.
#[derive(Clone, Copy, PartialEq, Eq, Debug, Structural)]
pub enum Shape {
    Rect,
    Circle,
}

impl Shape {
    /// The other shape.
    pub open spec fn other(self) -> Shape {
        match self {
            Shape::Rect => Shape::Circle,
            Shape::Circle => Shape::Rect,
        }
    }

    /// Change to the other shape.
    pub fn toggled(self) -> (shape: Shape)
        ensures
            shape == self.other(),
    {
        match self {
            Shape::Rect => Shape::Circle,
            Shape::Circle => Shape::Rect,
        }
    }
}

/// The container that the fluid lives in.
#[derive(Clone, Copy)]
pub struct Bounds<T> {
    pub w: T,
    pub h: T,
    pub shape: Shape,
}

/// Coordinate and velocity along one axis after the walls at `lo` and `hi`.
pub open spec fn walled<T: Scalar>(x: T, v: T, lo: T, hi: T) -> (T, T) {
    if lt(x, lo) {
        (lo, prod(v, neg(rebound())))
    } else if lt(hi, x) {
        (hi, prod(v, neg(rebound())))
    } else {
        (x, v)
    }
}

/// Velocity after a bounce off a wall with outward normal `n`: the outward part
/// is reflected and damped.
pub open spec fn bounced<T: Scalar>(v: Vec2<T>, n: Vec2<T>) -> Vec2<T> {
    let vn = v.dot_of(n);
    if lt(lit(0, 1), vn) {
        v.sub_of(n.mul_by(prod(sum(lit(1, 1), rebound()), vn)))
    } else {
        v
    }
}

impl<T: Scalar> Bounds<T> {
    /// Middle of the container.
    pub open spec fn center(self) -> Vec2<T> {
        Vec2 { x: prod(self.w, lit(1, 2)), y: prod(self.h, lit(1, 2)) }
    }

    /// How far from the middle of a round container a particle may be.
    pub open spec fn inner_radius(self) -> T {
        diff(prod(lesser(self.w, self.h), lit(1, 2)), girth())
    }

    /// Position and velocity of a particle once the container has acted on it.
    pub open spec fn resolved(self, p: Vec2<T>, v: Vec2<T>) -> (Vec2<T>, Vec2<T>) {
        match self.shape {
            Shape::Rect => {
                let x = walled(p.x, v.x, girth(), diff(self.w, girth()));
                let y = walled(p.y, v.y, girth(), diff(self.h, girth()));
                (Vec2 { x: x.0, y: y.0 }, Vec2 { x: x.1, y: y.1 })
            },
            Shape::Circle => {
                let d = p.sub_of(self.center());
                let n = d.div_of(d.norm());
                if lt(self.inner_radius(), d.norm()) && lt(lit(0, 1), d.norm()) {
                    (self.center().add_of(n.mul_of(self.inner_radius())), bounced(v, n))
                } else {
                    (p, v)
                }
            },
        }
    }

    /// Push a particle back into the container and reflect its velocity.
    pub fn resolve(&self, pos: &mut Vec2<T>, vel: &mut Vec2<T>)
        requires
            exact::<T>(),
        ensures
            (*final(pos), *final(vel)) == self.resolved(*old(pos), *old(vel)),
    {
        let pad: T = T::ratio(16, 1).times(T::ratio(1, 2));
        match self.shape {
            Shape::Rect => {
                let (x, vx): (T, T) = wall(pos.x, vel.x, pad, self.w.minus(pad));
                let (y, vy): (T, T) = wall(pos.y, vel.y, pad, self.h.minus(pad));
                *pos = vec2(x, y);
                *vel = vec2(vx, vy);
            },
            Shape::Circle => {
                let half: T = T::ratio(1, 2);
                let center: Vec2<T> = vec2(self.w.times(half), self.h.times(half));
                let radius: T = self.w.lower(self.h).times(half).minus(pad);
                let d: Vec2<T> = pos.minus(center);
                let dist: T = d.length();
                if radius.below(dist) && T::ratio(0, 1).below(dist) {
                    let n: Vec2<T> = d.over(dist);
                    *pos = center.plus(n.times(radius));
                    let vn: T = vel.dot(n);
                    if T::ratio(0, 1).below(vn) {
                        let kick: T = T::ratio(1, 1).plus(T::ratio(4, 10)).times(vn);
                        *vel = vel.minus(n.scaled(kick));
                    }
                }
            },
        }
    }
}

/// Hold one coordinate between two walls and turn its velocity back there.
fn wall<T: Scalar>(x: T, v: T, lo: T, hi: T) -> (r: (T, T))
    requires
        exact::<T>(),
    ensures
        r == walled(x, v, lo, hi),
{
    if x.below(lo) {
        (lo, v.times(T::ratio(4, 10).negate()))
    } else if hi.below(x) {
        (hi, v.times(T::ratio(4, 10).negate()))
    } else {
        (x, v)
    }
}

/// Gap between the particles of the starting block.
pub open spec fn gap<T: Scalar>() -> T {
    prod(reach(), lit(6, 10))
}

/// Particles of one row of the starting block: from `x` on, a gap apart, as
/// long as they lie left of `x1`. No row has more than `room` of them.
pub open spec fn row_from<T: Scalar>(x: T, y: T, x1: T, room: nat) -> Seq<Vec2<T>>
    decreases room,
{
    if room == 0 || !lt(x, x1) {
        seq![]
    } else {
        seq![Vec2 { x, y }] + row_from(sum(x, gap()), y, x1, (room - 1) as nat)
    }
}

/// Where row `r` of the starting block begins. Every other row is shifted by
/// half a gap.
pub open spec fn row_start<T: Scalar>(x0: T, r: nat) -> T {
    sum(
        x0,
        if r % 2 == 0 {
            lit(0, 1)
        } else {
            prod(gap(), lit(1, 2))
        },
    )
}

/// Rows of the starting block from row `r` at `y` on, a gap apart, as long as
/// they lie above `y1`.
pub open spec fn rows_from<T: Scalar>(y: T, r: nat, x0: T, x1: T, y1: T) -> Seq<Vec2<T>>
    decreases MAX_ROWS - r,
{
    if r >= MAX_ROWS || !lt(y, y1) {
        seq![]
    } else {
        row_from(row_start(x0, r), y, x1, usize::MAX as nat) + rows_from(
            sum(y, gap()),
            r + 1,
            x0,
            x1,
            y1,
        )
    }
}

/// The starting block in a container of the given size: its left half, but for
/// a margin, and its lower two thirds.
pub open spec fn block<T: Scalar>(w: T, h: T) -> Seq<Vec2<T>> {
    rows_from(
        prod(h, lit(30, 100)),
        0,
        prod(w, lit(8, 100)),
        prod(w, lit(45, 100)),
        prod(h, lit(92, 100)),
    )
}

/// Density at `p` that the first `upto` of the particles `near` add up to.
pub open spec fn density_at<T: Scalar>(
    p: Vec2<T>,
    pos: Seq<Vec2<T>>,
    near: Seq<usize>,
    poly6: T,
    upto: nat,
) -> T
    decreases upto,
{
    if upto == 0 {
        lit(0, 1)
    } else {
        let before = density_at(p, pos, near, poly6, (upto - 1) as nat);
        let d = pos[near[upto - 1] as int].sub_of(p);
        let r2 = d.dot_of(d);
        let reach2 = prod(reach::<T>(), reach());
        if lt(r2, reach2) {
            sum(before, prod(prod(mass(), poly6), power(diff(reach2, r2), 3)))
        } else {
            before
        }
    }
}

/// Density at particle `i` of the particles that the grid has around it.
pub open spec fn density_near<T: Scalar>(
    pos: Seq<Vec2<T>>,
    i: int,
    grid: Seq<Seq<usize>>,
    cols: int,
    rows: int,
    poly6: T,
) -> T {
    let near = nearby(pos[i], grid, cols, rows);
    density_at(pos[i], pos, near, poly6, near.len())
}

/// Pressure at the given density. The fluid never pulls itself together.
pub open spec fn pressure_at<T: Scalar>(rho: T, rest_dens: T, stiffness: T) -> T {
    greater(prod(stiffness, diff(rho, rest_dens)), lit(0, 1))
}

/// Greatest of the first `upto` densities, and at least zero.
pub open spec fn peak<T: Scalar>(rho: Seq<T>, upto: nat) -> T
    decreases upto,
{
    if upto == 0 {
        lit(0, 1)
    } else {
        greater(peak(rho, (upto - 1) as nat), rho[upto - 1])
    }
}

/// Particles with their densities and pressures, which the forces depend on.
#[verifier::ext_equal]
pub struct Cloud<T> {
    pub pos: Seq<Vec2<T>>,
    pub vel: Seq<Vec2<T>>,
    pub rho: Seq<T>,
    pub pressure: Seq<T>,
    pub grid: Seq<Seq<usize>>,
    pub cols: int,
    pub rows: int,
    pub spiky_grad: T,
    pub visc_lap: T,
}

impl<T: Scalar> Cloud<T> {
    /// Particles that can act on particle `i`.
    pub open spec fn around(self, i: int) -> Seq<usize> {
        nearby(self.pos[i], self.grid, self.cols, self.rows)
    }

    /// Whether particle `j` acts on particle `i`.
    pub open spec fn acts(self, i: int, j: int) -> bool {
        let r = self.pos[j].sub_of(self.pos[i]).norm();
        j != i && lt(r, reach()) && lt(lit(0, 1), r)
    }

    /// Pressure force of particle `j` on particle `i`: away from `j`.
    pub open spec fn push_of(self, i: int, j: int) -> Vec2<T> {
        let d = self.pos[j].sub_of(self.pos[i]);
        let r = d.norm();
        let rho_j = greater(self.rho[j], density_floor());
        d.div_of(r).neg_of().mul_of(mass()).mul_of(
            sum(self.pressure[i], self.pressure[j]),
        ).div_of(prod(lit(2, 1), rho_j)).mul_of(self.spiky_grad).mul_of(
            power(diff(reach(), r), 2),
        )
    }

    /// Viscosity force of particle `j` on particle `i`: toward the velocity of
    /// `j`.
    pub open spec fn drag_of(self, i: int, j: int) -> Vec2<T> {
        let r = self.pos[j].sub_of(self.pos[i]).norm();
        let rho_j = greater(self.rho[j], density_floor());
        self.vel[j].sub_of(self.vel[i]).mul_by(prod(thickness(), mass())).div_of(rho_j).mul_of(
            self.visc_lap,
        ).mul_of(diff(reach(), r))
    }

    /// Pressure forces on particle `i` of the first `upto` of the particles
    /// around it.
    pub open spec fn pushes(self, i: int, upto: nat) -> Vec2<T>
        decreases upto,
    {
        if upto == 0 {
            Vec2::origin()
        } else {
            let before = self.pushes(i, (upto - 1) as nat);
            let j = self.around(i)[upto - 1] as int;
            if self.acts(i, j) {
                before.add_of(self.push_of(i, j))
            } else {
                before
            }
        }
    }

    /// Viscosity forces on particle `i` of the first `upto` of the particles
    /// around it.
    pub open spec fn drags(self, i: int, upto: nat) -> Vec2<T>
        decreases upto,
    {
        if upto == 0 {
            Vec2::origin()
        } else {
            let before = self.drags(i, (upto - 1) as nat);
            let j = self.around(i)[upto - 1] as int;
            if self.acts(i, j) {
                before.add_of(self.drag_of(i, j))
            } else {
                before
            }
        }
    }

    /// Force on particle `i`.
    pub open spec fn force_on(self, i: int) -> Vec2<T> {
        let n = self.around(i).len();
        self.pushes(i, n).add_of(self.drags(i, n))
    }
}

/// The fluid: its particles, the material, and the grid that finds neighbours.
#[verifier::ext_equal]
pub struct SimModel<T> {
    pub pos: Seq<Vec2<T>>,
    pub vel: Seq<Vec2<T>>,
    pub force: Seq<Vec2<T>>,
    pub rho: Seq<T>,
    pub pressure: Seq<T>,
    pub rest_dens: T,
    pub stiffness: T,
    pub poly6: T,
    pub spiky_grad: T,
    pub visc_lap: T,
    pub grid: Seq<Seq<usize>>,
    pub cols: int,
    pub rows: int,
}

impl<T: Scalar> SimModel<T> {
    /// Every particle has a velocity, a force, a density and a pressure.
    pub open spec fn valid(self) -> bool {
        &&& self.vel.len() == self.pos.len()
        &&& self.force.len() == self.pos.len()
        &&& self.rho.len() == self.pos.len()
        &&& self.pressure.len() == self.pos.len()
    }

    /// The particles back in the starting block, at rest.
    pub open spec fn spawned(self, w: T, h: T) -> SimModel<T> {
        let n = block(w, h).len();
        SimModel {
            pos: block(w, h),
            vel: Seq::new(n, |i: int| Vec2::origin()),
            force: Seq::new(n, |i: int| Vec2::origin()),
            rho: Seq::new(n, |i: int| lit(0, 1)),
            pressure: Seq::new(n, |i: int| lit(0, 1)),
            ..self
        }
    }

    /// A fluid without particles, before its rest density is known.
    pub open spec fn bare() -> SimModel<T> {
        SimModel {
            pos: seq![],
            vel: seq![],
            force: seq![],
            rho: seq![],
            pressure: seq![],
            rest_dens: lit(1, 1),
            stiffness: lit(2000000, 1),
            poly6: SphConstants::tuned().poly6,
            spiky_grad: SphConstants::tuned().spiky_grad,
            visc_lap: SphConstants::tuned().visc_lap,
            grid: seq![],
            cols: 0,
            rows: 0,
        }
    }

    /// The rest density set to the density of the packed interior.
    pub open spec fn calibrated(self) -> SimModel<T> {
        SimModel {
            rest_dens: greater(peak(self.rho, self.rho.len()), density_floor()),
            ..self
        }
    }

    /// The fluid that a container of the given size starts with.
    pub open spec fn initial(w: T, h: T) -> SimModel<T> {
        Self::bare().spawned(w, h).arranged(
            Bounds { w, h, shape: Shape::Rect },
        ).weighed().calibrated()
    }

    /// The same velocity added to every particle.
    pub open spec fn shaken(self, dv: Vec2<T>) -> SimModel<T> {
        SimModel { vel: Seq::new(self.vel.len(), |i: int| self.vel[i].add_of(dv)), ..self }
    }

    /// The particles sorted into the cells of the grid.
    pub open spec fn arranged(self, bounds: Bounds<T>) -> SimModel<T> {
        SimModel {
            grid: sorted(self.pos, columns(bounds), lines(bounds), self.pos.len()),
            cols: columns(bounds),
            rows: lines(bounds),
            ..self
        }
    }

    /// The grid holds the particles where they are.
    pub open spec fn is_arranged(self) -> bool {
        &&& self.cols >= 1
        &&& self.rows >= 1
        &&& self.grid == sorted(self.pos, self.cols, self.rows, self.pos.len())
    }

    /// Density at particle `i`.
    pub open spec fn density(self, i: int) -> T {
        density_near(self.pos, i, self.grid, self.cols, self.rows, self.poly6)
    }

    /// Density and pressure worked out at every particle.
    pub open spec fn weighed(self) -> SimModel<T> {
        SimModel {
            rho: Seq::new(self.rho.len(), |i: int| self.density(i)),
            pressure: Seq::new(
                self.pressure.len(),
                |i: int| pressure_at(self.density(i), self.rest_dens, self.stiffness),
            ),
            ..self
        }
    }

    /// What the forces depend on.
    pub open spec fn cloud(self) -> Cloud<T> {
        Cloud {
            pos: self.pos,
            vel: self.vel,
            rho: self.rho,
            pressure: self.pressure,
            grid: self.grid,
            cols: self.cols,
            rows: self.rows,
            spiky_grad: self.spiky_grad,
            visc_lap: self.visc_lap,
        }
    }

    /// The forces worked out on every particle.
    pub open spec fn forced(self) -> SimModel<T> {
        SimModel { force: Seq::new(self.force.len(), |i: int| self.cloud().force_on(i)), ..self }
    }

    /// Position and velocity of particle `i` after `dt` seconds.
    pub open spec fn flight(self, i: int, dt: T, gravity: Vec2<T>, bounds: Bounds<T>) -> (
        Vec2<T>,
        Vec2<T>,
    ) {
        flight_of(self.pos[i], self.vel[i], self.force[i], self.rho[i], dt, gravity, bounds)
    }

    /// Every particle moved on by `dt` seconds.
    pub open spec fn moved(self, dt: T, gravity: Vec2<T>, bounds: Bounds<T>) -> SimModel<T> {
        SimModel {
            pos: Seq::new(self.pos.len(), |i: int| self.flight(i, dt, gravity, bounds).0),
            vel: Seq::new(self.vel.len(), |i: int| self.flight(i, dt, gravity, bounds).1),
            ..self
        }
    }

    /// The fluid after `n` steps of `dt` seconds.
    pub open spec fn run(self, n: nat, dt: T, gravity: Vec2<T>, bounds: Bounds<T>) -> SimModel<T>
        decreases n,
    {
        if n == 0 {
            self
        } else {
            self.run((n - 1) as nat, dt, gravity, bounds).stepped(dt, gravity, bounds)
        }
    }

    /// The fluid `dt` seconds later.
    pub open spec fn stepped(self, dt: T, gravity: Vec2<T>, bounds: Bounds<T>) -> SimModel<T> {
        self.arranged(bounds).weighed().forced().moved(dt, gravity, bounds)
    }
}

/// A velocity held to the speed limit.
pub open spec fn slowed<T: Scalar>(v: Vec2<T>) -> Vec2<T> {
    if lt(speed_limit(), v.norm()) {
        v.mul_of(quot(speed_limit(), v.norm()))
    } else {
        v
    }
}

/// Velocity, after `dt` seconds and before the speed limit, of a particle with
/// velocity `v` that `force` acts on where the density is `rho`.
pub open spec fn rushed<T: Scalar>(
    v: Vec2<T>,
    force: Vec2<T>,
    rho: T,
    dt: T,
    gravity: Vec2<T>,
) -> Vec2<T> {
    v.add_of(force.div_of(greater(rho, density_floor())).add_of(gravity).mul_by(dt))
}

/// Position and velocity, after `dt` seconds, of a particle at `p` with velocity
/// `v`, which `force` acts on where the density is `rho`.
pub open spec fn flight_of<T: Scalar>(
    p: Vec2<T>,
    v: Vec2<T>,
    force: Vec2<T>,
    rho: T,
    dt: T,
    gravity: Vec2<T>,
    bounds: Bounds<T>,
) -> (Vec2<T>, Vec2<T>) {
    let u = slowed(rushed(v, force, rho, dt, gravity));
    bounds.resolved(p.add_of(u.mul_by(dt)), u)
}

/// The fluid, one array per property of its particles.
pub struct Sim<T> {
    pub pos: Vec<Vec2<T>>,
    pub vel: Vec<Vec2<T>>,
    force: Vec<Vec2<T>>,
    rho: Vec<T>,
    pressure: Vec<T>,
    rest_dens: T,
    pub stiffness: T,
    poly6: T,
    spiky_grad: T,
    visc_lap: T,
    grid: Vec<Vec<usize>>,
    cols: usize,
    rows: usize,
}

impl<T: Scalar> View for Sim<T> {
    type V = SimModel<T>;

    closed spec fn view(&self) -> SimModel<T> {
        SimModel {
            pos: self.pos@,
            vel: self.vel@,
            force: self.force@,
            rho: self.rho@,
            pressure: self.pressure@,
            rest_dens: self.rest_dens,
            stiffness: self.stiffness,
            poly6: self.poly6,
            spiky_grad: self.spiky_grad,
            visc_lap: self.visc_lap,
            grid: lists(self.grid@),
            cols: self.cols as int,
            rows: self.rows as int,
        }
    }
}

impl<T: Scalar> Sim<T> {
    /// Every particle has a velocity, a force, a density and a pressure.
    pub open spec fn valid(self) -> bool {
        self@.valid()
    }

    /// Fluid that fills the lower left of a box of the given size, at rest. Its
    /// rest density is the greatest density of that packing, so that it starts
    /// out calm.
    pub fn new(w: T, h: T) -> (sim: Sim<T>)
        requires
            exact::<T>(),
            exact_powi::<T>(),
            indexable(Bounds { w, h, shape: Shape::Rect }),
        ensures
            sim@ == SimModel::initial(w, h),
            sim.valid(),
    {
        let k: SphConstants<T> = sph_constants();
        let mut sim: Sim<T> = Sim {
            pos: Vec::new(),
            vel: Vec::new(),
            force: Vec::new(),
            rho: Vec::new(),
            pressure: Vec::new(),
            rest_dens: T::ratio(1, 1),
            stiffness: k.stiffness,
            poly6: k.poly6,
            spiky_grad: k.spiky_grad,
            visc_lap: k.visc_lap,
            grid: Vec::new(),
            cols: 0,
            rows: 0,
        };
        assert(sim@ =~= SimModel::bare());
        sim.spawn_block(w, h);
        let bounds: Bounds<T> = Bounds { w, h, shape: Shape::Rect };
        sim.build_grid(&bounds);
        sim.compute_density_pressure();
        let ghost before = sim@;
        let mut max_rho: T = T::ratio(0, 1);
        let mut i: usize = 0;
        while i < sim.rho.len()
            invariant
                exact::<T>(),
                sim@ == before,
                i <= sim.rho@.len(),
                max_rho == peak(sim.rho@, i as nat),
            decreases sim.rho.len() - i,
        {
            max_rho = max_rho.upper(sim.rho[i]);
            i = i + 1;
        }
        sim.rest_dens = max_rho.upper(T::ratio(1, 1000000));
        assert(sim@ =~= before.calibrated());
        sim
    }

    /// Put the particles back into the starting block, at rest.
    pub fn reset(&mut self, w: T, h: T)
        requires
            exact::<T>(),
        ensures
            final(self)@ == old(self)@.spawned(w, h),
            final(self).valid(),
    {
        self.spawn_block(w, h);
    }

    /// Number of particles.
    pub fn len(&self) -> (n: usize)
        ensures
            n == self@.pos.len(),
    {
        self.pos.len()
    }

    /// Whether there are no particles.
    pub fn is_empty(&self) -> (none: bool)
        ensures
            none == (self@.pos.len() == 0),
    {
        self.pos.len() == 0
    }

    /// Density that the fluid has at rest.
    pub fn rest_density(&self) -> (rho: T)
        ensures
            rho == self@.rest_dens,
    {
        self.rest_dens
    }

    /// Set how hard the fluid resists being compressed.
    pub fn set_stiffness(&mut self, stiffness: T)
        ensures
            final(self)@ == (SimModel { stiffness, ..old(self)@ }),
            old(self).valid() ==> final(self).valid(),
    {
        self.stiffness = stiffness;
    }

    /// Density at particle `i`.
    pub fn density_of(&self, i: usize) -> (rho: T)
        requires
            self.valid(),
            i < self@.pos.len(),
        ensures
            rho == self@.rho[i as int],
    {
        self.rho[i]
    }

    /// Positions as pairs of coordinates.
    pub fn positions_xy(&self) -> (xy: Vec<[T; 2]>)
        ensures
            as_vectors(xy@) == self@.pos,
    {
        pairs(&self.pos)
    }

    /// Velocities as pairs of components.
    pub fn velocities_xy(&self) -> (xy: Vec<[T; 2]>)
        ensures
            as_vectors(xy@) == self@.vel,
    {
        pairs(&self.vel)
    }

    /// Add the same velocity to every particle.
    pub fn add_impulse(&mut self, dv: Vec2<T>)
        requires
            exact::<T>(),
        ensures
            final(self)@ == old(self)@.shaken(dv),
            old(self).valid() ==> final(self).valid(),
    {
        let n: usize = self.vel.len();
        let ghost before = self@;
        let mut i: usize = 0;
        while i < n
            invariant
                exact::<T>(),
                i <= n,
                n == self.vel@.len(),
                n == before.vel.len(),
                self@ == (SimModel { vel: self.vel@, ..before }),
                forall|k: int| 0 <= k < i ==> #[trigger] self.vel@[k] == before.vel[k].add_of(dv),
                forall|k: int| i <= k < n ==> #[trigger] self.vel@[k] == before.vel[k],
            decreases n - i,
        {
            let v: Vec2<T> = self.vel[i];
            self.vel.set(i, v.plus(dv));
            i = i + 1;
        }
        assert(self.vel@ =~= before.shaken(dv).vel);
    }

    /// Put the starting block in the place of the particles.
    fn spawn_block(&mut self, w: T, h: T)
        requires
            exact::<T>(),
        ensures
            final(self)@ == old(self)@.spawned(w, h),
            final(self).valid(),
    {
        self.pos = packed(w, h);
        let n: usize = self.pos.len();
        self.vel = filled(Vec2::zero(), n);
        self.force = filled(Vec2::zero(), n);
        self.rho = filled(T::ratio(0, 1), n);
        self.pressure = filled(T::ratio(0, 1), n);
        assert(self@ =~= old(self)@.spawned(w, h));
    }

    /// Move the fluid on by `dt` seconds under `gravity`.
    pub fn step(&mut self, dt: T, gravity: Vec2<T>, bounds: &Bounds<T>)
        requires
            exact::<T>(),
            exact_powi::<T>(),
            old(self).valid(),
            indexable(*bounds),
        ensures
            final(self)@ == old(self)@.stepped(dt, gravity, *bounds),
            final(self).valid(),
    {
        self.build_grid(bounds);
        self.compute_density_pressure();
        self.compute_forces();
        self.integrate(dt, gravity, bounds);
    }

    /// Sort the particles into the cells of the grid over the container.
    fn build_grid(&mut self, bounds: &Bounds<T>)
        requires
            exact::<T>(),
            indexable(*bounds),
        ensures
            final(self)@ == old(self)@.arranged(*bounds),
            final(self)@.is_arranged(),
            old(self).valid() ==> final(self).valid(),
    {
        let cols: usize = cells_over(bounds.w) + 1;
        let rows: usize = cells_over(bounds.h) + 1;
        let reusable: bool = cols == self.cols && rows == self.rows && self.grid.len() == cols
            * rows;
        sort_particles(&mut self.grid, reusable, &self.pos, cols, rows);
        self.cols = cols;
        self.rows = rows;
        assert(self@ =~= old(self)@.arranged(*bounds));
    }

    /// Work out density and pressure at every particle.
    fn compute_density_pressure(&mut self)
        requires
            exact::<T>(),
            exact_powi::<T>(),
            old(self).valid(),
            old(self)@.is_arranged(),
        ensures
            final(self)@ == old(self)@.weighed(),
            final(self).valid(),
            final(self)@.is_arranged(),
    {
        let ghost model = self@;
        assert(self.pos.len() == self.pos@.len());
        let (cols, rows): (usize, usize) = (self.cols, self.rows);
        let (poly6, stiffness, rest_dens): (T, T, T) = (self.poly6, self.stiffness, self.rest_dens);
        let pos: &Vec<Vec2<T>> = &self.pos;
        let grid: &Vec<Vec<usize>> = &self.grid;
        let weigh = |i: usize, _rho: T, _pressure: T| -> (out: (T, T))
            requires
                exact::<T>(),
                exact_powi::<T>(),
                is_particle(i, pos@),
                is_sorted(grid@, pos@, cols as int, rows as int),
            ensures
                out.0 == density_near(pos@, i as int, lists(grid@), cols as int, rows as int, poly6),
                out.1 == pressure_at(out.0, rest_dens, stiffness),
        {
            let r: T = gather_density(i, pos, grid, cols, rows, poly6);
            (r, stiffness.times(r.minus(rest_dens)).upper(T::ratio(0, 1)))
        };
        par_update_pairs(&mut self.rho, &mut self.pressure, weigh);
        assert(self@ =~= model.weighed());
    }

    /// Work out the force on every particle.
    fn compute_forces(&mut self)
        requires
            exact::<T>(),
            exact_powi::<T>(),
            old(self).valid(),
            old(self)@.is_arranged(),
        ensures
            final(self)@ == old(self)@.forced(),
            final(self).valid(),
    {
        let ghost model = self@;
        assert(self.pos.len() == self.pos@.len());
        let (cols, rows): (usize, usize) = (self.cols, self.rows);
        let (spiky_grad, visc_lap): (T, T) = (self.spiky_grad, self.visc_lap);
        let pos: &Vec<Vec2<T>> = &self.pos;
        let vel: &Vec<Vec2<T>> = &self.vel;
        let rho: &Vec<T> = &self.rho;
        let pressure: &Vec<T> = &self.pressure;
        let grid: &Vec<Vec<usize>> = &self.grid;
        let pull = |i: usize, _force: Vec2<T>| -> (out: Vec2<T>)
            requires
                exact::<T>(),
                exact_powi::<T>(),
                is_particle(i, pos@),
                vel@.len() == pos@.len(),
                rho@.len() == pos@.len(),
                pressure@.len() == pos@.len(),
                is_sorted(grid@, pos@, cols as int, rows as int),
            ensures
                out == (Cloud {
                    pos: pos@,
                    vel: vel@,
                    rho: rho@,
                    pressure: pressure@,
                    grid: lists(grid@),
                    cols: cols as int,
                    rows: rows as int,
                    spiky_grad,
                    visc_lap,
                }).force_on(i as int),
        {
            gather_force(i, pos, vel, rho, pressure, grid, cols, rows, spiky_grad, visc_lap)
        };
        par_update(&mut self.force, pull);
        assert(self@ =~= model.forced());
    }

    /// Move every particle on by `dt` seconds.
    fn integrate(&mut self, dt: T, gravity: Vec2<T>, bounds: &Bounds<T>)
        requires
            exact::<T>(),
            old(self).valid(),
        ensures
            final(self)@ == old(self)@.moved(dt, gravity, *bounds),
            final(self).valid(),
    {
        let ghost model = self@;
        assert(self.pos.len() == self.pos@.len());
        let force: &Vec<Vec2<T>> = &self.force;
        let rho: &Vec<T> = &self.rho;
        let fly = |i: usize, p: Vec2<T>, v: Vec2<T>| -> (out: (Vec2<T>, Vec2<T>))
            requires
                is_particle(i, force@),
                exact::<T>(),
                force@.len() == rho@.len(),
            ensures
                out == flight_of(p, v, force@[i as int], rho@[i as int], dt, gravity, *bounds),
        {
            let r: T = rho[i].upper(T::ratio(1, 1000000));
            let accel: Vec2<T> = force[i].over(r).plus(gravity);
            let mut v: Vec2<T> = v.plus(accel.scaled(dt));
            let speed: T = v.length();
            if T::ratio(1500, 1).below(speed) {
                v = v.times(T::ratio(1500, 1).over(speed));
            }
            let mut p: Vec2<T> = p.plus(v.scaled(dt));
            bounds.resolve(&mut p, &mut v);
            (p, v)
        };
        par_update_pairs(&mut self.pos, &mut self.vel, fly);
        assert(self@ =~= model.moved(dt, gravity, *bounds));
    }
}

/// Index `i` is that of a particle.
pub open spec fn is_particle<T>(i: usize, pos: Seq<Vec2<T>>) -> bool {
    i < pos.len()
}

/// The grid holds the particles where they are.
pub open spec fn is_sorted<T: Scalar>(
    grid: Seq<Vec<usize>>,
    pos: Seq<Vec2<T>>,
    cols: int,
    rows: int,
) -> bool {
    &&& cols >= 1
    &&& rows >= 1
    &&& lists(grid) == sorted(pos, cols, rows, pos.len())
}

/// Density at particle `i` of the particles that the grid has around it.
fn gather_density<T: Scalar>(
    i: usize,
    pos: &Vec<Vec2<T>>,
    grid: &Vec<Vec<usize>>,
    cols: usize,
    rows: usize,
    poly6: T,
) -> (rho: T)
    requires
        exact::<T>(),
        exact_powi::<T>(),
        i < pos@.len(),
        is_sorted(grid@, pos@, cols as int, rows as int),
    ensures
        rho == density_near(pos@, i as int, lists(grid@), cols as int, rows as int, poly6),
{
    let p: Vec2<T> = pos[i];
    assert(pos.len() == pos@.len());
    assert(lists(grid@).len() == cols * rows);
    let near: Vec<usize> = for_neighbors(p, grid, cols, rows);
    proof {
        lemma_nearby_are_particles(p, pos@, cols as int, rows as int);
    }
    let reach2: T = T::ratio(16, 1).times(T::ratio(16, 1));
    let mut r: T = T::ratio(0, 1);
    let mut m: usize = 0;
    while m < near.len()
        invariant
            exact::<T>(),
            exact_powi::<T>(),
            reach2 == prod(reach::<T>(), reach()),
            all_below(near@, pos@.len() as int),
            m <= near@.len(),
            r == density_at(p, pos@, near@, poly6, m as nat),
        decreases near.len() - m,
    {
        let r2: T = pos[near[m]].minus(p).length_squared();
        if r2.below(reach2) {
            r = r.plus(T::ratio(5, 2).times(poly6).times(reach2.minus(r2).powi(3)));
        }
        m = m + 1;
    }
    r
}

/// Force on particle `i` of the particles that the grid has around it.
fn gather_force<T: Scalar>(
    i: usize,
    pos: &Vec<Vec2<T>>,
    vel: &Vec<Vec2<T>>,
    rho: &Vec<T>,
    pressure: &Vec<T>,
    grid: &Vec<Vec<usize>>,
    cols: usize,
    rows: usize,
    spiky_grad: T,
    visc_lap: T,
) -> (force: Vec2<T>)
    requires
        exact::<T>(),
        exact_powi::<T>(),
        i < pos@.len(),
        vel@.len() == pos@.len(),
        rho@.len() == pos@.len(),
        pressure@.len() == pos@.len(),
        is_sorted(grid@, pos@, cols as int, rows as int),
    ensures
        force == (Cloud {
            pos: pos@,
            vel: vel@,
            rho: rho@,
            pressure: pressure@,
            grid: lists(grid@),
            cols: cols as int,
            rows: rows as int,
            spiky_grad,
            visc_lap,
        }).force_on(i as int),
{
    let ghost cloud = Cloud {
        pos: pos@,
        vel: vel@,
        rho: rho@,
        pressure: pressure@,
        grid: lists(grid@),
        cols: cols as int,
        rows: rows as int,
        spiky_grad,
        visc_lap,
    };
    let pi: Vec2<T> = pos[i];
    let vi: Vec2<T> = vel[i];
    assert(pos.len() == pos@.len());
    assert(lists(grid@).len() == cols * rows);
    let near: Vec<usize> = for_neighbors(pi, grid, cols, rows);
    proof {
        lemma_nearby_are_particles(pi, pos@, cols as int, rows as int);
    }
    let mut fpress: Vec2<T> = Vec2::zero();
    let mut fvisc: Vec2<T> = Vec2::zero();
    let mut m: usize = 0;
    while m < near.len()
        invariant
            exact::<T>(),
            exact_powi::<T>(),
            i < pos@.len(),
            vel@.len() == pos@.len(),
            rho@.len() == pos@.len(),
            pressure@.len() == pos@.len(),
            cloud.pos == pos@,
            cloud.vel == vel@,
            cloud.rho == rho@,
            cloud.pressure == pressure@,
            cloud.spiky_grad == spiky_grad,
            cloud.visc_lap == visc_lap,
            pi == pos@[i as int],
            vi == vel@[i as int],
            near@ == cloud.around(i as int),
            all_below(near@, pos@.len() as int),
            m <= near@.len(),
            fpress == cloud.pushes(i as int, m as nat),
            fvisc == cloud.drags(i as int, m as nat),
        decreases near.len() - m,
    {
        let j: usize = near[m];
        let rij: Vec2<T> = pos[j].minus(pi);
        let r: T = rij.length();
        if j != i && r.below(T::ratio(16, 1)) && T::ratio(0, 1).below(r) {
            let dir: Vec2<T> = rij.over(r);
            let rho_j: T = rho[j].upper(T::ratio(1, 1000000));
            let left: T = T::ratio(16, 1).minus(r);
            let push: Vec2<T> = dir.negate().times(T::ratio(5, 2)).times(
                pressure[i].plus(pressure[j]),
            ).over(T::ratio(2, 1).times(rho_j)).times(spiky_grad).times(left.powi(2));
            let drag: Vec2<T> = vel[j].minus(vi).scaled(
                T::ratio(200, 1).times(T::ratio(5, 2)),
            ).over(rho_j).times(visc_lap).times(left);
            fpress = fpress.plus(push);
            fvisc = fvisc.plus(drag);
        }
        m = m + 1;
    }
    fpress.plus(fvisc)
}

/// The starting block in a container of the given size.
fn packed<T: Scalar>(w: T, h: T) -> (pos: Vec<Vec2<T>>)
    requires
        exact::<T>(),
    ensures
        pos@ == block(w, h),
{
    let spacing: T = T::ratio(16, 1).times(T::ratio(6, 10));
    let x0: T = w.times(T::ratio(8, 100));
    let x1: T = w.times(T::ratio(45, 100));
    let y1: T = h.times(T::ratio(92, 100));
    let mut pos: Vec<Vec2<T>> = Vec::new();
    let mut y: T = h.times(T::ratio(30, 100));
    let mut row: u32 = 0;
    assert(pos@ + block(w, h) =~= block(w, h));
    while row < MAX_ROWS && y.below(y1)
        invariant
            exact::<T>(),
            spacing == gap::<T>(),
            row <= MAX_ROWS,
            pos@ + rows_from(y, row as nat, x0, x1, y1) == block(w, h),
        ensures
            pos@ == block(w, h),
        decreases MAX_ROWS - row,
    {
        let shift: T = if row % 2 == 0 {
            T::ratio(0, 1)
        } else {
            spacing.times(T::ratio(1, 2))
        };
        let mut x: T = x0.plus(shift);
        let ghost done = pos@;
        let ghost line = row_from(x, y, x1, usize::MAX as nat);
        let mut room: usize = usize::MAX;
        assert(pos@ + line =~= done + line);
        while room > 0 && x.below(x1)
            invariant
                exact::<T>(),
                spacing == gap::<T>(),
                pos@ + row_from(x, y, x1, room as nat) == done + line,
            ensures
                pos@ == done + line,
            decreases room,
        {
            let ghost rest = row_from(sum(x, gap()), y, x1, (room - 1) as nat);
            let ghost before = pos@;
            pos.push(vec2(x, y));
            assert(pos@ + rest =~= before + (seq![Vec2 { x, y }] + rest));
            x = x.plus(spacing);
            room = room - 1;
        }
        assert(done + line + rows_from(sum(y, gap()), (row + 1) as nat, x0, x1, y1) =~= done + (line
            + rows_from(sum(y, gap()), (row + 1) as nat, x0, x1, y1)));
        y = y.plus(spacing);
        row = row + 1;
    }
    pos
}

/// A step neither adds nor removes particles, and leaves the material as it is.
pub proof fn law_step_keeps_the_fluid<T: Scalar>(
    fluid: SimModel<T>,
    dt: T,
    gravity: Vec2<T>,
    bounds: Bounds<T>,
)
    requires
        fluid.valid(),
    ensures
        fluid.stepped(dt, gravity, bounds).valid(),
        fluid.stepped(dt, gravity, bounds).pos.len() == fluid.pos.len(),
        fluid.stepped(dt, gravity, bounds).rest_dens == fluid.rest_dens,
        fluid.stepped(dt, gravity, bounds).stiffness == fluid.stiffness,
        fluid.stepped(dt, gravity, bounds).poly6 == fluid.poly6,
        fluid.stepped(dt, gravity, bounds).spiky_grad == fluid.spiky_grad,
        fluid.stepped(dt, gravity, bounds).visc_lap == fluid.visc_lap,
{
}

/// Density, pressure and force after a step are those at the positions that the
/// particles had before it, whatever they were before.
pub proof fn law_step_depends_on_motion_alone<T: Scalar>(
    a: SimModel<T>,
    b: SimModel<T>,
    dt: T,
    gravity: Vec2<T>,
    bounds: Bounds<T>,
)
    requires
        a.valid(),
        b.valid(),
        a.pos == b.pos,
        a.vel == b.vel,
        a.rest_dens == b.rest_dens,
        a.stiffness == b.stiffness,
        a.poly6 == b.poly6,
        a.spiky_grad == b.spiky_grad,
        a.visc_lap == b.visc_lap,
    ensures
        a.stepped(dt, gravity, bounds) == b.stepped(dt, gravity, bounds),
{
    let (a1, b1) = (a.arranged(bounds), b.arranged(bounds));
    assert(a1.weighed().rho =~= b1.weighed().rho);
    assert(a1.weighed().pressure =~= b1.weighed().pressure);
    assert(a1.weighed().cloud() =~= b1.weighed().cloud());
    assert(a1.weighed().forced() =~= b1.weighed().forced());
}

/// After a reset the particles are where a new fluid has them, at rest.
pub proof fn law_reset_is_a_new_start<T: Scalar>(fluid: SimModel<T>, w: T, h: T)
    ensures
        fluid.spawned(w, h).pos == SimModel::initial(w, h).pos,
        fluid.spawned(w, h).vel == SimModel::initial(w, h).vel,
        fluid.spawned(w, h).valid(),
        SimModel::initial(w, h).valid(),
{
}

/// A fluid made for a box goes on from a reset to that box as it went on from
/// its making, for any number of steps, as long as its stiffness was not changed.
pub proof fn law_reset_replays<T: Scalar>(
    fluid: SimModel<T>,
    w: T,
    h: T,
    n: nat,
    dt: T,
    gravity: Vec2<T>,
    bounds: Bounds<T>,
)
    requires
        n >= 1,
        fluid.rest_dens == SimModel::initial(w, h).rest_dens,
        fluid.stiffness == SimModel::initial(w, h).stiffness,
        fluid.poly6 == SimModel::initial(w, h).poly6,
        fluid.spiky_grad == SimModel::initial(w, h).spiky_grad,
        fluid.visc_lap == SimModel::initial(w, h).visc_lap,
    ensures
        fluid.spawned(w, h).run(n, dt, gravity, bounds) == SimModel::initial(w, h).run(
            n,
            dt,
            gravity,
            bounds,
        ),
    decreases n,
{
    if n == 1 {
        assert(fluid.spawned(w, h).run(0, dt, gravity, bounds) == fluid.spawned(w, h));
        assert(SimModel::initial(w, h).run(0, dt, gravity, bounds) == SimModel::initial(w, h));
        law_step_depends_on_motion_alone(
            fluid.spawned(w, h),
            SimModel::initial(w, h),
            dt,
            gravity,
            bounds,
        );
    } else {
        law_reset_replays(fluid, w, h, (n - 1) as nat, dt, gravity, bounds);
    }
}

/// The comparison of the scalars orders the walls at `lo` and `hi`: neither lies
/// below itself, and `hi` does not lie below `lo`.
pub open spec fn walls_apart<T: Scalar>(lo: T, hi: T) -> bool {
    &&& !lt(lo, lo)
    &&& !lt(hi, hi)
    &&& !lt(hi, lo)
}

/// After a step in a box, no particle is closer to a wall than its radius.
pub proof fn law_walls_hold<T: Scalar>(
    fluid: SimModel<T>,
    dt: T,
    gravity: Vec2<T>,
    bounds: Bounds<T>,
    i: int,
)
    requires
        fluid.valid(),
        0 <= i < fluid.pos.len(),
        bounds.shape == Shape::Rect,
        walls_apart(girth(), diff(bounds.w, girth())),
        walls_apart(girth(), diff(bounds.h, girth())),
    ensures
        !lt(fluid.stepped(dt, gravity, bounds).pos[i].x, girth()),
        !lt(diff(bounds.w, girth()), fluid.stepped(dt, gravity, bounds).pos[i].x),
        !lt(fluid.stepped(dt, gravity, bounds).pos[i].y, girth()),
        !lt(diff(bounds.h, girth()), fluid.stepped(dt, gravity, bounds).pos[i].y),
{
}

/// A particle that keeps its radius off the walls is left alone by them, in a
/// box and in a round container.
pub proof fn law_walls_leave_the_inside_alone<T: Scalar>(
    bounds: Bounds<T>,
    p: Vec2<T>,
    v: Vec2<T>,
)
    requires
        match bounds.shape {
            Shape::Rect => {
                &&& !lt(p.x, girth())
                &&& !lt(diff(bounds.w, girth()), p.x)
                &&& !lt(p.y, girth())
                &&& !lt(diff(bounds.h, girth()), p.y)
            },
            Shape::Circle => !lt(bounds.inner_radius(), p.sub_of(bounds.center()).norm()),
        },
    ensures
        bounds.resolved(p, v) == (p, v),
{
}

/// Pressure never pulls: with a greater-of-two that is not below its second
/// operand, no particle has a pressure below zero after a step.
pub proof fn law_pressure_never_pulls<T: Scalar>(
    fluid: SimModel<T>,
    dt: T,
    gravity: Vec2<T>,
    bounds: Bounds<T>,
    i: int,
)
    requires
        fluid.valid(),
        0 <= i < fluid.pos.len(),
        forall|a: T| !lt(#[trigger] greater(a, lit(0, 1)), lit(0, 1)),
    ensures
        !lt(fluid.stepped(dt, gravity, bounds).pressure[i], lit(0, 1)),
{
}

/// Changing the shape twice gives the shape back, and once does not.
pub proof fn law_shape_toggles(shape: Shape)
    ensures
        shape.other() != shape,
        shape.other().other() == shape,
{
}

/// A velocity is not faster than `limit`.
pub open spec fn at_most<T: Scalar>(v: Vec2<T>, limit: T) -> bool {
    !lt(limit, v.norm())
}

/// `limit` holds of every velocity that has been held to the speed limit, and goes on
/// to hold of it where a wall of the container turns it round: a box damps one of its
/// components, or both, and a round container reflects it about a direction outward.
pub open spec fn limit_holds<T: Scalar>(limit: T, bounds: Bounds<T>) -> bool {
    &&& forall|v: Vec2<T>| at_most(#[trigger] slowed(v), limit)
    &&& match bounds.shape {
        Shape::Rect => {
            &&& forall|x: T, y: T|
                at_most(Vec2 { x, y }, limit) ==> #[trigger] at_most(
                    Vec2 { x: prod(x, neg(rebound())), y },
                    limit,
                )
            &&& forall|x: T, y: T|
                at_most(Vec2 { x, y }, limit) ==> #[trigger] at_most(
                    Vec2 { x, y: prod(y, neg(rebound())) },
                    limit,
                )
        },
        Shape::Circle => forall|v: Vec2<T>, d: Vec2<T>|
            lt(bounds.inner_radius(), d.norm()) && lt(lit(0, 1), d.norm()) ==> at_most(
                #[trigger] bounced(slowed(v), d.div_of(d.norm())),
                limit,
            ),
    }
}

/// No particle is faster than the limit after a step, whatever forces act on it. This
/// is said of any `limit` that holds of the velocities of the arithmetic. Of floats,
/// and of a container that is wider and higher than a particle, that is the speed
/// limit with room for the roundings of one scaling and one bounce.
pub proof fn law_no_particle_exceeds_the_limit<T: Scalar>(
    fluid: SimModel<T>,
    dt: T,
    gravity: Vec2<T>,
    bounds: Bounds<T>,
    limit: T,
    i: int,
)
    requires
        fluid.valid(),
        0 <= i < fluid.pos.len(),
        limit_holds(limit, bounds),
    ensures
        at_most(fluid.stepped(dt, gravity, bounds).vel[i], limit),
{
    let f = fluid.arranged(bounds).weighed().forced();
    let u = slowed(rushed(f.vel[i], f.force[i], f.rho[i], dt, gravity));
    let p = f.pos[i].add_of(u.mul_by(dt));
    assert(fluid.stepped(dt, gravity, bounds).vel[i] == bounds.resolved(p, u).1);
    assert(at_most(u, limit));
    if bounds.shape == Shape::Rect {
        let x = walled(p.x, u.x, girth(), diff(bounds.w, girth()));
        assert(u == Vec2 { x: u.x, y: u.y });
        assert(at_most(Vec2 { x: x.1, y: u.y }, limit));
    }
}

/// What a step is taken with.
pub struct Stride<T> {
    pub dt: T,
    pub gravity: Vec2<T>,
    pub bounds: Bounds<T>,
}

impl<T: Scalar> SimModel<T> {
    /// The fluid after the given steps, in turn.
    pub open spec fn after(self, strides: Seq<Stride<T>>) -> SimModel<T>
        decreases strides.len(),
    {
        if strides.len() == 0 {
            self
        } else {
            let last = strides.last();
            self.after(strides.drop_last()).stepped(last.dt, last.gravity, last.bounds)
        }
    }
}

/// Steps, however many, neither add nor remove particles.
proof fn lemma_steps_keep_the_particles<T: Scalar>(fluid: SimModel<T>, strides: Seq<Stride<T>>)
    requires
        fluid.valid(),
    ensures
        fluid.after(strides).valid(),
        fluid.after(strides).pos.len() == fluid.pos.len(),
    decreases strides.len(),
{
    if strides.len() > 0 {
        let last = strides.last();
        lemma_steps_keep_the_particles(fluid, strides.drop_last());
        law_step_keeps_the_fluid(
            fluid.after(strides.drop_last()),
            last.dt,
            last.gravity,
            last.bounds,
        );
    }
}

/// However many steps the fluid takes, of whatever length and under whatever gravity,
/// it keeps its particles; where the last one is taken in a box, all of them are at
/// least their radius off its walls and none is faster than the limit.
pub proof fn law_fluid_stays_in_its_box<T: Scalar>(
    fluid: SimModel<T>,
    strides: Seq<Stride<T>>,
    limit: T,
    i: int,
)
    requires
        fluid.valid(),
        0 <= i < fluid.pos.len(),
        strides.len() >= 1,
        strides.last().bounds.shape == Shape::Rect,
        walls_apart(girth(), diff(strides.last().bounds.w, girth())),
        walls_apart(girth(), diff(strides.last().bounds.h, girth())),
        limit_holds(limit, strides.last().bounds),
    ensures
        fluid.after(strides).valid(),
        fluid.after(strides).pos.len() == fluid.pos.len(),
        !lt(fluid.after(strides).pos[i].x, girth()),
        !lt(diff(strides.last().bounds.w, girth()), fluid.after(strides).pos[i].x),
        !lt(fluid.after(strides).pos[i].y, girth()),
        !lt(diff(strides.last().bounds.h, girth()), fluid.after(strides).pos[i].y),
        at_most(fluid.after(strides).vel[i], limit),
{
    let last = strides.last();
    let before = fluid.after(strides.drop_last());
    lemma_steps_keep_the_particles(fluid, strides.drop_last());
    lemma_steps_keep_the_particles(fluid, strides);
    law_walls_hold(before, last.dt, last.gravity, last.bounds, i);
    law_no_particle_exceeds_the_limit(before, last.dt, last.gravity, last.bounds, limit, i);
}

/// A difference of coordinates is shorter than the reach of the kernels.
pub open spec fn short<T: Scalar>(d: T) -> bool {
    lt(magnitude(d), reach())
}

/// The cells of the grid are wide enough: a vector that is shorter than the reach
/// has components that are, and coordinates less than the reach apart fall into
/// the same cell of a row or into cells that touch.
pub open spec fn cells_are_wide<T: Scalar>() -> bool {
    &&& forall|d: Vec2<T>|
        lt(#[trigger] d.norm(), reach()) ==> short(d.x) && short(d.y)
    &&& forall|d: Vec2<T>|
        lt(#[trigger] d.dot_of(d), prod(reach(), reach())) ==> short(d.x) && short(d.y)
    &&& forall|a: T, b: T, cells: int|
        cells >= 1 && short(diff(b, a)) ==> touch(
            #[trigger] slot(a, cells),
            #[trigger] slot(b, cells),
        )
}

/// The neighbour search misses nobody: where the cells are wide enough, every
/// particle that acts on another, or that counts towards the density at it, is
/// among those that the grid has around it.
pub proof fn law_neighbour_search_misses_nobody<T: Scalar>(fluid: SimModel<T>, i: int, j: usize)
    requires
        fluid.valid(),
        fluid.is_arranged(),
        fluid.pos.len() <= usize::MAX,
        0 <= i < fluid.pos.len(),
        j < fluid.pos.len(),
        cells_are_wide::<T>(),
    ensures
        fluid.cloud().acts(i, j as int) ==> fluid.cloud().around(i).contains(j),
        ({
            let d = fluid.pos[j as int].sub_of(fluid.pos[i]);
            lt(d.dot_of(d), prod(reach(), reach()))
        }) ==> fluid.cloud().around(i).contains(j),
{
    let (p, q) = (fluid.pos[i], fluid.pos[j as int]);
    let d = q.sub_of(p);
    law_neighbors_are_the_touching_cells(p, fluid.pos, fluid.cols, fluid.rows, j);
    if short(d.x) && short(d.y) {
        assert(touch(slot(p.x, fluid.cols), slot(q.x, fluid.cols)));
        assert(touch(slot(p.y, fluid.rows), slot(q.y, fluid.rows)));
    }
}

/// Both components of a vector are zero, of either sign.
pub open spec fn nil_vector<T: Scalar>(v: Vec2<T>) -> bool {
    nil(v.x) && nil(v.y)
}

/// Zero is zero in the forces between particles: what is not above the rest density
/// has no pressure, what is multiplied by zero or divided from it is zero, and
/// zero added to zero or to a number leaves it as it is.
pub open spec fn zero_is_neutral<T: Scalar>(dt: T) -> bool {
    let k = SphConstants::<T>::tuned();
    &&& nil(lit::<T>(0, 1))
    &&& nil(diff(lit::<T>(0, 1), lit::<T>(0, 1)))
    &&& at_most(Vec2::<T>::origin(), speed_limit())
    &&& forall|a: T, b: T| ge(b, b) ==> ge(#[trigger] greater(a, b), b)
    &&& forall|a: T, b: T, c: T| ge(a, c) ==> #[trigger] ge(greater(a, b), c)
    &&& forall|a: T, b: T| ge(b, a) ==> nil(#[trigger] pressure_at(a, b, k.stiffness))
    &&& forall|a: T| lt(lit(0, 1), #[trigger] greater(a, density_floor()))
    &&& forall|b: T| lt(lit(0, 1), b) ==> lt(lit(0, 1), #[trigger] prod(lit(2, 1), b))
    &&& forall|a: T, b: T| nil(a) && nil(b) ==> nil(#[trigger] sum(a, b))
    &&& forall|a: T| nil(a) ==> #[trigger] sum(lit(0, 1), a) == lit::<T>(0, 1)
    &&& forall|a: T, b: T| nil(b) && !nil(a) && ge(a, a) ==> #[trigger] sum(a, b) == a
    &&& forall|a: T, b: T| nil(a) && lt(lit(0, 1), b) ==> nil(#[trigger] quot(a, b))
    &&& forall|a: T| nil(a) ==> nil(#[trigger] prod(prod(thickness(), mass()), a))
    &&& forall|a: T| nil(a) ==> nil(#[trigger] prod(a, k.spiky_grad))
    &&& forall|a: T| nil(a) ==> nil(#[trigger] prod(a, k.visc_lap))
    &&& forall|a: T| nil(a) ==> nil(#[trigger] prod(dt, a))
    &&& forall|d: Vec2<T>, a: T|
        lt(d.norm(), reach()) && lt(lit(0, 1), d.norm()) && nil(a) ==> nil_vector(
            #[trigger] d.div_of(d.norm()).neg_of().mul_of(mass()).mul_of(a),
        )
    &&& forall|r: T, a: T|
        lt(r, reach()) && lt(lit(0, 1), r) && nil(a) ==> nil(
            #[trigger] prod(a, power(diff(reach(), r), 2)),
        )
    &&& forall|r: T, a: T|
        lt(r, reach()) && lt(lit(0, 1), r) && nil(a) ==> nil(
            #[trigger] prod(a, diff(reach(), r)),
        )
}

/// The greatest density is not below any of them.
proof fn lemma_peak<T: Scalar>(rho: Seq<T>, upto: nat, i: int, dt: T)
    requires
        zero_is_neutral(dt),
        0 <= i < upto <= rho.len(),
        ge(rho[i], rho[i]),
    ensures
        ge(peak(rho, upto), rho[i]),
    decreases upto,
{
    if i < upto - 1 {
        lemma_peak(rho, (upto - 1) as nat, i, dt);
    }
}

/// Without pressure and without motion no force acts.
proof fn lemma_nothing_pushes<T: Scalar>(cloud: Cloud<T>, i: int, upto: nat, dt: T)
    requires
        zero_is_neutral(dt),
        cloud.spiky_grad == SphConstants::<T>::tuned().spiky_grad,
        cloud.visc_lap == SphConstants::<T>::tuned().visc_lap,
        0 <= i < cloud.pos.len(),
        all_below(cloud.around(i), cloud.pos.len() as int),
        upto <= cloud.around(i).len(),
        forall|j: int| 0 <= j < cloud.pos.len() ==> nil(#[trigger] cloud.pressure[j]),
        forall|j: int|
            0 <= j < cloud.pos.len() ==> #[trigger] cloud.vel[j] == Vec2::<T>::origin(),
    ensures
        cloud.pushes(i, upto) == Vec2::<T>::origin(),
        cloud.drags(i, upto) == Vec2::<T>::origin(),
    decreases upto,
{
    if upto > 0 {
        lemma_nothing_pushes(cloud, i, (upto - 1) as nat, dt);
        let j = cloud.around(i)[upto - 1] as int;
        if cloud.acts(i, j) {
            let d = cloud.pos[j].sub_of(cloud.pos[i]);
            let r = d.norm();
            let rho_j = greater(cloud.rho[j], density_floor());
            let p = sum(cloud.pressure[i], cloud.pressure[j]);
            assert(nil(p));
            let a = d.div_of(r).neg_of().mul_of(mass()).mul_of(p);
            assert(nil_vector(a));
            let b = a.div_of(prod(lit(2, 1), rho_j));
            assert(lt(lit(0, 1), prod(lit(2, 1), rho_j)));
            assert(nil_vector(b));
            let c = b.mul_of(cloud.spiky_grad);
            assert(nil_vector(c));
            assert(nil_vector(c.mul_of(power(diff(reach(), r), 2))));
            let e = cloud.vel[j].sub_of(cloud.vel[i]).mul_by(prod(thickness(), mass()));
            assert(nil_vector(e));
            let g = e.div_of(rho_j).mul_of(cloud.visc_lap);
            assert(nil_vector(e.div_of(rho_j)));
            assert(nil_vector(g));
            assert(nil_vector(g.mul_of(diff(reach(), r))));
        }
    }
}

/// A coordinate is at least a particle's radius.
pub open spec fn clear<T: Scalar>(a: T) -> bool {
    ge(a, girth())
}

/// The order of the scalars goes with their sums: what is at least a radius is a
/// number and not zero, and is at least a radius with a gap, half a gap or nothing
/// added to it; what lies below an end does not lie above what that end is not above.
pub open spec fn gaps_lead_on<T: Scalar>() -> bool {
    &&& forall|a: T| #[trigger] clear(a) ==> ge(a, a) && !nil(a) && !lt(a, girth())
    &&& forall|a: T| clear(a) ==> clear(#[trigger] sum(a, gap()))
    &&& forall|a: T| clear(a) ==> clear(#[trigger] sum(a, prod(gap(), lit(1, 2))))
    &&& forall|a: T| clear(a) ==> clear(#[trigger] sum(a, lit(0, 1)))
    &&& forall|a: T, b: T, c: T| #[trigger] ge(c, b) && #[trigger] lt(a, b) ==> !lt(c, a)
}

/// What the kernel gives is not below zero, and neither are its sums, which are
/// numbers.
pub open spec fn kernel_counts_up<T: Scalar>() -> bool {
    let reach2 = prod(reach::<T>(), reach());
    let k = SphConstants::<T>::tuned();
    &&& ge(lit::<T>(0, 1), lit(0, 1))
    &&& forall|a: T| #[trigger] ge(a, lit(0, 1)) ==> ge(a, a)
    &&& forall|a: T, b: T|
        ge(a, lit(0, 1)) && ge(b, lit(0, 1)) ==> ge(#[trigger] sum(a, b), lit(0, 1))
    &&& forall|r2: T|
        lt(r2, reach2) ==> ge(
            #[trigger] prod(prod(mass(), k.poly6), power(diff(reach2, r2), 3)),
            lit(0, 1),
        )
}

/// The container is large enough for the starting block to keep off its walls.
pub open spec fn roomy<T: Scalar>(w: T, h: T) -> bool {
    &&& clear(prod(w, lit(8, 100)))
    &&& clear(prod(h, lit(30, 100)))
    &&& ge(diff(w, girth()), prod(w, lit(45, 100)))
    &&& ge(diff(h, girth()), prod(h, lit(92, 100)))
}

/// Particle `p` lies a radius or more from the left and the upper wall, and before the
/// ends `x1` and `y1`.
spec fn placed<T: Scalar>(p: Vec2<T>, x1: T, y1: T) -> bool {
    clear(p.x) && clear(p.y) && lt(p.x, x1) && lt(p.y, y1)
}

/// A row of the starting block lies between the wall and its end.
proof fn lemma_row_is_placed<T: Scalar>(x: T, y: T, x1: T, y1: T, room: nat)
    requires
        gaps_lead_on::<T>(),
        clear(x),
        clear(y),
        lt(y, y1),
    ensures
        forall|i: int|
            0 <= i < row_from(x, y, x1, room).len() ==> placed(
                #[trigger] row_from(x, y, x1, room)[i],
                x1,
                y1,
            ),
    decreases room,
{
    if room > 0 && lt(x, x1) {
        let rest = row_from(sum(x, gap()), y, x1, (room - 1) as nat);
        lemma_row_is_placed(sum(x, gap()), y, x1, y1, (room - 1) as nat);
        assert forall|i: int| 0 <= i < row_from(x, y, x1, room).len() implies placed(
            #[trigger] row_from(x, y, x1, room)[i],
            x1,
            y1,
        ) by {
            if i > 0 {
                assert(row_from(x, y, x1, room)[i] == rest[i - 1]);
            }
        }
    }
}

/// The rows of the starting block lie between the walls and their ends.
proof fn lemma_rows_are_placed<T: Scalar>(y: T, r: nat, x0: T, x1: T, y1: T)
    requires
        gaps_lead_on::<T>(),
        clear(x0),
        clear(y),
    ensures
        forall|i: int|
            0 <= i < rows_from(y, r, x0, x1, y1).len() ==> placed(
                #[trigger] rows_from(y, r, x0, x1, y1)[i],
                x1,
                y1,
            ),
    decreases MAX_ROWS - r,
{
    if r < MAX_ROWS && lt(y, y1) {
        lemma_row_is_placed(row_start(x0, r), y, x1, y1, usize::MAX as nat);
        lemma_rows_are_placed(sum(y, gap()), r + 1, x0, x1, y1);
        let line = row_from(row_start(x0, r), y, x1, usize::MAX as nat);
        let rest = rows_from(sum(y, gap()), r + 1, x0, x1, y1);
        assert forall|i: int| 0 <= i < rows_from(y, r, x0, x1, y1).len() implies placed(
            #[trigger] rows_from(y, r, x0, x1, y1)[i],
            x1,
            y1,
        ) by {
            assert(rows_from(y, r, x0, x1, y1)[i] == if i < line.len() {
                line[i]
            } else {
                rest[i - line.len()]
            });
        }
    }
}

/// A density is not below zero.
proof fn lemma_density_counts_up<T: Scalar>(
    p: Vec2<T>,
    pos: Seq<Vec2<T>>,
    near: Seq<usize>,
    upto: nat,
)
    requires
        kernel_counts_up::<T>(),
    ensures
        ge(density_at(p, pos, near, SphConstants::<T>::tuned().poly6, upto), lit(0, 1)),
    decreases upto,
{
    if upto > 0 {
        lemma_density_counts_up(p, pos, near, (upto - 1) as nat);
    }
}

/// The fluid starts calm: without gravity, the block that fills a new box neither
/// moves nor gains any velocity in a step. This is said of a box that is large enough
/// for the block to keep off its walls, and where zero is neutral and the order goes
/// with sums in the arithmetic, as they do in that of floats for a finite `dt`.
pub proof fn law_fluid_starts_calm<T: Scalar>(w: T, h: T, dt: T)
    requires
        zero_is_neutral(dt),
        gaps_lead_on::<T>(),
        kernel_counts_up::<T>(),
        roomy(w, h),
        block(w, h).len() <= usize::MAX,
    ensures
        SimModel::initial(w, h).stepped(
            dt,
            Vec2::origin(),
            Bounds { w, h, shape: Shape::Rect },
        ).pos == SimModel::initial(w, h).pos,
        SimModel::initial(w, h).stepped(
            dt,
            Vec2::origin(),
            Bounds { w, h, shape: Shape::Rect },
        ).vel == SimModel::initial(w, h).vel,
{
    let bounds = Bounds { w, h, shape: Shape::Rect };
    let k = SphConstants::<T>::tuned();
    let start = SimModel::initial(w, h);
    let m = start.arranged(bounds).weighed();
    let cloud = m.cloud();
    let n = start.pos.len();
    lemma_rows_are_placed(
        prod(h, lit(30, 100)),
        0,
        prod(w, lit(8, 100)),
        prod(w, lit(45, 100)),
        prod(h, lit(92, 100)),
    );
    assert forall|j: int| 0 <= j < n implies nil(#[trigger] m.pressure[j]) by {
        let near = nearby(start.pos[j], start.grid, start.cols, start.rows);
        lemma_density_counts_up(start.pos[j], start.pos, near, near.len());
        assert(ge(start.rho[j], lit(0, 1)));
        lemma_peak(start.rho, n, j, dt);
        assert(ge(start.rest_dens, start.rho[j]));
        assert(m.density(j) == start.rho[j]);
        assert(nil(pressure_at(start.rho[j], start.rest_dens, k.stiffness)));
    }
    let f = m.forced();
    let done = start.stepped(dt, Vec2::origin(), bounds);
    assert forall|i: int| 0 <= i < n implies #[trigger] done.pos[i] == start.pos[i] && done.vel[i]
        == start.vel[i] by {
        lemma_nearby_are_particles(cloud.pos[i], cloud.pos, cloud.cols, cloud.rows);
        lemma_nothing_pushes(cloud, i, cloud.around(i).len(), dt);
        let o = Vec2::<T>::origin();
        assert(f.force[i] == cloud.force_on(i));
        assert(f.force[i] == o);
        let a = o.div_of(greater(f.rho[i], density_floor()));
        assert(nil_vector(a));
        let b = a.add_of(o);
        assert(nil_vector(b));
        assert(nil_vector(b.mul_by(dt)));
        assert(rushed(o, o, f.rho[i], dt, o) == o);
        assert(nil_vector(o.mul_by(dt)));
        let p = start.pos[i];
        assert(p == block(w, h)[i]);
        assert(placed(p, prod(w, lit(45, 100)), prod(h, lit(92, 100))));
        assert(p.add_of(o.mul_by(dt)) == p);
        assert(f.vel[i] == o);
        assert(f.flight(i, dt, o, bounds) == bounds.resolved(p, o));
        law_walls_leave_the_inside_alone(bounds, p, o);
    }
    assert(done.pos =~= start.pos);
    assert(done.vel =~= start.vel);
}

} // verus!
