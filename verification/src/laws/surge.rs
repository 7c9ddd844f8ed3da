//! What a step does to the liquid, from its beginning to its end.

#[allow(unused_imports)]
use crate::laws::liquid::{
    across, along, ideal, law_box_walls_turn_back, law_round_wall_turns_back,
    law_speed_limit_keeps_the_direction, lemma_length, turned_back,
};
#[allow(unused_imports)]
use crate::laws::pairs::{
    cloud_of_numbers, ideal_powers, law_density_counts_the_near, law_force_and_gravity_accelerate,
    law_forces_add_up, law_pressure_resists_packing, offset_x, offset_y, total_force, total_share,
};
#[allow(unused_imports)]
use crate::neighbors::{
    all_below, columns, law_neighbors_are_the_touching_cells, lemma_nearby_are_particles, lines,
    nearby, slot, span, touch,
};
#[allow(unused_imports)]
use crate::reals::{larger, lemma_literal, smaller, Reading};
use crate::scalar::Scalar;
#[allow(unused_imports)]
use crate::scalar::{ceiling, clamped, count, greater, index, lit, quot};
#[allow(unused_imports)]
use crate::sim::{peak, reach, rushed, slowed, speed_limit, Bounds, Cloud, Shape, SimModel};
#[allow(unused_imports)]
use crate::vec2::Vec2;
use vstd::prelude::*;

verus! {

/// Particles act on one another exactly if they are two, at different points, and less than
/// sixteen pixels apart.
pub proof fn law_particles_in_reach_act<T: Scalar>(r: Reading<T>, cloud: Cloud<T>, i: int, j: int)
    requires
        ideal(r),
        r.is_vec(cloud.pos[i]),
        r.is_vec(cloud.pos[j]),
    ensures
        ({
            let (x, y) = (offset_x(r, cloud, i, j), offset_y(r, cloud, i, j));
            cloud.acts(i, j) <==> i != j && 0real < x * x + y * y && x * x + y * y < 256real
        }),
{
    let d = cloud.pos[j].sub_of(cloud.pos[i]);
    assert(r.is_vec(d));
    lemma_length(r, d);
    assert(r.fits(0i32 as real / 1i32 as real));
    assert(r.fits(16i32 as real / 1i32 as real));
    lemma_literal(r, 0, 1);
    lemma_literal(r, 16, 1);
    let s = r.at(d.norm());
    assert(s < 16real <==> s * s < 256real) by (nonlinear_arith)
        requires
            s >= 0real,
    ;
    assert(s > 0real <==> s * s > 0real) by (nonlinear_arith)
        requires
            s >= 0real,
    ;
}

/// The cell of a coordinate, in numbers.
proof fn lemma_slot<T: Scalar>(r: Reading<T>, x: T, cells: int)
    requires
        r.sound(),
        r.never_rounds(),
        r.is(x),
        1 <= cells <= usize::MAX,
    ensures
        ({
            let at = smaller(larger(r.at(x) / 16real, 0real), (cells - 1) as real);
            slot(x, cells) as real <= at < slot(x, cells) as real + 1real
        }),
{
    assert(r.fits(0i32 as real / 1i32 as real));
    assert(r.fits(16i32 as real / 1i32 as real));
    lemma_literal(r, 0, 1);
    lemma_literal(r, 16, 1);
    let last = (cells - 1) as usize;
    assert(r.fits(last as real));
    assert(r.means(count::<T>(last), last as real));
    assert(r.means(quot(x, reach()), r.at(x) / 16real));
    let c = clamped(quot(x, reach()), lit(0, 1), count(last));
    assert(r.is(c));
    assert(index(c) as real <= r.at(c));
}

/// The grid finds every particle that is near: one less than sixteen pixels away is among
/// those that the grid has around a particle.
pub proof fn law_near_particles_are_found<T: Scalar>(
    r: Reading<T>,
    fluid: SimModel<T>,
    i: int,
    j: usize,
)
    requires
        r.sound(),
        r.never_rounds(),
        fluid.is_arranged(),
        fluid.cols <= usize::MAX,
        fluid.rows <= usize::MAX,
        fluid.pos.len() <= usize::MAX,
        0 <= i < fluid.pos.len(),
        j < fluid.pos.len(),
        r.is_vec(fluid.pos[i]),
        r.is_vec(fluid.pos[j as int]),
        ({
            let (x, y) = (
                offset_x(r, fluid.cloud(), i, j as int),
                offset_y(r, fluid.cloud(), i, j as int),
            );
            x * x + y * y < 256real
        }),
    ensures
        fluid.cloud().around(i).contains(j),
{
    let (p, q) = (fluid.pos[i], fluid.pos[j as int]);
    let (x, y) = (r.at(q.x) - r.at(p.x), r.at(q.y) - r.at(p.y));
    let (xx, yy) = (x * x, y * y);
    assert(xx >= 0real) by (nonlinear_arith)
        requires
            xx == x * x,
    ;
    assert(yy >= 0real) by (nonlinear_arith)
        requires
            yy == y * y,
    ;
    assert(0real - 16real < x && x < 16real) by (nonlinear_arith)
        requires
            x * x < 256real,
    ;
    assert(0real - 16real < y && y < 16real) by (nonlinear_arith)
        requires
            y * y < 256real,
    ;
    lemma_slot(r, p.x, fluid.cols);
    lemma_slot(r, p.y, fluid.rows);
    lemma_slot(r, q.x, fluid.cols);
    lemma_slot(r, q.y, fluid.rows);
    assert(touch(slot(p.x, fluid.cols), slot(q.x, fluid.cols)));
    assert(touch(slot(p.y, fluid.rows), slot(q.y, fluid.rows)));
    law_neighbors_are_the_touching_cells(p, fluid.pos, fluid.cols, fluid.rows, j);
}

/// What a particle goes through in a step.
pub struct Leap<T> {
    /// Its velocity with what force and gravity add.
    pub fast: Vec2<T>,
    /// That velocity, held to the speed limit.
    pub held: Vec2<T>,
    /// Where it would get without walls.
    pub goal: Vec2<T>,
}

/// `held` is `fast`, shortened to fifteen hundred pixels a second where it is longer.
pub open spec fn limits<T: Scalar>(r: Reading<T>, fast: Vec2<T>, held: Vec2<T>) -> bool {
    if along(r, fast, fast) > 1500real * 1500real {
        &&& along(r, held, held) == 1500real * 1500real
        &&& across(r, held, fast) == 0real
        &&& along(r, held, fast) > 0real
    } else {
        held == fast
    }
}

/// The round wall, eight pixels inside the circle that fits the window, brings what is
/// outside it back to its nearest point, and turns the velocity toward it round, with four
/// tenths of what it was.
pub open spec fn turned_by_the_ring<T: Scalar>(
    r: Reading<T>,
    bounds: Bounds<T>,
    p: Vec2<T>,
    v: Vec2<T>,
    q: Vec2<T>,
    u: Vec2<T>,
) -> bool {
    let (cx, cy) = (r.at(bounds.w) / 2real, r.at(bounds.h) / 2real);
    let m = smaller(r.at(bounds.w), r.at(bounds.h)) / 2real - 8real;
    let (dx, dy) = (r.at(p.x) - cx, r.at(p.y) - cy);
    let out = r.at(v.x) * dx + r.at(v.y) * dy;
    if dx * dx + dy * dy <= m * m {
        q == p && u == v
    } else {
        &&& (r.at(q.x) - cx) * (r.at(q.x) - cx) + (r.at(q.y) - cy) * (r.at(q.y) - cy) == m * m
        &&& (r.at(q.x) - cx) * dy == (r.at(q.y) - cy) * dx
        &&& (r.at(q.x) - cx) * dx + (r.at(q.y) - cy) * dy >= 0real
        &&& r.at(u.x) * dx + r.at(u.y) * dy == if out > 0real {
            0real - out * 4real / 10real
        } else {
            out
        }
        &&& r.at(u.x) * dy - r.at(u.y) * dx == r.at(v.x) * dy - r.at(v.y) * dx
    }
}

/// Liquid whose particles and material are numbers.
pub open spec fn liquid_of_numbers<T: Scalar>(r: Reading<T>, fluid: SimModel<T>) -> bool {
    &&& fluid.valid() && fluid.pos.len() <= usize::MAX
    &&& forall|i: int| 0 <= i < fluid.pos.len() ==> r.is_vec(#[trigger] fluid.pos[i])
    &&& forall|i: int| 0 <= i < fluid.vel.len() ==> r.is_vec(#[trigger] fluid.vel[i])
    &&& r.is(fluid.rest_dens) && r.is(fluid.poly6)
    &&& r.is(fluid.spiky_grad) && r.is(fluid.visc_lap)
    &&& r.is(fluid.stiffness) && r.at(fluid.stiffness) >= 0real
}

/// The particles of `fluid` where a step finds them, with the densities and pressures that
/// it works out.
pub open spec fn crowd<T: Scalar>(fluid: SimModel<T>, after: SimModel<T>) -> Cloud<T> {
    Cloud {
        pos: fluid.pos,
        vel: fluid.vel,
        rho: after.rho,
        pressure: after.pressure,
        grid: after.grid,
        cols: after.cols,
        rows: after.rows,
        spiky_grad: fluid.spiky_grad,
        visc_lap: fluid.visc_lap,
    }
}

/// Density and pressure at particle `i` come of the particles that the grid has around it.
pub open spec fn weighs<T: Scalar>(
    r: Reading<T>,
    fluid: SimModel<T>,
    cloud: Cloud<T>,
    i: int,
) -> bool {
    let near = cloud.around(i);
    &&& r.is(cloud.rho[i]) && r.is(cloud.pressure[i])
    &&& all_below(near, fluid.pos.len() as int)
    &&& r.at(cloud.rho[i]) == total_share(
        r,
        fluid.pos[i],
        fluid.pos,
        near,
        fluid.poly6,
        near.len(),
    )
    &&& r.at(cloud.pressure[i]) == if r.at(cloud.rho[i]) > r.at(fluid.rest_dens) {
        r.at(fluid.stiffness) * (r.at(cloud.rho[i]) - r.at(fluid.rest_dens))
    } else {
        0real
    }
}

/// Densities and pressures are numbers.
proof fn lemma_crowd<T: Scalar>(r: Reading<T>, fluid: SimModel<T>, bounds: Bounds<T>)
    requires
        ideal_powers(r),
        liquid_of_numbers(r, fluid),
    ensures
        ({
            let c = fluid.arranged(bounds).weighed().cloud();
            &&& cloud_of_numbers(r, c)
            &&& forall|i: int| 0 <= i < fluid.pos.len() ==> #[trigger] weighs(r, fluid, c, i)
        }),
{
    let a = fluid.arranged(bounds);
    let c = a.weighed().cloud();
    assert forall|i: int| 0 <= i < fluid.pos.len() implies #[trigger] weighs(r, fluid, c, i) by {
        let p = fluid.pos[i];
        let near = nearby(p, a.grid, a.cols, a.rows);
        assert(r.is_vec(p));
        lemma_nearby_are_particles(p, fluid.pos, a.cols, a.rows);
        law_density_counts_the_near(r, p, fluid.pos, near, fluid.poly6, near.len());
        assert(c.rho[i] == a.density(i));
        law_pressure_resists_packing(r, c.rho[i], fluid.rest_dens, fluid.stiffness);
    }
    assert forall|i: int| 0 <= i < c.pos.len() implies r.is_vec(#[trigger] c.pos[i]) by {
        assert(r.is_vec(fluid.pos[i]));
    }
    assert forall|i: int| 0 <= i < c.pos.len() implies r.is_vec(#[trigger] c.vel[i]) by {
        assert(r.is_vec(fluid.vel[i]));
    }
    assert forall|i: int| 0 <= i < c.pos.len() implies r.is(#[trigger] c.rho[i]) by {
        assert(weighs(r, fluid, c, i));
    }
    assert forall|i: int| 0 <= i < c.pos.len() implies r.is(#[trigger] c.pressure[i]) by {
        assert(weighs(r, fluid, c, i));
    }
}

/// A step of the liquid: the density at a particle is what the particles around it where it
/// is at the start give it, the pressure goes by the density, the force adds up from the
/// pushes and drags, force and gravity speed the particle up, the speed limit holds it, and
/// it goes on until a wall turns it back. What the particle goes through is returned.
pub proof fn law_step_moves_the_liquid<T: Scalar>(
    r: Reading<T>,
    fluid: SimModel<T>,
    dt: T,
    gravity: Vec2<T>,
    bounds: Bounds<T>,
    i: int,
) -> (leap: Leap<T>)
    requires
        ideal_powers(r),
        liquid_of_numbers(r, fluid),
        r.is(dt),
        r.is_vec(gravity),
        r.is(bounds.w) && r.at(bounds.w) >= 16real,
        r.is(bounds.h) && r.at(bounds.h) >= 16real,
        0 <= i < fluid.pos.len(),
    ensures
        ({
            let after = fluid.stepped(dt, gravity, bounds);
            let cloud = crowd(fluid, after);
            let total = total_force(r, cloud, i, cloud.around(i).len());
            let d = larger(r.at(after.rho[i]), 1real / 1000000real);
            let (p, v, t) = (fluid.pos[i], fluid.vel[i], r.at(dt));
            let (q, u) = (after.pos[i], after.vel[i]);
            &&& weighs(r, fluid, cloud, i)
            &&& r.means(leap.fast.x, r.at(v.x) + t * (total.0 / d + r.at(gravity.x)))
            &&& r.means(leap.fast.y, r.at(v.y) + t * (total.1 / d + r.at(gravity.y)))
            &&& limits(r, leap.fast, leap.held)
            &&& r.means(leap.goal.x, r.at(p.x) + r.at(leap.held.x) * t)
            &&& r.means(leap.goal.y, r.at(p.y) + r.at(leap.held.y) * t)
            &&& match bounds.shape {
                Shape::Rect => {
                    &&& (r.at(q.x), r.at(u.x)) == turned_back(
                        r.at(leap.goal.x),
                        r.at(leap.held.x),
                        r.at(bounds.w),
                    )
                    &&& (r.at(q.y), r.at(u.y)) == turned_back(
                        r.at(leap.goal.y),
                        r.at(leap.held.y),
                        r.at(bounds.h),
                    )
                },
                Shape::Circle => turned_by_the_ring(r, bounds, leap.goal, leap.held, q, u),
            }
        }),
{
    let f = fluid.arranged(bounds).weighed();
    lemma_crowd(r, fluid, bounds);
    let after = fluid.stepped(dt, gravity, bounds);
    let cloud = f.cloud();
    assert(crowd(fluid, after) == cloud);
    assert(weighs(r, fluid, cloud, i));
    assert(r.is_vec(fluid.pos[i]) && r.is_vec(fluid.vel[i]));
    law_forces_add_up(r, cloud, i);
    let force = cloud.force_on(i);
    law_force_and_gravity_accelerate(r, fluid.vel[i], force, f.rho[i], dt, gravity);
    let fast = rushed(fluid.vel[i], force, f.rho[i], dt, gravity);
    law_speed_limit_keeps_the_direction(r, fast);
    let held = slowed(fast);
    lemma_held(r, fast);
    let goal = fluid.pos[i].add_of(held.mul_by(dt));
    assert(r.is_vec(held.mul_by(dt)));
    assert(r.is_vec(goal));
    match bounds.shape {
        Shape::Rect => {
            law_box_walls_turn_back(r, bounds, goal, held);
        },
        Shape::Circle => {
            law_round_wall_turns_back(r, bounds, goal, held);
        },
    }
    Leap { fast, held, goal }
}

/// A velocity held to the speed limit is one of numbers.
proof fn lemma_held<T: Scalar>(r: Reading<T>, v: Vec2<T>)
    requires
        ideal(r),
        r.is_vec(v),
    ensures
        r.is_vec(slowed(v)),
{
    lemma_length(r, v);
    assert(r.fits(1500i32 as real / 1i32 as real));
    lemma_literal(r, 1500, 1);
    if r.at(v.norm()) > 1500real {
        assert(r.is(quot(speed_limit(), v.norm())));
    }
}

/// Columns over a side, in numbers.
proof fn lemma_span<T: Scalar>(r: Reading<T>, side: T)
    requires
        r.sound(),
        r.never_rounds(),
        r.is(side) && 0real <= r.at(side) < 1000000real,
    ensures
        r.at(side) < (span(side) + 1) as real * 16real,
        (span(side) + 1) as real * 16real <= larger(r.at(side) + 32real, 32real),
{
    assert(r.fits(1i32 as real / 1i32 as real));
    assert(r.fits(16i32 as real / 1i32 as real));
    lemma_literal(r, 1, 1);
    lemma_literal(r, 16, 1);
    let q = quot(side, reach());
    assert(r.means(q, r.at(side) / 16real));
    let c = ceiling(q);
    assert(r.is(c));
    let g = greater(c, lit(1, 1));
    assert(r.means(g, larger(r.at(c), 1real)));
    assert(span(side) as real <= r.at(g) < span(side) as real + 1real);
}

/// The grid covers the container, with less than two columns and two rows to spare.
pub proof fn law_grid_covers_the_container<T: Scalar>(r: Reading<T>, bounds: Bounds<T>)
    requires
        r.sound(),
        r.never_rounds(),
        r.is(bounds.w) && 16real <= r.at(bounds.w) < 1000000real,
        r.is(bounds.h) && 16real <= r.at(bounds.h) < 1000000real,
    ensures
        r.at(bounds.w) < columns(bounds) as real * 16real <= r.at(bounds.w) + 32real,
        r.at(bounds.h) < lines(bounds) as real * 16real <= r.at(bounds.h) + 32real,
{
    lemma_span(r, bounds.w);
    lemma_span(r, bounds.h);
}

/// The rest density is that of the densest particle: none is denser, and one is as dense,
/// unless all are below a millionth.
pub proof fn law_rest_density_is_the_greatest<T: Scalar>(r: Reading<T>, fluid: SimModel<T>, i: int)
    requires
        r.sound(),
        r.never_rounds(),
        forall|k: int| 0 <= k < fluid.rho.len() ==> r.is(#[trigger] fluid.rho[k]),
        0 <= i < fluid.rho.len(),
    ensures
        ({
            let rest = fluid.calibrated().rest_dens;
            &&& r.is(rest)
            &&& r.at(fluid.rho[i]) <= r.at(rest)
            &&& r.at(rest) == 1real / 1000000real || exists|k: int|
                0 <= k < fluid.rho.len() && r.at(#[trigger] fluid.rho[k]) == r.at(rest)
        }),
{
    assert(r.fits(1i32 as real / 1000000i32 as real));
    assert(r.fits(0i32 as real / 1i32 as real));
    lemma_literal(r, 1, 1000000);
    lemma_literal(r, 0, 1);
    lemma_peak(r, fluid.rho, fluid.rho.len());
    let p = peak(fluid.rho, fluid.rho.len());
    if r.at(p) > 1real / 1000000real {
        let k = choose|k: int|
            0 <= k < fluid.rho.len() && r.at(#[trigger] fluid.rho[k]) == r.at(p);
        assert(r.at(fluid.rho[k]) == r.at(fluid.calibrated().rest_dens));
    }
}

/// The greatest of the first densities.
proof fn lemma_peak<T: Scalar>(r: Reading<T>, rho: Seq<T>, upto: nat)
    requires
        r.sound(),
        r.never_rounds(),
        upto <= rho.len(),
        forall|k: int| 0 <= k < rho.len() ==> r.is(#[trigger] rho[k]),
    ensures
        r.is(peak(rho, upto)),
        forall|k: int| 0 <= k < upto ==> r.at(#[trigger] rho[k]) <= r.at(peak(rho, upto)),
        r.at(peak(rho, upto)) == 0real || exists|k: int|
            0 <= k < upto && r.at(#[trigger] rho[k]) == r.at(peak(rho, upto)),
    decreases upto,
{
    assert(r.fits(0i32 as real / 1i32 as real));
    lemma_literal(r, 0, 1);
    if upto > 0 {
        let before = (upto - 1) as nat;
        lemma_peak(r, rho, before);
        assert(r.is(rho[upto - 1]));
        if r.at(peak(rho, upto)) == r.at(rho[upto - 1]) {
        } else if r.at(peak(rho, before)) != 0real {
            let k = choose|k: int|
                0 <= k < before && r.at(#[trigger] rho[k]) == r.at(peak(rho, before));
            assert(r.at(rho[k]) == r.at(peak(rho, upto)));
        }
    }
}

} // verus!
