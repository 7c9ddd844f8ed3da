//! What a step does to the water, from its beginning to its end.

#[allow(unused_imports)]
use crate::flip::{lemma_sums_fill_the_grid, Faces, FlipModel};
#[allow(unused_imports)]
use crate::laws::transfer::{
    all_numbers, flown, grid_velocity, grid_velocity_before, in_basin, is_mean,
    law_cells_with_particles_are_fluid, law_faces_hold_the_mean_of_the_particles,
    law_grid_is_read_between_its_values, law_particles_fly_and_stop, law_read_back_blends,
    lemma_cells_along, lies_in_cell, particles_are_numbers, read_with, sideways, total_motion,
    total_nearness, upward,
};
#[allow(unused_imports)]
use crate::laws::water::{
    balanced, bordered, ideal_flow, incompressible, law_incompressible_flow_is_kept,
    law_sweeps_reach_every_cell, lemma_sweeps_keep_numbers, same_flow, tally, Ways,
};
#[allow(unused_imports)]
use crate::layout::{
    col, lemma_col_row_of_place, lemma_place_in_grid, lemma_place_of_col_row, lemma_row_in_grid,
    place, row,
};
#[allow(unused_imports)]
use crate::reals::{lemma_literal, lemma_spread, Reading};
use crate::scalar::Scalar;
#[allow(unused_imports)]
use crate::scalar::{diff, lit, quot};
use vstd::prelude::*;

verus! {

/// Water whose particles, cells and settings are numbers, in a basin with room in it.
pub open spec fn water_of_numbers<T: Scalar>(r: Reading<T>, water: FlipModel<T>) -> bool {
    &&& water.valid()
    &&& 3 <= water.nx < usize::MAX - 1 && 3 <= water.ny < usize::MAX - 1
    &&& r.is(water.h) && r.at(water.h) > 0real
    &&& r.is_vec(water.cfg.gravity) && r.is(water.cfg.flip_ratio) && r.is(water.cfg.over_relax)
    &&& forall|i: int| 0 <= i < water.pos.len() ==> r.is_vec(#[trigger] water.pos[i])
    &&& forall|i: int| 0 <= i < water.vel.len() ==> r.is_vec(#[trigger] water.vel[i])
}

/// The basin of the water has open cells inside and a solid border.
pub proof fn law_basin_has_a_solid_border<T: Scalar>(r: Reading<T>, water: FlipModel<T>)
    requires
        r.sound(),
        r.never_rounds(),
        water.valid(),
    ensures
        bordered(r, water.basin()),
{
    assert(r.fits(0i32 as real / 1i32 as real));
    assert(r.fits(1i32 as real / 1i32 as real));
    lemma_literal(r, 0, 1);
    lemma_literal(r, 1, 1);
    let (nx, ny) = (water.nx, water.ny);
    assert forall|i: int, j: int| 0 <= i < nx && 0 <= j < ny implies r.means(
        #[trigger] water.s[place(i, j, nx)],
        tally(1 <= i < nx - 1 && 1 <= j < ny - 1),
    ) by {
        lemma_col_row_of_place(i, j, nx);
        lemma_place_in_grid(i, j, nx, ny);
    }
}

/// Where a particle is after its flight.
proof fn lemma_flown(x: real, v: real, n: int, h: real)
    requires
        3 <= n,
        h > 0real,
    ensures
        h <= flown(x, v, h + h / 1000real, (n as real - 1real) * h - h / 1000real).0,
        flown(x, v, h + h / 1000real, (n as real - 1real) * h - h / 1000real).0 <= (n as real
            - 1real) * h,
{
    let m = n as real - 3real;
    assert(m * h >= 0real) by (nonlinear_arith)
        requires
            m >= 0real,
            h > 0real,
    ;
    lemma_spread(h, n as real - 1real, 2real);
    assert((n as real - 1real) - 2real == m);
    assert((n as real - 1real) * h >= 2real * h);
}

/// The particles after their flight are numbers in the basin.
proof fn lemma_flight<T: Scalar>(r: Reading<T>, water: FlipModel<T>, dt: T)
    requires
        r.sound(),
        r.never_rounds(),
        water_of_numbers(r, water),
        r.is(dt),
    ensures
        ({
            let m = water.moved(dt);
            &&& m.valid()
            &&& particles_are_numbers(r, m.pos, m.vel, m.nx, m.ny, m.h)
        }),
{
    let m = water.moved(dt);
    let h = r.at(water.h);
    assert forall|i: int| 0 <= i < m.pos.len() implies in_basin(
        r,
        #[trigger] m.pos[i],
        m.nx,
        m.ny,
        m.h,
    ) && r.is_vec(m.vel[i]) by {
        assert(r.is_vec(water.pos[i]) && r.is_vec(water.vel[i]));
        law_particles_fly_and_stop(r, water, dt, i);
        let (p, v, g, t) = (water.pos[i], water.vel[i], water.cfg.gravity, r.at(dt));
        let (vx, vy) = (r.at(v.x) + r.at(g.x) * t, r.at(v.y) + r.at(g.y) * t);
        lemma_flown(r.at(p.x) + vx * t, vx, water.nx, h);
        lemma_flown(r.at(p.y) + vy * t, vy, water.ny, h);
    }
    assert forall|i: int| 0 <= i < m.vel.len() implies r.is_vec(#[trigger] m.vel[i]) by {
        assert(in_basin(r, m.pos[i], m.nx, m.ny, m.h));
    }
}

/// The flow on the grid before the pressure is solved is one of numbers.
proof fn lemma_flow<T: Scalar>(r: Reading<T>, water: FlipModel<T>)
    requires
        r.sound(),
        r.never_rounds(),
        water.valid(),
        2 <= water.nx < usize::MAX - 1,
        2 <= water.ny < usize::MAX - 1,
        particles_are_numbers(r, water.pos, water.vel, water.nx, water.ny, water.h),
        r.is(water.cfg.over_relax),
    ensures
        ({
            let g = water.gridded();
            ideal_flow(r, g.basin(), (Faces { u: g.u, v: g.v }))
        }),
{
    let g = water.gridded();
    let (nx, ny) = (water.nx, water.ny);
    law_basin_has_a_solid_border(r, water);
    lemma_sums_fill_the_grid(water.pos, water.vel, nx, ny, water.h, water.pos.len());
    assert forall|k: int| 0 <= k < g.u.len() implies r.is(#[trigger] g.u[k]) by {
        lemma_place_of_col_row(k, nx + 1);
        lemma_row_in_grid(k, nx + 1, ny);
        law_faces_hold_the_mean_of_the_particles(r, water, col(k, nx + 1), row(k, nx + 1));
    }
    assert forall|k: int| 0 <= k < g.v.len() implies r.is(#[trigger] g.v[k]) by {
        lemma_place_of_col_row(k, nx);
        lemma_row_in_grid(k, nx, ny + 1);
        law_faces_hold_the_mean_of_the_particles(r, water, col(k, nx), row(k, nx));
    }
    let (old, new) = (water.basin(), g.basin());
    assert forall|i: int, j: int| 0 <= i < new.nx && 0 <= j < new.ny implies r.means(
        #[trigger] new.s[place(i, j, new.nx)],
        tally(1 <= i < new.nx - 1 && 1 <= j < new.ny - 1),
    ) by {
        assert(r.is(old.s[place(i, j, old.nx)]));
    }
}

/// A step of the water: the particles fly, the grid takes the mean of their velocities where
/// they have come to, the cells that they are in then hold fluid, and the pressure makes the
/// flow through those cells incompressible. With `over_relax` one, as much flows into a cell
/// as out of it if none of its faces is changed after the last visit; a flow that is
/// incompressible as it is stays so; without sweeps no pressure acts.
pub proof fn law_step_makes_the_water_flow<T: Scalar>(
    r: Reading<T>,
    water: FlipModel<T>,
    dt: T,
    a: int,
    b: int,
)
    requires
        r.sound(),
        r.never_rounds(),
        water_of_numbers(r, water),
        r.is(dt),
        1 <= a < water.nx - 1,
        1 <= b < water.ny - 1,
    ensures
        ({
            let after = water.stepped(dt);
            let flight = water.moved(dt);
            let basin = after.basin();
            let before = Faces { u: after.u_prev, v: after.v_prev };
            let flow = Faces { u: after.u, v: after.v };
            let n = water.pos.len();
            let half = 1real / 2real;
            &&& after.pos == flight.pos
            &&& is_mean(
                r.at(after.u_prev[place(a, b, water.nx + 1)]),
                total_motion(
                    r,
                    after.pos,
                    sideways(flight.vel),
                    water.h,
                    a as real,
                    b as real + half,
                    n,
                ),
                total_nearness(r, after.pos, water.h, a as real, b as real + half, n),
            )
            &&& is_mean(
                r.at(after.v_prev[place(a, b, water.nx)]),
                total_motion(
                    r,
                    after.pos,
                    upward(flight.vel),
                    water.h,
                    a as real + half,
                    b as real,
                    n,
                ),
                total_nearness(r, after.pos, water.h, a as real + half, b as real, n),
            )
            &&& after.is_fluid[place(a, b, water.nx)] <==> exists|i: int|
                0 <= i < n && lies_in_cell(r, #[trigger] after.pos[i], a, b, water.h)
            &&& water.cfg.iters == 0 ==> flow == before
            &&& incompressible(r, basin, before) ==> same_flow(r, flow, before)
            &&& water.cfg.iters > 0 && r.at(water.cfg.over_relax) == 1real
                && after.is_fluid[place(a, b, water.nx)]
                && !after.is_fluid[place(a + 1, b, water.nx)]
                && !after.is_fluid[place(a, b + 1, water.nx)]
                && Ways::of(water.nx, water.ny, a, b).number() > 0real
                ==> balanced(r, basin, flow, a, b)
        }),
{
    let flight = water.moved(dt);
    lemma_flight(r, water, dt);
    lemma_flow(r, flight);
    law_faces_hold_the_mean_of_the_particles(r, flight, a, b);
    law_cells_with_particles_are_fluid(r, flight, a, b);
    let g = flight.gridded();
    let before = Faces { u: g.u, v: g.v };
    let after = water.stepped(dt);
    assert(after.basin() == g.basin());
    assert(after.u_prev == g.u && after.v_prev == g.v && after.is_fluid == g.is_fluid);
    let flow = g.basin().eased(before, g.cfg.iters);
    assert(after.u == flow.u && after.v == flow.v);
    if incompressible(r, g.basin(), before) {
        law_incompressible_flow_is_kept(r, g.basin(), before, g.cfg.iters);
    }
    if water.cfg.iters > 0 && r.at(water.cfg.over_relax) == 1real && g.is_fluid[place(
        a,
        b,
        water.nx,
    )] && !g.is_fluid[place(a + 1, b, water.nx)] && !g.is_fluid[place(a, b + 1, water.nx)]
        && Ways::of(water.nx, water.ny, a, b).number() > 0real {
        law_sweeps_reach_every_cell(r, g.basin(), before, g.cfg.iters, a, b);
    }
}

/// The grid has a velocity at every particle in the basin.
proof fn lemma_grid_velocity<T: Scalar>(r: Reading<T>, water: FlipModel<T>, i: int)
    requires
        r.sound(),
        r.never_rounds(),
        2 <= water.nx < usize::MAX - 1,
        2 <= water.ny < usize::MAX - 1,
        0 <= i < water.pos.len(),
        in_basin(r, water.pos[i], water.nx, water.ny, water.h),
        water.u.len() == (water.nx + 1) * water.ny,
        water.v.len() == water.nx * (water.ny + 1),
        all_numbers(r, water.u),
        all_numbers(r, water.v),
    ensures
        r.is_vec(grid_velocity(water, i)),
{
    let (p, h) = (water.pos[i], water.h);
    lemma_cells_along(r, p.x, water.nx, h);
    lemma_cells_along(r, p.y, water.ny, h);
    let (gx, gy) = (quot(p.x, h), quot(p.y, h));
    let half = lit::<T>(1, 2);
    law_grid_is_read_between_its_values(r, water.u, water.nx + 1, water.ny, gx, diff(gy, half));
    law_grid_is_read_between_its_values(r, water.v, water.nx, water.ny + 1, diff(gx, half), gy);
}

/// A step gives the particles their velocities: of `flip_ratio` parts, what they had after
/// their flight and the change that the pressure made to the flow where they are, of the
/// rest, that flow.
pub proof fn law_step_gives_the_velocities<T: Scalar>(
    r: Reading<T>,
    water: FlipModel<T>,
    dt: T,
    i: int,
)
    requires
        r.sound(),
        r.never_rounds(),
        water_of_numbers(r, water),
        r.is(dt),
        0 <= i < water.pos.len(),
    ensures
        ({
            let after = water.stepped(dt);
            let (now, was) = (grid_velocity(after, i), grid_velocity_before(after, i));
            let (had, has) = (water.moved(dt).vel[i], after.vel[i]);
            let a = r.at(water.cfg.flip_ratio);
            &&& r.is_vec(has) && r.is_vec(now) && r.is_vec(was)
            &&& r.at(has.x) == a * (r.at(had.x) + (r.at(now.x) - r.at(was.x))) + (1real - a) * r.at(
                now.x,
            )
            &&& r.at(has.y) == a * (r.at(had.y) + (r.at(now.y) - r.at(was.y))) + (1real - a) * r.at(
                now.y,
            )
        }),
{
    let flight = water.moved(dt);
    lemma_flight(r, water, dt);
    lemma_flow(r, flight);
    let g = flight.gridded();
    lemma_sweeps_keep_numbers(r, g.basin(), Faces { u: g.u, v: g.v }, g.cfg.iters);
    let s = g.solved();
    let after = water.stepped(dt);
    assert(in_basin(r, flight.pos[i], flight.nx, flight.ny, flight.h));
    lemma_grid_velocity(r, s, i);
    lemma_grid_velocity(r, FlipModel { u: s.u_prev, v: s.v_prev, ..s }, i);
    assert(grid_velocity(after, i) == grid_velocity(s, i));
    assert(grid_velocity_before(after, i) == grid_velocity_before(s, i));
    assert(r.fits(1i32 as real / 1i32 as real));
    lemma_literal(r, 1, 1);
    law_read_back_blends(r, s, lit(1, 1), s.cfg.flip_ratio, i);
    assert(read_with(s, s.cfg.flip_ratio, i) == after.vel[i]);
}

} // verus!
