//! What the user's hands do to the fluids.

use crate::gpu::context::SurfaceSize;
use crate::scalar::Scalar;
#[allow(unused_imports)]
use crate::gpu::backend::InputModel;
#[allow(unused_imports)]
use crate::flip::stretch;
#[allow(unused_imports)]
use crate::gpu::cpu_backends::{
    cell_at, in_cells, turned, FlipBackendModel, SmokeBackendModel, SMOKE_N,
};
#[allow(unused_imports)]
use crate::reals::{lemma_literal, lemma_over, lemma_regroup, lemma_spread, lemma_units, Reading};
#[allow(unused_imports)]
use crate::scalar::{count, diff, lit, neg, prod, quot, whole};
#[allow(unused_imports)]
use crate::vec2::Vec2;
use vstd::prelude::*;

verus! {

/// A point of the surface, in pixels.
pub open spec fn on_surface<T: Scalar>(r: Reading<T>, at: (T, T), size: SurfaceSize) -> bool {
    &&& r.is(at.0) && 0real <= r.at(at.0) < size.width as real
    &&& r.is(at.1) && 0real <= r.at(at.1) < size.height as real
}

/// `x` and `y` are less than `d` apart.
pub open spec fn closer(x: real, y: real, d: real) -> bool {
    0real - d < x - y && x - y < d
}

/// A part of a side, in cells.
proof fn lemma_in_cells<T: Scalar>(r: Reading<T>, x: T, side: u32)
    requires
        r.sound(),
        r.never_rounds(),
        r.is(x),
        side > 0,
    ensures
        r.means(in_cells(x, side), r.at(x) / side as real * 128real),
{
    assert(r.fits((side as usize) as real));
    assert(r.means(count::<T>(side as usize), side as real));
    assert(r.fits(SMOKE_N as real));
    assert(r.means(count::<T>(SMOKE_N), 128real));
    assert(r.is(quot(x, count(side as usize))));
}

/// A pixel of a side lies in one of its cells.
proof fn lemma_share(x: real, s: real)
    requires
        s > 0real,
        0real <= x < s,
    ensures
        0real <= x / s * 128real < 128real,
{
    let q = x / s;
    assert(q * s == x) by (nonlinear_arith)
        requires
            s > 0real,
            q == x / s,
    ;
    assert(q < 1real) by (nonlinear_arith)
        requires
            s > 0real,
            q * s < s,
    ;
    assert(0real <= q) by (nonlinear_arith)
        requires
            s > 0real,
            0real <= q * s,
    ;
}

/// A pixel of the surface is in the cell that its share of the sides says.
proof fn lemma_cell<T: Scalar>(r: Reading<T>, at: (T, T), size: SurfaceSize)
    requires
        r.sound(),
        r.never_rounds(),
        on_surface(r, at, size),
    ensures
        ({
            let c = cell_at(at.0, at.1, size);
            let x = r.at(at.0) / size.width as real * 128real;
            let y = r.at(at.1) / size.height as real * 128real;
            &&& c.0 as real <= x + 1real < c.0 as real + 1real
            &&& 128real - y <= c.1 as real
            &&& (c.1 as real) < 128real - y + 1real
        }),
{
    lemma_in_cells(r, at.0, size.width);
    lemma_in_cells(r, at.1, size.height);
    lemma_share(r.at(at.0), size.width as real);
    lemma_share(r.at(at.1), size.height as real);
    let (a, b) = (whole(in_cells(at.0, size.width)), whole(in_cells(at.1, size.height)));
    let x = r.at(at.0) / size.width as real * 128real;
    let y = r.at(at.1) / size.height as real * 128real;
    assert(a as real <= x);
    assert(x < a as real + 1real);
    assert(b as real <= y);
    assert(y < b as real + 1real);
    assert(0 <= a < 128);
    assert(0 <= b < 128);
    assert((a + 1) as real == a as real + 1real);
    assert((128 - b) as real == 128real - b as real);
    let c = cell_at(at.0, at.1, size);
    assert(c.0 == a + 1 && c.1 == 128 - b);
}

/// The air goes with the mouse: dragged to a cell to the right it is pushed to the
/// right, to a cell in a higher row upward, and so for the left and downward; and the
/// push is three times as many cells as the mouse went, up to a cell's width. A mouse
/// that rests does not push.
pub proof fn law_air_goes_with_the_mouse<T: Scalar>(
    r: Reading<T>,
    input: InputModel<T>,
    size: SurfaceSize,
)
    requires
        r.sound(),
        r.never_rounds(),
        on_surface(r, input.mouse, size),
        on_surface(r, input.prev_mouse, size),
    ensures
        ({
            let from = cell_at(input.prev_mouse.0, input.prev_mouse.1, size);
            let to = cell_at(input.mouse.0, input.mouse.1, size);
            let wind = SmokeBackendModel::wind(input, size);
            let (x, y) = (r.at(wind.x), r.at(wind.y));
            &&& r.is_vec(wind)
            &&& to.0 > from.0 ==> x > 0real
            &&& to.0 < from.0 ==> x < 0real
            &&& to.1 > from.1 ==> y > 0real
            &&& to.1 < from.1 ==> y < 0real
            &&& closer(x, 3real * (to.0 - from.0) as real, 3real)
            &&& closer(y, 3real * (to.1 - from.1) as real, 3real)
            &&& input.mouse == input.prev_mouse ==> x == 0real && y == 0real
        }),
{
    let (w, h) = (size.width as real, size.height as real);
    lemma_cell(r, input.mouse, size);
    lemma_cell(r, input.prev_mouse, size);
    let (mx, my) = (r.at(input.mouse.0), r.at(input.mouse.1));
    let (px, py) = (r.at(input.prev_mouse.0), r.at(input.prev_mouse.1));
    let d = input.drag();
    assert(r.means(d.0, mx - px) && r.means(d.1, my - py));
    assert(r.means(neg(d.1), py - my));
    lemma_in_cells(r, d.0, size.width);
    lemma_in_cells(r, neg(d.1), size.height);
    assert(r.fits(3i32 as real / 1i32 as real));
    lemma_literal(r, 3, 1);
    let wind = SmokeBackendModel::wind(input, size);
    assert((mx - px) / w == mx / w - px / w) by (nonlinear_arith)
        requires
            w > 0real,
    ;
    assert((py - my) / h == py / h - my / h) by (nonlinear_arith)
        requires
            h > 0real,
    ;
    assert(r.at(wind.x) == 3real * (mx / w * 128real - px / w * 128real));
    assert(r.at(wind.y) == 3real * (py / h * 128real - my / h * 128real));
    let from = cell_at(input.prev_mouse.0, input.prev_mouse.1, size);
    let to = cell_at(input.mouse.0, input.mouse.1, size);
    assert((to.0 - from.0) as real == to.0 as real - from.0 as real);
    assert((to.1 - from.1) as real == to.1 as real - from.1 as real);
}

/// A share of a side, in lengths of the basin.
proof fn lemma_in_lengths<T: Scalar>(r: Reading<T>, x: T, side: u32, n: int, h: T)
    requires
        r.sound(),
        r.never_rounds(),
        r.is(x),
        r.is(h),
        side > 0,
        0 <= n < usize::MAX,
    ensures
        r.means(stretch(n, h), n as real * r.at(h)),
        r.means(
            prod(quot(x, count(side as usize)), stretch(n, h)),
            r.at(x) / side as real * (n as real * r.at(h)),
        ),
{
    assert(r.fits((side as usize) as real));
    assert(r.means(count::<T>(side as usize), side as real));
    assert(r.fits((n as usize) as real));
    assert(r.means(count::<T>(n as usize), n as real));
    assert(r.is(stretch(n, h)));
    assert(r.is(quot(x, count(side as usize))));
}

/// A share of a side, times the side.
proof fn lemma_share_of(x: real, s: real, l: real)
    requires
        s > 0real,
    ensures
        x / s * l * s == x * l,
{
    lemma_regroup(x / s, l, s);
    lemma_over(x, s);
}

/// The mouse points at what is drawn under it: the point of the basin that a pixel shows
/// is drawn as far across the picture, and as far down, as the pixel is across and down
/// the surface.
pub proof fn law_mouse_points_at_what_is_drawn<T: Scalar>(
    r: Reading<T>,
    water: FlipBackendModel<T>,
    at: (T, T),
    size: SurfaceSize,
)
    requires
        r.sound(),
        r.never_rounds(),
        water.valid(),
        r.is(water.sim.h),
        r.is(at.0),
        r.is(at.1),
        size.width > 0,
        size.height > 0,
    ensures
        ({
            let p = water.point_at(at.0, at.1, size);
            let d = turned(seq![p], stretch(water.sim.ny, water.sim.h))[0];
            let h = r.at(water.sim.h);
            &&& r.is_vec(p) && r.is_vec(d)
            &&& r.at(d.x) * size.width as real == r.at(at.0) * (water.sim.nx as real * h)
            &&& r.at(d.y) * size.height as real == r.at(at.1) * (water.sim.ny as real * h)
        }),
{
    let (nx, ny, h) = (water.sim.nx, water.sim.ny, water.sim.h);
    let (w, s) = (size.width as real, size.height as real);
    lemma_in_lengths(r, at.0, size.width, nx, h);
    lemma_in_lengths(r, at.1, size.height, ny, h);
    lemma_share_of(r.at(at.0), w, nx as real * r.at(h));
    lemma_share_of(r.at(at.1), s, ny as real * r.at(h));
    assert(r.fits(1i32 as real / 1i32 as real));
    lemma_literal(r, 1, 1);
    assert(r.fits((size.height as usize) as real));
    assert(r.means(count::<T>(size.height as usize), s));
    let q = quot(at.1, count::<T>(size.height as usize));
    assert(r.means(q, r.at(at.1) / s));
    let rest = diff(lit(1, 1), q);
    assert(r.is(rest));
    let top = ny as real * r.at(h);
    lemma_spread(top, 1real, r.at(at.1) / s);
    lemma_units(top);
    let p = water.point_at(at.0, at.1, size);
    assert(r.means(p.y, top - r.at(at.1) / s * top));
    assert(turned(seq![p], stretch(ny, h))[0] == Vec2 { x: p.x, y: diff(stretch(ny, h), p.y) });
}

/// The water goes with the mouse: in a step of a hundred and twentieth of a second, the
/// velocity that a drag adds carries a particle two hundredths of the way that the point
/// under the mouse went.
pub proof fn law_water_goes_with_the_mouse<T: Scalar>(
    r: Reading<T>,
    water: FlipBackendModel<T>,
    input: InputModel<T>,
    size: SurfaceSize,
)
    requires
        r.sound(),
        r.never_rounds(),
        water.valid(),
        r.is(water.sim.h),
        r.is(input.mouse.0) && r.is(input.mouse.1),
        r.is(input.prev_mouse.0) && r.is(input.prev_mouse.1),
        size.width > 0,
        size.height > 0,
    ensures
        ({
            let from = water.point_at(input.prev_mouse.0, input.prev_mouse.1, size);
            let to = water.point_at(input.mouse.0, input.mouse.1, size);
            let v = water.current(input, size);
            &&& r.is_vec(v)
            &&& r.at(v.x) / 120real == (r.at(to.x) - r.at(from.x)) * 2real / 100real
            &&& r.at(v.y) / 120real == (r.at(to.y) - r.at(from.y)) * 2real / 100real
        }),
{
    let (nx, ny, h) = (water.sim.nx, water.sim.ny, water.sim.h);
    let (w, s) = (size.width as real, size.height as real);
    law_mouse_points_at_what_is_drawn(r, water, input.mouse, size);
    law_mouse_points_at_what_is_drawn(r, water, input.prev_mouse, size);
    let d = input.drag();
    assert(r.is(d.0) && r.is(d.1) && r.is(neg(d.1)));
    lemma_in_lengths(r, d.0, size.width, nx, h);
    lemma_in_lengths(r, neg(d.1), size.height, ny, h);
    assert(r.fits(1i32 as real / 120i32 as real));
    assert(r.fits(2i32 as real / 100i32 as real));
    lemma_literal(r, 1, 120);
    lemma_literal(r, 2, 100);
    let gx = prod(quot(d.0, count::<T>(size.width as usize)), stretch(nx, h));
    let gy = prod(quot(neg(d.1), count::<T>(size.height as usize)), stretch(ny, h));
    let step = lit::<T>(1, 120);
    lemma_per_step(r.at(gx));
    lemma_per_step(r.at(gy));
    assert(r.is(quot(gx, step)) && r.is(quot(gy, step)));
    let v = water.current(input, size);
    assert(r.at(v.x) == r.at(gx) / (1real / 120real) * (2real / 100real));
    assert(r.at(v.y) == r.at(gy) / (1real / 120real) * (2real / 100real));
    let from = water.point_at(input.prev_mouse.0, input.prev_mouse.1, size);
    let to = water.point_at(input.mouse.0, input.mouse.1, size);
    let (lx, ly) = (nx as real * r.at(h), ny as real * r.at(h));
    let (mx, px) = (r.at(input.mouse.0), r.at(input.prev_mouse.0));
    let (my, py) = (r.at(input.mouse.1), r.at(input.prev_mouse.1));
    lemma_share_of(mx - px, w, lx);
    lemma_share_of(py - my, s, ly);
    lemma_spread(lx, mx, px);
    lemma_spread(ly, py, my);
    lemma_spread(w, r.at(to.x), r.at(from.x));
    lemma_same(r.at(gx), r.at(to.x) - r.at(from.x), w);
    let top = stretch::<T>(ny, h);
    lemma_in_lengths(r, d.0, size.width, ny, h);
    let tv = r.at(top);
    lemma_spread(s, tv, r.at(to.y));
    lemma_spread(s, tv, r.at(from.y));
    lemma_spread(s, r.at(to.y), r.at(from.y));
    lemma_same(r.at(gy), r.at(to.y) - r.at(from.y), s);
}

/// What is the same times `s` is the same.
proof fn lemma_same(x: real, y: real, s: real)
    requires
        s > 0real,
    ensures
        x * s == y * s ==> x == y,
{
    if x * s == y * s {
        assert(x == y) by (nonlinear_arith)
            requires
                x * s == y * s,
                s > 0real,
        ;
    }
}

/// Divided by a hundred and twentieth, and the hundred and twentieth part of that.
proof fn lemma_per_step(x: real)
    ensures
        x / (1real / 120real) == 120real * x,
{
}

/// The mouse pushes the water around it: a drag adds its velocity to the particles less than
/// twelve hundredths of the basin's height from the point under the mouse, and to no others.
/// While the button is up it does nothing.
pub proof fn law_drag_reaches_what_is_near<T: Scalar>(
    r: Reading<T>,
    water: FlipBackendModel<T>,
    input: InputModel<T>,
    size: SurfaceSize,
    i: int,
)
    requires
        r.sound(),
        r.never_rounds(),
        water.valid(),
        r.is(water.sim.h),
        r.is(input.mouse.0) && r.is(input.mouse.1),
        r.is(input.prev_mouse.0) && r.is(input.prev_mouse.1),
        size.width > 0,
        size.height > 0,
        0 <= i < water.sim.pos.len(),
        r.is_vec(water.sim.pos[i]),
        r.is_vec(water.sim.vel[i]),
    ensures
        ({
            let after = water.dragged(input, size).sim;
            let c = water.point_at(input.mouse.0, input.mouse.1, size);
            let (p, v, u) = (water.sim.pos[i], water.sim.vel[i], after.vel[i]);
            let (x, y) = (r.at(p.x) - r.at(c.x), r.at(p.y) - r.at(c.y));
            let near = water.sim.ny as real * r.at(water.sim.h) * (12real / 100real);
            let dv = water.current(input, size);
            &&& after.pos == water.sim.pos
            &&& input.mouse_down && x * x + y * y < near * near ==> r.means(
                u.x,
                r.at(v.x) + r.at(dv.x),
            ) && r.means(u.y, r.at(v.y) + r.at(dv.y))
            &&& !(input.mouse_down && x * x + y * y < near * near) ==> u == v
        }),
{
    law_water_goes_with_the_mouse(r, water, input, size);
    law_mouse_points_at_what_is_drawn(r, water, input.mouse, size);
    lemma_in_lengths(r, input.mouse.0, size.width, water.sim.ny, water.sim.h);
    assert(r.fits(12i32 as real / 100i32 as real));
    lemma_literal(r, 12, 100);
    let c = water.point_at(input.mouse.0, input.mouse.1, size);
    let reach = prod(stretch(water.sim.ny, water.sim.h), lit(12, 100));
    assert(r.is(reach));
    let d = water.sim.pos[i].sub_of(c);
    assert(r.is_vec(d));
    assert(r.is(prod(d.x, d.x)) && r.is(prod(d.y, d.y)));
    assert(r.is(d.dot_of(d)) && r.is(prod(reach, reach)));
}

} // verus!
