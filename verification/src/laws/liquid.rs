//! What the liquid of smoothed particles does.

use crate::scalar::Scalar;
#[allow(unused_imports)]
use crate::reals::{lemma_literal, lemma_spread, lemma_units, smaller, Reading};
#[allow(unused_imports)]
use crate::scalar::{lesser, lit, lt, neg, prod, quot, sum};
#[allow(unused_imports)]
use crate::sim::{girth, rebound, rushed, slowed, Bounds, Shape, SimModel};
#[allow(unused_imports)]
use crate::vec2::Vec2;
use vstd::prelude::*;

verus! {

/// Scalars that hold every number and take square roots.
pub open spec fn ideal<T: Scalar>(r: Reading<T>) -> bool {
    r.sound() && r.never_rounds() && r.takes_roots()
}

/// `x` is at least eight pixels, the radius of a particle, from either end of a side of
/// the given length.
pub open spec fn keeps_off(x: real, side: real) -> bool {
    8real <= x <= side - 8real
}

/// A square is not negative, and goes with the size of what is squared.
proof fn lemma_squares(x: real, y: real, s: real)
    requires
        s >= 0real,
        s * s == x * x + y * y,
    ensures
        x <= s,
        0real - s <= x,
        y <= s,
        0real - s <= y,
{
    assert(x * x >= 0real) by (nonlinear_arith);
    assert(y * y >= 0real) by (nonlinear_arith);
    lemma_side(x, s);
    lemma_side(y, s);
}

/// What has no larger square is no larger.
proof fn lemma_side(x: real, s: real)
    requires
        s >= 0real,
        x * x <= s * s,
    ensures
        0real - s <= x <= s,
{
    if x > s {
        assert(x * x > s * s) by (nonlinear_arith)
            requires
                x > s,
                s >= 0real,
        ;
    }
    if x < 0real - s {
        assert(x * x > s * s) by (nonlinear_arith)
            requires
                x < 0real - s,
                s >= 0real,
        ;
    }
}

/// The length of a vector of numbers.
pub(crate) proof fn lemma_length<T: Scalar>(r: Reading<T>, d: Vec2<T>)
    requires
        ideal(r),
        r.is_vec(d),
    ensures
        r.is(d.norm()),
        r.at(d.norm()) >= 0real,
        r.at(d.norm()) * r.at(d.norm()) == r.at(d.x) * r.at(d.x) + r.at(d.y) * r.at(d.y),
        0real - r.at(d.norm()) <= r.at(d.x) <= r.at(d.norm()),
        0real - r.at(d.norm()) <= r.at(d.y) <= r.at(d.norm()),
{
    let (x, y) = (r.at(d.x), r.at(d.y));
    assert(r.means(prod(d.x, d.x), x * x));
    assert(r.means(prod(d.y, d.y), y * y));
    assert(r.means(d.dot_of(d), x * x + y * y));
    assert(x * x >= 0real) by (nonlinear_arith);
    assert(y * y >= 0real) by (nonlinear_arith);
    lemma_squares(x, y, r.at(d.norm()));
}

/// A number no larger than `s`, as a part of `s`, and that part of `m`.
proof fn lemma_part(x: real, s: real, m: real)
    requires
        s > 0real,
        0real - s <= x <= s,
        m >= 0real,
    ensures
        0real - m <= x / s * m <= m,
{
    let q = x / s;
    assert(q * s == x) by (nonlinear_arith)
        requires
            s > 0real,
            q == x / s,
    ;
    assert(q <= 1real) by (nonlinear_arith)
        requires
            s > 0real,
            q * s <= s,
    ;
    assert(0real - 1real <= q) by (nonlinear_arith)
        requires
            s > 0real,
            0real - s <= q * s,
    ;
    assert(q * m <= m) by (nonlinear_arith)
        requires
            q <= 1real,
            m >= 0real,
    ;
    assert(0real - m <= q * m) by (nonlinear_arith)
        requires
            0real - 1real <= q,
            m >= 0real,
    ;
}

/// The middle and the reach of a round container in numbers.
proof fn lemma_round<T: Scalar>(r: Reading<T>, bounds: Bounds<T>)
    requires
        ideal(r),
        r.is(bounds.w),
        r.is(bounds.h),
    ensures
        r.means(bounds.center().x, r.at(bounds.w) / 2real),
        r.means(bounds.center().y, r.at(bounds.h) / 2real),
        r.means(
            bounds.inner_radius(),
            smaller(r.at(bounds.w), r.at(bounds.h)) / 2real - 8real,
        ),
{
    assert(r.fits(1i32 as real / 2i32 as real));
    assert(r.fits(16i32 as real / 1i32 as real));
    lemma_literal(r, 1, 2);
    lemma_literal(r, 16, 1);
    let half = lit::<T>(1, 2);
    assert(r.means(girth(), 8real));
    let m = lesser(bounds.w, bounds.h);
    assert(r.at(bounds.w) * (1real / 2real) == r.at(bounds.w) / 2real);
    assert(r.at(bounds.h) * (1real / 2real) == r.at(bounds.h) / 2real);
    assert(r.at(m) * (1real / 2real) == r.at(m) / 2real);
    assert(r.is(prod(m, half)));
}

/// A round container holds the particles inside the window: whatever its sides, a
/// particle that it has acted on is at least its radius off all four of them.
pub proof fn law_round_container_fits_the_window<T: Scalar>(
    r: Reading<T>,
    bounds: Bounds<T>,
    p: Vec2<T>,
    v: Vec2<T>,
)
    requires
        ideal(r),
        bounds.shape == Shape::Circle,
        r.is(bounds.w),
        r.is(bounds.h),
        r.at(bounds.w) >= 16real,
        r.at(bounds.h) >= 16real,
        r.is_vec(p),
    ensures
        r.is_vec(bounds.resolved(p, v).0),
        keeps_off(r.at(bounds.resolved(p, v).0.x), r.at(bounds.w)),
        keeps_off(r.at(bounds.resolved(p, v).0.y), r.at(bounds.h)),
{
    lemma_round(r, bounds);
    let d = p.sub_of(bounds.center());
    assert(r.is_vec(d));
    lemma_length(r, d);
    let (s, m) = (r.at(d.norm()), r.at(bounds.inner_radius()));
    assert(r.fits(0i32 as real / 1i32 as real));
    lemma_literal(r, 0, 1);
    if lt(bounds.inner_radius(), d.norm()) && lt(lit(0, 1), d.norm()) {
        let n = d.div_of(d.norm());
        assert(r.means(n.x, r.at(d.x) / s) && r.means(n.y, r.at(d.y) / s));
        let e = n.mul_of(bounds.inner_radius());
        assert(r.means(e.x, r.at(d.x) / s * m) && r.means(e.y, r.at(d.y) / s * m));
        lemma_part(r.at(d.x), s, m);
        lemma_part(r.at(d.y), s, m);
    } else {
        assert(s <= m);
    }
}

/// Where particle `i` would get in a step if there were no container.
pub open spec fn arrival<T: Scalar>(fluid: SimModel<T>, i: int, dt: T, gravity: Vec2<T>, bounds: Bounds<
    T,
>) -> Vec2<T> {
    let f = fluid.arranged(bounds).weighed().forced();
    f.pos[i].add_of(slowed(rushed(f.vel[i], f.force[i], f.rho[i], dt, gravity)).mul_by(dt))
}

/// After a step in a round container every particle is at least its radius off the four
/// sides of the window.
pub proof fn law_step_stays_in_the_window<T: Scalar>(
    r: Reading<T>,
    fluid: SimModel<T>,
    dt: T,
    gravity: Vec2<T>,
    bounds: Bounds<T>,
    i: int,
)
    requires
        ideal(r),
        fluid.valid(),
        0 <= i < fluid.pos.len(),
        bounds.shape == Shape::Circle,
        r.is(bounds.w),
        r.is(bounds.h),
        r.at(bounds.w) >= 16real,
        r.at(bounds.h) >= 16real,
        r.is_vec(arrival(fluid, i, dt, gravity, bounds)),
    ensures
        keeps_off(r.at(fluid.stepped(dt, gravity, bounds).pos[i].x), r.at(bounds.w)),
        keeps_off(r.at(fluid.stepped(dt, gravity, bounds).pos[i].y), r.at(bounds.h)),
{
    let f = fluid.arranged(bounds).weighed().forced();
    let v = slowed(rushed(f.vel[i], f.force[i], f.rho[i], dt, gravity));
    let p = arrival(fluid, i, dt, gravity, bounds);
    assert(fluid.stepped(dt, gravity, bounds).pos[i] == bounds.resolved(p, v).0);
    law_round_container_fits_the_window(r, bounds, p, v);
}

/// Scalar product of vectors of numbers.
pub open spec fn along<T: Scalar>(r: Reading<T>, a: Vec2<T>, b: Vec2<T>) -> real {
    r.at(a.x) * r.at(b.x) + r.at(a.y) * r.at(b.y)
}

/// Vector product of vectors of numbers.
pub open spec fn across<T: Scalar>(r: Reading<T>, a: Vec2<T>, b: Vec2<T>) -> real {
    r.at(a.x) * r.at(b.y) - r.at(a.y) * r.at(b.x)
}

/// A direction and what lies along it.
proof fn lemma_direction(vx: real, vy: real, dx: real, dy: real, s: real)
    requires
        s > 0real,
        s * s == dx * dx + dy * dy,
    ensures
        dx / s * s == dx,
        dy / s * s == dy,
        dx / s * dx + dy / s * dy == s,
        dx / s * dy == dy / s * dx,
        (vx * (dx / s) + vy * (dy / s)) * s == vx * dx + vy * dy,
{
    let (nx, ny) = (dx / s, dy / s);
    assert(nx * s == dx) by (nonlinear_arith)
        requires
            s > 0real,
            nx == dx / s,
    ;
    assert(ny * s == dy) by (nonlinear_arith)
        requires
            s > 0real,
            ny == dy / s,
    ;
    let z = nx * dx + ny * dy;
    assert((nx * dx) * s == dx * dx) by (nonlinear_arith)
        requires
            nx * s == dx,
    ;
    assert((ny * dy) * s == dy * dy) by (nonlinear_arith)
        requires
            ny * s == dy,
    ;
    lemma_spread(s, nx * dx, ny * dy);
    assert(z * s == s * s);
    assert(z == s) by (nonlinear_arith)
        requires
            z * s == s * s,
            s > 0real,
    ;
    let (a, b) = (nx * dy, ny * dx);
    assert(a * s == dx * dy) by (nonlinear_arith)
        requires
            a == nx * dy,
            nx * s == dx,
    ;
    assert(b * s == dx * dy) by (nonlinear_arith)
        requires
            b == ny * dx,
            ny * s == dy,
    ;
    assert(a == b) by (nonlinear_arith)
        requires
            a * s == b * s,
            s > 0real,
    ;
    assert((vx * nx) * s == vx * dx) by (nonlinear_arith)
        requires
            nx * s == dx,
    ;
    assert((vy * ny) * s == vy * dy) by (nonlinear_arith)
        requires
            ny * s == dy,
    ;
    lemma_spread(s, vx * nx, vy * ny);
}

/// A velocity that loses `k` along the direction `(nx, ny)`.
proof fn lemma_kicked(vx: real, vy: real, nx: real, ny: real, dx: real, dy: real, k: real)
    ensures
        (vx - k * nx) * dx + (vy - k * ny) * dy == vx * dx + vy * dy - k * (nx * dx + ny * dy),
        (vx - k * nx) * dy - (vy - k * ny) * dx == vx * dy - vy * dx - k * (nx * dy - ny * dx),
{
    lemma_spread(dx, vx, k * nx);
    lemma_spread(dy, vy, k * ny);
    lemma_spread(dy, vx, k * nx);
    lemma_spread(dx, vy, k * ny);
    assert((k * nx) * dx == k * (nx * dx)) by (nonlinear_arith);
    assert((k * ny) * dy == k * (ny * dy)) by (nonlinear_arith);
    assert((k * nx) * dy == k * (nx * dy)) by (nonlinear_arith);
    assert((k * ny) * dx == k * (ny * dx)) by (nonlinear_arith);
    lemma_spread(k, nx * dx, ny * dy);
    lemma_spread(k, nx * dy, ny * dx);
}

/// A round wall turns back what runs into it: a particle further from the middle than
/// the container reaches is put back on the wall, in the direction that it went out; the
/// outward part of its velocity is turned round and keeps four tenths, and the part
/// along the wall is kept. A particle that the container reaches is left alone.
pub proof fn law_round_wall_turns_back<T: Scalar>(
    r: Reading<T>,
    bounds: Bounds<T>,
    p: Vec2<T>,
    v: Vec2<T>,
)
    requires
        ideal(r),
        bounds.shape == Shape::Circle,
        r.is(bounds.w),
        r.is(bounds.h),
        r.at(bounds.w) >= 16real,
        r.at(bounds.h) >= 16real,
        r.is_vec(p),
        r.is_vec(v),
    ensures
        ({
            let (q, u) = bounds.resolved(p, v);
            let (cx, cy) = (r.at(bounds.w) / 2real, r.at(bounds.h) / 2real);
            let m = smaller(r.at(bounds.w), r.at(bounds.h)) / 2real - 8real;
            let (dx, dy) = (r.at(p.x) - cx, r.at(p.y) - cy);
            let out = r.at(v.x) * dx + r.at(v.y) * dy;
            if dx * dx + dy * dy <= m * m {
                q == p && u == v
            } else {
                &&& (r.at(q.x) - cx) * (r.at(q.x) - cx) + (r.at(q.y) - cy) * (r.at(q.y) - cy) == m
                    * m
                &&& (r.at(q.x) - cx) * dy == (r.at(q.y) - cy) * dx
                &&& (r.at(q.x) - cx) * dx + (r.at(q.y) - cy) * dy >= 0real
                &&& r.at(u.x) * dx + r.at(u.y) * dy == if out > 0real {
                    0real - out * 4real / 10real
                } else {
                    out
                }
                &&& r.at(u.x) * dy - r.at(u.y) * dx == r.at(v.x) * dy - r.at(v.y) * dx
            }
        }),
{
    lemma_round(r, bounds);
    let d = p.sub_of(bounds.center());
    assert(r.is_vec(d));
    lemma_length(r, d);
    let (s, m) = (r.at(d.norm()), r.at(bounds.inner_radius()));
    let (dx, dy) = (r.at(d.x), r.at(d.y));
    assert(r.fits(0i32 as real / 1i32 as real));
    assert(r.fits(1i32 as real / 1i32 as real));
    assert(r.fits(4i32 as real / 10i32 as real));
    lemma_literal(r, 0, 1);
    lemma_literal(r, 1, 1);
    lemma_literal(r, 4, 10);
    let (q, u) = bounds.resolved(p, v);
    if s <= m {
        assert(s * s <= m * m) by (nonlinear_arith)
            requires
                0real <= s <= m,
        ;
    } else {
        assert(s * s > m * m) by (nonlinear_arith)
            requires
                0real <= m < s,
        ;
        let n = d.div_of(d.norm());
        let (nx, ny) = (dx / s, dy / s);
        assert(r.means(n.x, nx) && r.means(n.y, ny));
        let e = n.mul_of(bounds.inner_radius());
        assert(r.means(e.x, nx * m) && r.means(e.y, ny * m));
        let (vx, vy) = (r.at(v.x), r.at(v.y));
        lemma_direction(vx, vy, dx, dy, s);
        assert(r.at(q.x) - r.at(bounds.w) / 2real == nx * m);
        assert(r.at(q.y) - r.at(bounds.h) / 2real == ny * m);
        lemma_direction(nx, ny, dx, dy, s);
        let z = nx * nx + ny * ny;
        assert(z * s == s);
        assert(z == 1real) by (nonlinear_arith)
            requires
                z * s == s,
                s > 0real,
        ;
        assert((nx * m) * (nx * m) == (nx * nx) * (m * m)) by (nonlinear_arith);
        assert((ny * m) * (ny * m) == (ny * ny) * (m * m)) by (nonlinear_arith);
        lemma_spread(m * m, nx * nx, ny * ny);
        lemma_units(m * m);
        assert((nx * m) * dy == m * (nx * dy)) by (nonlinear_arith);
        assert((ny * m) * dx == m * (ny * dx)) by (nonlinear_arith);
        assert((nx * m) * dx == m * (nx * dx)) by (nonlinear_arith);
        assert((ny * m) * dy == m * (ny * dy)) by (nonlinear_arith);
        lemma_spread(m, nx * dx, ny * dy);
        assert(m * s >= 0real) by (nonlinear_arith)
            requires
                0real <= m < s,
        ;
        assert(r.is(prod(v.x, n.x)) && r.is(prod(v.y, n.y)));
        let vn = vx * nx + vy * ny;
        assert(r.means(v.dot_of(n), vn));
        let out = vx * dx + vy * dy;
        assert(vn * s == out);
        if vn > 0real {
            assert(vn * s > 0real) by (nonlinear_arith)
                requires
                    vn > 0real,
                    s > 0real,
            ;
            let f = sum(lit::<T>(1, 1), rebound());
            assert(r.means(f, 14real / 10real));
            let kick = prod(f, v.dot_of(n));
            let k = 14real / 10real * vn;
            assert(r.means(kick, k));
            assert(r.is(prod(kick, n.x)) && r.is(prod(kick, n.y)));
            assert(r.means(u.x, vx - k * nx) && r.means(u.y, vy - k * ny));
            lemma_kicked(vx, vy, nx, ny, dx, dy, k);
            assert(k * s == 14real / 10real * out) by (nonlinear_arith)
                requires
                    k == 14real / 10real * vn,
                    vn * s == out,
            ;
            assert(nx * dy - ny * dx == 0real);
            lemma_units(k);
        } else {
            assert(vn * s <= 0real) by (nonlinear_arith)
                requires
                    vn <= 0real,
                    s > 0real,
            ;
        }
    }
}

/// A coordinate and a speed along one axis, after the walls of a box with a side of the
/// given length: at the wall, turned round with four tenths of the speed, or as they are
/// in between.
pub open spec fn turned_back(x: real, v: real, side: real) -> (real, real) {
    if x < 8real {
        (8real, 0real - v * 4real / 10real)
    } else if x > side - 8real {
        (side - 8real, 0real - v * 4real / 10real)
    } else {
        (x, v)
    }
}

/// The walls of a box turn back what runs into them.
pub proof fn law_box_walls_turn_back<T: Scalar>(
    r: Reading<T>,
    bounds: Bounds<T>,
    p: Vec2<T>,
    v: Vec2<T>,
)
    requires
        ideal(r),
        bounds.shape == Shape::Rect,
        r.is(bounds.w),
        r.is(bounds.h),
        r.is_vec(p),
        r.is_vec(v),
    ensures
        ({
            let (q, u) = bounds.resolved(p, v);
            &&& (r.at(q.x), r.at(u.x)) == turned_back(r.at(p.x), r.at(v.x), r.at(bounds.w))
            &&& (r.at(q.y), r.at(u.y)) == turned_back(r.at(p.y), r.at(v.y), r.at(bounds.h))
        }),
{
    lemma_round(r, bounds);
    assert(r.fits(16i32 as real / 1i32 as real));
    assert(r.fits(1i32 as real / 2i32 as real));
    assert(r.fits(4i32 as real / 10i32 as real));
    lemma_literal(r, 16, 1);
    lemma_literal(r, 1, 2);
    lemma_literal(r, 4, 10);
    assert(r.means(girth(), 8real));
    let b = neg(rebound::<T>());
    assert(r.means(b, 0real - 4real / 10real));
    let (vx, vy) = (r.at(v.x), r.at(v.y));
    assert(vx * (0real - 4real / 10real) == 0real - vx * 4real / 10real);
    assert(vy * (0real - 4real / 10real) == 0real - vy * 4real / 10real);
    assert(r.means(prod(v.x, b), 0real - vx * 4real / 10real));
    assert(r.means(prod(v.y, b), 0real - vy * 4real / 10real));
}

/// A velocity over the speed limit is brought down to it and keeps its direction; any
/// other is kept.
pub proof fn law_speed_limit_keeps_the_direction<T: Scalar>(r: Reading<T>, v: Vec2<T>)
    requires
        ideal(r),
        r.is_vec(v),
    ensures
        ({
            let u = slowed(v);
            let fast = along(r, v, v);
            if fast > 1500real * 1500real {
                &&& along(r, u, u) == 1500real * 1500real
                &&& across(r, u, v) == 0real
                &&& along(r, u, v) > 0real
            } else {
                u == v
            }
        }),
{
    lemma_length(r, v);
    assert(r.fits(1500i32 as real / 1i32 as real));
    lemma_literal(r, 1500, 1);
    let (x, y, s) = (r.at(v.x), r.at(v.y), r.at(v.norm()));
    let u = slowed(v);
    if s > 1500real {
        assert(s * s > 1500real * 1500real) by (nonlinear_arith)
            requires
                s > 1500real,
        ;
        let k = 1500real / s;
        assert(r.means(quot(crate::sim::speed_limit(), v.norm()), k));
        assert(k * s == 1500real) by (nonlinear_arith)
            requires
                s > 1500real,
                k == 1500real / s,
        ;
        assert(k > 0real) by (nonlinear_arith)
            requires
                k * s == 1500real,
                s > 1500real,
        ;
        assert(r.means(u.x, x * k) && r.means(u.y, y * k));
        assert((x * k) * (x * k) == (x * x) * (k * k)) by (nonlinear_arith);
        assert((y * k) * (y * k) == (y * y) * (k * k)) by (nonlinear_arith);
        lemma_spread(k * k, x * x, y * y);
        assert((s * s) * (k * k) == (k * s) * (k * s)) by (nonlinear_arith);
        assert((x * k) * y == (y * k) * x) by (nonlinear_arith);
        assert((x * k) * x == (x * x) * k) by (nonlinear_arith);
        assert((y * k) * y == (y * y) * k) by (nonlinear_arith);
        lemma_spread(k, x * x, y * y);
        let z = s * s;
        assert(z * k > 0real) by (nonlinear_arith)
            requires
                z > 0real,
                k > 0real,
        ;
    } else {
        assert(s * s <= 1500real * 1500real) by (nonlinear_arith)
            requires
                0real <= s <= 1500real,
        ;
    }
}

} // verus!
