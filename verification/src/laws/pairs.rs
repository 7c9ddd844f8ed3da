//! How the particles of the liquid act on one another.

use crate::scalar::Scalar;
#[allow(unused_imports)]
use crate::laws::liquid::{ideal, lemma_length};
#[allow(unused_imports)]
use crate::neighbors::all_below;
#[allow(unused_imports)]
use crate::reals::{
    larger, lemma_literal, lemma_over, lemma_regroup, lemma_repair, lemma_spread, lemma_swap,
    lemma_units, Reading,
};
#[allow(unused_imports)]
use crate::scalar::{diff, greater, lit, power, prod, sum};
#[allow(unused_imports)]
use crate::sim::{
    density_at, density_floor, mass, pressure_at, reach, rushed, thickness, Cloud,
};
#[allow(unused_imports)]
use crate::vec2::Vec2;
use vstd::prelude::*;

verus! {

/// Scalars that hold every number, and take square roots and powers.
pub open spec fn ideal_powers<T: Scalar>(r: Reading<T>) -> bool {
    ideal(r) && r.takes_powers()
}

/// What the particles of a cloud are and have are numbers.
pub open spec fn cloud_of_numbers<T: Scalar>(r: Reading<T>, cloud: Cloud<T>) -> bool {
    &&& cloud.vel.len() == cloud.pos.len()
    &&& cloud.rho.len() == cloud.pos.len()
    &&& cloud.pressure.len() == cloud.pos.len()
    &&& r.is(cloud.spiky_grad) && r.is(cloud.visc_lap)
    &&& forall|i: int| 0 <= i < cloud.pos.len() ==> r.is_vec(#[trigger] cloud.pos[i])
    &&& forall|i: int| 0 <= i < cloud.pos.len() ==> r.is_vec(#[trigger] cloud.vel[i])
    &&& forall|i: int| 0 <= i < cloud.pos.len() ==> r.is(#[trigger] cloud.rho[i])
    &&& forall|i: int| 0 <= i < cloud.pos.len() ==> r.is(#[trigger] cloud.pressure[i])
}

/// The density at particle `j` that forces go by.
pub open spec fn weight<T: Scalar>(r: Reading<T>, cloud: Cloud<T>, j: int) -> real {
    larger(r.at(cloud.rho[j]), 1real / 1000000real)
}

/// A coordinate of particle `j` as seen from particle `i`.
pub open spec fn offset_x<T: Scalar>(r: Reading<T>, cloud: Cloud<T>, i: int, j: int) -> real {
    r.at(cloud.pos[j].x) - r.at(cloud.pos[i].x)
}

/// A coordinate of particle `j` as seen from particle `i`.
pub open spec fn offset_y<T: Scalar>(r: Reading<T>, cloud: Cloud<T>, i: int, j: int) -> real {
    r.at(cloud.pos[j].y) - r.at(cloud.pos[i].y)
}

/// How far particle `j` is from particle `i`.
pub open spec fn distance<T: Scalar>(r: Reading<T>, cloud: Cloud<T>, i: int, j: int) -> real {
    r.at(cloud.pos[j].sub_of(cloud.pos[i]).norm())
}

/// One component of the pressure force, step by step.
proof fn lemma_push(d: real, s: real, m: real, p: real, w: real, g: real, e: real)
    requires
        s > 0real,
        w > 0real,
    ensures
        (0real - d / s) * m * p / w * g * e * (w * s) == 0real - d * (m * p * g * e),
{
    let c = 0real - d / s;
    lemma_over(d, s);
    lemma_spread(s, 0real, d / s);
    lemma_units(s);
    assert(c * s == 0real - d);
    let t = (c * m) * p;
    let z = t / w;
    lemma_over(t, w);
    let (q, u) = (g * e, m * p);
    lemma_regroup(z, g, e);
    lemma_repair(z, q, w, s);
    assert(((z * g) * e) * (w * s) == t * (q * s));
    lemma_regroup(c, m, p);
    assert(t == c * u);
    lemma_repair(c, u, s, q);
    lemma_swap(q, s);
    assert(t * (q * s) == (0real - d) * (u * q));
    lemma_spread(u * q, 0real, d);
    lemma_units(u * q);
    lemma_regroup(u, g, e);
}

/// One component of the viscosity force, step by step.
proof fn lemma_drag(k: real, v: real, w: real, g: real, e: real)
    requires
        w > 0real,
    ensures
        (k * v) / w * g * e * w == v * (k * g * e),
{
    let z = (k * v) / w;
    let q = g * e;
    lemma_over(k * v, w);
    lemma_regroup(z, g, e);
    lemma_regroup(z, q, w);
    assert(((z * g) * e) * w == (k * v) * q);
    lemma_swap(k, v);
    lemma_regroup(v, k, q);
    lemma_regroup(k, g, e);
}

/// Particles push one another apart: a particle that acts on another at distance `s`
/// pushes it straight away from itself. Times twice the density and the distance, the
/// push is the distance in each direction, times the mass and the two pressures together,
/// times the slope of the kernel, which fades with the square of what is left of the
/// reach.
pub proof fn law_pressure_pushes_apart<T: Scalar>(r: Reading<T>, cloud: Cloud<T>, i: int, j: int)
    requires
        ideal_powers(r),
        cloud_of_numbers(r, cloud),
        0 <= i < cloud.pos.len(),
        0 <= j < cloud.pos.len(),
        cloud.acts(i, j),
    ensures
        ({
            let f = cloud.push_of(i, j);
            let (x, y) = (offset_x(r, cloud, i, j), offset_y(r, cloud, i, j));
            let p = r.at(cloud.pressure[i]) + r.at(cloud.pressure[j]);
            let s = distance(r, cloud, i, j);
            &&& 0real < s && s < 16real && s * s == x * x + y * y
            &&& r.is_vec(f)
            &&& pushed(r.at(f.x), x, s, p, weight(r, cloud, j), r.at(cloud.spiky_grad))
            &&& pushed(r.at(f.y), y, s, p, weight(r, cloud, j), r.at(cloud.spiky_grad))
        }),
{
    let d = cloud.pos[j].sub_of(cloud.pos[i]);
    assert(r.is_vec(cloud.pos[i]) && r.is_vec(cloud.pos[j]));
    assert(r.is(cloud.pressure[i]) && r.is(cloud.pressure[j]) && r.is(cloud.rho[j]));
    assert(r.is_vec(d));
    lemma_length(r, d);
    let l = d.norm();
    let (x, y, s) = (r.at(d.x), r.at(d.y), r.at(l));
    assert(r.fits(0i32 as real / 1i32 as real));
    assert(r.fits(2i32 as real / 1i32 as real));
    assert(r.fits(16i32 as real / 1i32 as real));
    assert(r.fits(5i32 as real / 2i32 as real));
    assert(r.fits(1i32 as real / 1000000i32 as real));
    lemma_literal(r, 0, 1);
    lemma_literal(r, 2, 1);
    lemma_literal(r, 16, 1);
    lemma_literal(r, 5, 2);
    lemma_literal(r, 1, 1000000);
    let rho = greater(cloud.rho[j], density_floor());
    assert(r.means(rho, weight(r, cloud, j)));
    let w = prod(lit::<T>(2, 1), rho);
    let wv = 2real * weight(r, cloud, j);
    assert(r.means(w, wv));
    let ps = sum(cloud.pressure[i], cloud.pressure[j]);
    assert(r.is(ps));
    let left = diff(reach(), l);
    assert(r.means(left, 16real - s));
    let e = power(left, 2);
    assert(r.means(e, (16real - s) * (16real - s)));
    let a = d.div_of(l);
    assert(r.means(a.x, x / s) && r.means(a.y, y / s));
    let b = a.neg_of();
    assert(r.means(b.x, 0real - x / s) && r.means(b.y, 0real - y / s));
    let c = b.mul_of(mass());
    assert(r.is_vec(c));
    let g = c.mul_of(ps);
    assert(r.is_vec(g));
    let h = g.div_of(w);
    assert(r.is_vec(h));
    let k = h.mul_of(cloud.spiky_grad);
    assert(r.is_vec(k));
    let f = k.mul_of(e);
    assert(r.is_vec(f));
    assert(f == cloud.push_of(i, j));
    let ev = (16real - s) * (16real - s);
    lemma_push(x, s, 5real / 2real, r.at(ps), wv, r.at(cloud.spiky_grad), ev);
    lemma_push(y, s, 5real / 2real, r.at(ps), wv, r.at(cloud.spiky_grad), ev);
    assert(pushed(r.at(f.x), x, s, r.at(ps), weight(r, cloud, j), r.at(cloud.spiky_grad)));
    assert(pushed(r.at(f.y), y, s, r.at(ps), weight(r, cloud, j), r.at(cloud.spiky_grad)));
    assert(x == offset_x(r, cloud, i, j) && y == offset_y(r, cloud, i, j));
}

/// One component `f` of the push of a particle that is `d` away in that direction and `s`
/// in all, where the pressures add up to `p` and the density is `rho`.
pub open spec fn pushed(f: real, d: real, s: real, p: real, rho: real, slope: real) -> bool {
    f * (2real * rho * s) == 0real - d * (5real / 2real * p * slope * ((16real - s) * (16real - s)))
}

/// One component `f` of the drag of a particle that moves by `v` more in that direction,
/// at distance `s`, where the density is `rho`.
pub open spec fn dragged(f: real, v: real, s: real, rho: real, slope: real) -> bool {
    f * rho == v * (500real * slope * (16real - s))
}

/// Viscosity draws particles along: a particle that acts on another at distance `s` pulls
/// it the way that it moves more than the other does, by two hundred times the mass and
/// a kernel that fades with what is left of the reach, over the density.
pub proof fn law_viscosity_draws_along<T: Scalar>(r: Reading<T>, cloud: Cloud<T>, i: int, j: int)
    requires
        ideal_powers(r),
        cloud_of_numbers(r, cloud),
        0 <= i < cloud.pos.len(),
        0 <= j < cloud.pos.len(),
        cloud.acts(i, j),
    ensures
        ({
            let f = cloud.drag_of(i, j);
            let (x, y) = (offset_x(r, cloud, i, j), offset_y(r, cloud, i, j));
            let vx = r.at(cloud.vel[j].x) - r.at(cloud.vel[i].x);
            let vy = r.at(cloud.vel[j].y) - r.at(cloud.vel[i].y);
            let s = distance(r, cloud, i, j);
            &&& 0real < s && s < 16real && s * s == x * x + y * y
            &&& r.is_vec(f)
            &&& dragged(r.at(f.x), vx, s, weight(r, cloud, j), r.at(cloud.visc_lap))
            &&& dragged(r.at(f.y), vy, s, weight(r, cloud, j), r.at(cloud.visc_lap))
        }),
{
    let d = cloud.pos[j].sub_of(cloud.pos[i]);
    assert(r.is_vec(cloud.pos[i]) && r.is_vec(cloud.pos[j]));
    assert(r.is_vec(cloud.vel[i]) && r.is_vec(cloud.vel[j]));
    assert(r.is(cloud.rho[j]));
    assert(r.is_vec(d));
    lemma_length(r, d);
    let l = d.norm();
    let s = r.at(l);
    assert(r.fits(0i32 as real / 1i32 as real));
    assert(r.fits(16i32 as real / 1i32 as real));
    assert(r.fits(200i32 as real / 1i32 as real));
    assert(r.fits(5i32 as real / 2i32 as real));
    assert(r.fits(1i32 as real / 1000000i32 as real));
    lemma_literal(r, 0, 1);
    lemma_literal(r, 16, 1);
    lemma_literal(r, 200, 1);
    lemma_literal(r, 5, 2);
    lemma_literal(r, 1, 1000000);
    let rho = greater(cloud.rho[j], density_floor());
    let wv = weight(r, cloud, j);
    assert(r.means(rho, wv));
    let left = diff(reach(), l);
    assert(r.means(left, 16real - s));
    let t = prod(thickness::<T>(), mass());
    assert(200real * (5real / 2real) == 500real);
    assert(r.means(t, 500real));
    let v = cloud.vel[j].sub_of(cloud.vel[i]);
    assert(r.is_vec(v));
    let a = v.mul_by(t);
    assert(r.is_vec(a));
    let b = a.div_of(rho);
    assert(r.is_vec(b));
    let c = b.mul_of(cloud.visc_lap);
    assert(r.is_vec(c));
    let f = c.mul_of(left);
    assert(r.is_vec(f));
    assert(f == cloud.drag_of(i, j));
    lemma_drag(500real, r.at(v.x), wv, r.at(cloud.visc_lap), 16real - s);
    lemma_drag(500real, r.at(v.y), wv, r.at(cloud.visc_lap), 16real - s);
    assert(dragged(r.at(f.x), r.at(v.x), s, wv, r.at(cloud.visc_lap)));
}

/// The pushes and drags of the first `upto` particles around particle `i` that act on it,
/// added up.
pub open spec fn total_force<T: Scalar>(r: Reading<T>, cloud: Cloud<T>, i: int, upto: nat) -> (
    real,
    real,
)
    decreases upto,
{
    if upto == 0 {
        (0real, 0real)
    } else {
        let before = total_force(r, cloud, i, (upto - 1) as nat);
        let j = cloud.around(i)[upto - 1] as int;
        if cloud.acts(i, j) {
            let (p, d) = (cloud.push_of(i, j), cloud.drag_of(i, j));
            (before.0 + r.at(p.x) + r.at(d.x), before.1 + r.at(p.y) + r.at(d.y))
        } else {
            before
        }
    }
}

/// The sums of pushes and of drags, in numbers.
proof fn lemma_force_sums<T: Scalar>(r: Reading<T>, cloud: Cloud<T>, i: int, upto: nat)
    requires
        ideal_powers(r),
        cloud_of_numbers(r, cloud),
        0 <= i < cloud.pos.len(),
        all_below(cloud.around(i), cloud.pos.len() as int),
        upto <= cloud.around(i).len(),
    ensures
        ({
            let (p, d) = (cloud.pushes(i, upto), cloud.drags(i, upto));
            &&& r.is_vec(p) && r.is_vec(d)
            &&& r.at(p.x) + r.at(d.x) == total_force(r, cloud, i, upto).0
            &&& r.at(p.y) + r.at(d.y) == total_force(r, cloud, i, upto).1
        }),
    decreases upto,
{
    assert(r.fits(0i32 as real / 1i32 as real));
    lemma_literal(r, 0, 1);
    if upto > 0 {
        lemma_force_sums(r, cloud, i, (upto - 1) as nat);
        let j = cloud.around(i)[upto - 1] as int;
        if cloud.acts(i, j) {
            law_pressure_pushes_apart(r, cloud, i, j);
            law_viscosity_draws_along(r, cloud, i, j);
            assert(r.is_vec(cloud.push_of(i, j)) && r.is_vec(cloud.drag_of(i, j)));
        }
    }
}

/// Forces add up: on a particle act the pushes and the drags of all the particles around
/// it that are in reach, each of them once.
pub proof fn law_forces_add_up<T: Scalar>(r: Reading<T>, cloud: Cloud<T>, i: int)
    requires
        ideal_powers(r),
        cloud_of_numbers(r, cloud),
        0 <= i < cloud.pos.len(),
        all_below(cloud.around(i), cloud.pos.len() as int),
    ensures
        r.is_vec(cloud.force_on(i)),
        (r.at(cloud.force_on(i).x), r.at(cloud.force_on(i).y)) == total_force(
            r,
            cloud,
            i,
            cloud.around(i).len(),
        ),
{
    lemma_force_sums(r, cloud, i, cloud.around(i).len());
}

/// The fluid resists being packed closer than at rest: its pressure is the stiffness times
/// what the density is above that at rest, and nothing below it.
pub proof fn law_pressure_resists_packing<T: Scalar>(
    r: Reading<T>,
    rho: T,
    rest: T,
    stiffness: T,
)
    requires
        r.sound(),
        r.never_rounds(),
        r.is(rho),
        r.is(rest),
        r.is(stiffness),
        r.at(stiffness) >= 0real,
    ensures
        r.means(
            pressure_at(rho, rest, stiffness),
            if r.at(rho) > r.at(rest) {
                r.at(stiffness) * (r.at(rho) - r.at(rest))
            } else {
                0real
            },
        ),
{
    assert(r.fits(0i32 as real / 1i32 as real));
    lemma_literal(r, 0, 1);
    let (k, d) = (r.at(stiffness), r.at(rho) - r.at(rest));
    assert(r.means(diff(rho, rest), d));
    assert(r.means(prod(stiffness, diff(rho, rest)), k * d));
    if d > 0real {
        assert(k * d >= 0real) by (nonlinear_arith)
            requires
                k >= 0real,
                d > 0real,
        ;
    } else {
        assert(k * d <= 0real) by (nonlinear_arith)
            requires
                k >= 0real,
                d <= 0real,
        ;
    }
}

/// The share of a particle whose distance has the square `r2` in the density.
pub open spec fn share(r2: real, poly6: real) -> real {
    if r2 < 256real {
        5real / 2real * poly6 * ((256real - r2) * (256real - r2) * (256real - r2))
    } else {
        0real
    }
}

/// The shares of the first `upto` of the particles `near` in the density at `p`.
pub open spec fn total_share<T: Scalar>(
    r: Reading<T>,
    p: Vec2<T>,
    pos: Seq<Vec2<T>>,
    near: Seq<usize>,
    poly6: T,
    upto: nat,
) -> real
    decreases upto,
{
    if upto == 0 {
        0real
    } else {
        let q = pos[near[upto - 1] as int];
        let (x, y) = (r.at(q.x) - r.at(p.x), r.at(q.y) - r.at(p.y));
        total_share(r, p, pos, near, poly6, (upto - 1) as nat) + share(
            x * x + y * y,
            r.at(poly6),
        )
    }
}

/// The density at a point is what the particles within sixteen pixels of it give it, each
/// the more the nearer it is.
pub proof fn law_density_counts_the_near<T: Scalar>(
    r: Reading<T>,
    p: Vec2<T>,
    pos: Seq<Vec2<T>>,
    near: Seq<usize>,
    poly6: T,
    upto: nat,
)
    requires
        ideal_powers(r),
        r.is_vec(p),
        r.is(poly6),
        all_below(near, pos.len() as int),
        upto <= near.len(),
        forall|i: int| 0 <= i < pos.len() ==> r.is_vec(#[trigger] pos[i]),
    ensures
        r.means(
            density_at(p, pos, near, poly6, upto),
            total_share(r, p, pos, near, poly6, upto),
        ),
    decreases upto,
{
    assert(r.fits(0i32 as real / 1i32 as real));
    assert(r.fits(16i32 as real / 1i32 as real));
    assert(r.fits(5i32 as real / 2i32 as real));
    lemma_literal(r, 0, 1);
    lemma_literal(r, 16, 1);
    lemma_literal(r, 5, 2);
    if upto > 0 {
        law_density_counts_the_near(r, p, pos, near, poly6, (upto - 1) as nat);
        let j = near[upto - 1] as int;
        assert(r.is_vec(pos[j]));
        let d = pos[j].sub_of(p);
        assert(r.is_vec(d));
        let (x, y) = (r.at(d.x), r.at(d.y));
        assert(r.is(prod(d.x, d.x)) && r.is(prod(d.y, d.y)));
        let r2 = d.dot_of(d);
        assert(r.means(r2, x * x + y * y));
        let h2 = prod(reach::<T>(), reach());
        assert(16real * 16real == 256real);
        assert(r.means(h2, 256real));
        let left = diff(h2, r2);
        assert(r.means(left, 256real - (x * x + y * y)));
        assert(r.is(power(left, 3)));
        assert(r.is(prod(mass(), poly6)));
        assert(r.is(prod(prod(mass(), poly6), power(left, 3))));
    }
}

/// Force and gravity speed a particle up: over `dt` seconds its velocity grows by `dt`
/// times the force over the density, a millionth at least, and by `dt` times gravity.
pub proof fn law_force_and_gravity_accelerate<T: Scalar>(
    r: Reading<T>,
    v: Vec2<T>,
    force: Vec2<T>,
    rho: T,
    dt: T,
    gravity: Vec2<T>,
)
    requires
        r.sound(),
        r.never_rounds(),
        r.is_vec(v),
        r.is_vec(force),
        r.is_vec(gravity),
        r.is(rho),
        r.is(dt),
    ensures
        ({
            let u = rushed(v, force, rho, dt, gravity);
            let (t, d) = (r.at(dt), larger(r.at(rho), 1real / 1000000real));
            &&& r.means(u.x, r.at(v.x) + t * (r.at(force.x) / d + r.at(gravity.x)))
            &&& r.means(u.y, r.at(v.y) + t * (r.at(force.y) / d + r.at(gravity.y)))
        }),
{
    assert(r.fits(1i32 as real / 1000000i32 as real));
    lemma_literal(r, 1, 1000000);
    let d = greater(rho, density_floor());
    assert(r.means(d, larger(r.at(rho), 1real / 1000000real)));
    let a = force.div_of(d);
    assert(r.is_vec(a));
    let b = a.add_of(gravity);
    assert(r.is_vec(b));
    assert(r.is_vec(b.mul_by(dt)));
}

} // verus!
