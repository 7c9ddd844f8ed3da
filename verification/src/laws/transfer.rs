//! How the water is carried between its particles and its grid.

use crate::scalar::Scalar;
#[allow(unused_imports)]
use crate::flip::{
    gathered, held, lemma_corners, lemma_sums_fill_the_grid, occupies, sampled, scattered, spot,
    spot_u, spot_v, stop_before, weighted, Faces, FlipModel, FlipSettings,
};
#[allow(unused_imports)]
use crate::layout::{
    col, lemma_col_row_of_place, lemma_place_in_grid, lemma_place_of_col_row, lemma_row_in_grid, place,
    row,
};
#[allow(unused_imports)]
use crate::reals::{lemma_literal, lemma_mixture, lemma_spread, lemma_units, Reading};
#[allow(unused_imports)]
use crate::scalar::{count, diff, index, lit, lt, prod, quot, sum};
#[allow(unused_imports)]
use crate::vec2::Vec2;
use vstd::prelude::*;

verus! {

/// The velocity that the grid has at particle `i`.
pub open spec fn grid_velocity<T: Scalar>(water: FlipModel<T>, i: int) -> Vec2<T> {
    Vec2 {
        x: sampled(
            water.u,
            water.nx + 1,
            spot_u(water.pos[i], water.nx, water.ny, water.h),
        ),
        y: sampled(water.v, water.nx, spot_v(water.pos[i], water.nx, water.ny, water.h)),
    }
}

/// The velocity that the grid had at particle `i` before the pressure was solved.
pub open spec fn grid_velocity_before<T: Scalar>(water: FlipModel<T>, i: int) -> Vec2<T> {
    grid_velocity(FlipModel { u: water.u_prev, v: water.v_prev, ..water }, i)
}

/// Two vectors are the same.
pub open spec fn same_vec<T: Scalar>(r: Reading<T>, a: Vec2<T>, b: Vec2<T>) -> bool {
    r.is_vec(a) && r.is_vec(b) && r.at(a.x) == r.at(b.x) && r.at(a.y) == r.at(b.y)
}

/// Pure FLIP keeps what the grid kept: with `flip_ratio` one, a particle has after the
/// read-back the velocity that it had before it, where the velocity on the grid is
/// still what it was before the pressure was solved.
pub proof fn law_pure_flip_keeps_what_the_grid_kept<T: Scalar>(
    r: Reading<T>,
    water: FlipModel<T>,
    i: int,
)
    requires
        r.sound(),
        0 <= i < water.pos.len(),
        water.vel.len() == water.pos.len(),
        r.means(water.cfg.flip_ratio, 1real),
        r.fits(0real),
        r.is_vec(water.vel[i]),
        same_vec(r, grid_velocity(water, i), grid_velocity_before(water, i)),
    ensures
        same_vec(r, water.read_back().vel[i], water.vel[i]),
{
    let (now, was, v) = (grid_velocity(water, i), grid_velocity_before(water, i), water.vel[i]);
    assert(r.fits(1i32 as real / 1i32 as real));
    lemma_literal(r, 1, 1);
    let d = now.sub_of(was);
    assert(r.means(d.x, 0real) && r.means(d.y, 0real));
    let flip = v.add_of(d);
    assert(same_vec(r, flip, v));
    let a = water.cfg.flip_ratio;
    let rest = diff(lit(1, 1), a);
    assert(r.means(rest, 0real));
    lemma_units(r.at(now.x));
    lemma_units(r.at(now.y));
    lemma_units(r.at(v.x));
    lemma_units(r.at(v.y));
    assert(same_vec(r, flip.mul_by(a), v));
    assert(water.read_back().vel[i] == water.velocity_read(i));
}

/// Pure PIC takes the velocity of the grid: with `flip_ratio` zero, a particle has after
/// the read-back the velocity that the grid has where it is, whatever it had before.
pub proof fn law_pure_pic_takes_the_grid<T: Scalar>(r: Reading<T>, water: FlipModel<T>, i: int)
    requires
        r.sound(),
        0 <= i < water.pos.len(),
        water.vel.len() == water.pos.len(),
        r.means(water.cfg.flip_ratio, 0real),
        r.fits(1real),
        r.is_vec(water.vel[i]),
        r.is_vec(grid_velocity(water, i)),
        r.is_vec(water.vel[i].add_of(grid_velocity(water, i).sub_of(grid_velocity_before(water, i)))),
    ensures
        same_vec(r, water.read_back().vel[i], grid_velocity(water, i)),
{
    let (now, was, v) = (grid_velocity(water, i), grid_velocity_before(water, i), water.vel[i]);
    assert(r.fits(1i32 as real / 1i32 as real));
    lemma_literal(r, 1, 1);
    let flip = v.add_of(now.sub_of(was));
    let a = water.cfg.flip_ratio;
    let rest = diff(lit(1, 1), a);
    assert(r.means(rest, 1real));
    lemma_units(r.at(flip.x));
    lemma_units(r.at(flip.y));
    lemma_units(r.at(now.x));
    lemma_units(r.at(now.y));
    assert(water.read_back().vel[i] == water.velocity_read(i));
}

/// The velocity of particle `i` after the read-back, with the given ratio.
pub open spec fn read_with<T: Scalar>(water: FlipModel<T>, ratio: T, i: int) -> Vec2<T> {
    FlipModel {
        cfg: FlipSettings { flip_ratio: ratio, ..water.cfg },
        ..water
    }.read_back().vel[i]
}

/// The read-back blends: with `flip_ratio` one a particle's velocity changes by as much
/// as that of the grid did, and any other ratio gives that many parts of this and the
/// rest of the velocity of the grid.
pub proof fn law_read_back_blends<T: Scalar>(
    r: Reading<T>,
    water: FlipModel<T>,
    one: T,
    ratio: T,
    i: int,
)
    requires
        r.sound(),
        r.never_rounds(),
        0 <= i < water.pos.len(),
        water.vel.len() == water.pos.len(),
        r.means(one, 1real),
        r.is(ratio),
        r.is_vec(water.vel[i]),
        r.is_vec(grid_velocity(water, i)),
        r.is_vec(grid_velocity_before(water, i)),
    ensures
        ({
            let (now, was, v) = (
                grid_velocity(water, i),
                grid_velocity_before(water, i),
                water.vel[i],
            );
            let flip = read_with(water, one, i);
            let new = read_with(water, ratio, i);
            let a = r.at(ratio);
            &&& r.is_vec(flip) && r.is_vec(new)
            &&& r.at(flip.x) - r.at(v.x) == r.at(now.x) - r.at(was.x)
            &&& r.at(flip.y) - r.at(v.y) == r.at(now.y) - r.at(was.y)
            &&& r.at(new.x) == a * r.at(flip.x) + (1real - a) * r.at(now.x)
            &&& r.at(new.y) == a * r.at(flip.y) + (1real - a) * r.at(now.y)
        }),
{
    let (now, was, v) = (grid_velocity(water, i), grid_velocity_before(water, i), water.vel[i]);
    assert(r.fits(1i32 as real / 1i32 as real));
    lemma_literal(r, 1, 1);
    let f = v.add_of(now.sub_of(was));
    assert(r.is_vec(now.sub_of(was)));
    assert(r.is_vec(f));
    assert(r.means(diff(lit(1, 1), one), 0real));
    assert(r.is(diff(lit(1, 1), ratio)));
    let whole = FlipModel { cfg: FlipSettings { flip_ratio: one, ..water.cfg }, ..water };
    let part = FlipModel { cfg: FlipSettings { flip_ratio: ratio, ..water.cfg }, ..water };
    assert(whole.read_back().vel[i] == whole.velocity_read(i));
    assert(part.read_back().vel[i] == part.velocity_read(i));
    lemma_units(r.at(now.x));
    lemma_units(r.at(now.y));
    lemma_units(r.at(f.x));
    lemma_units(r.at(f.y));
    assert(whole.velocity_read(i) == f.mul_by(one).add_of(now.mul_by(diff(lit(1, 1), one))));
    assert(part.velocity_read(i) == f.mul_by(ratio).add_of(now.mul_by(diff(lit(1, 1), ratio))));
    assert(r.is_vec(f.mul_by(one)) && r.is_vec(now.mul_by(diff(lit(1, 1), one))));
    assert(r.is_vec(f.mul_by(ratio)) && r.is_vec(now.mul_by(diff(lit(1, 1), ratio))));
}

/// Without sweeps of the pressure solver, pure FLIP leaves every particle the velocity
/// that it flew with in the step.
pub proof fn law_pure_flip_without_pressure_is_free_flight<T: Scalar>(
    r: Reading<T>,
    water: FlipModel<T>,
    dt: T,
    i: int,
)
    requires
        r.sound(),
        water.vel.len() == water.pos.len(),
        0 <= i < water.pos.len(),
        water.cfg.iters == 0,
        r.means(water.cfg.flip_ratio, 1real),
        r.fits(0real),
        r.is_vec(water.moved(dt).vel[i]),
        r.is_vec(grid_velocity(water.moved(dt).gridded(), i)),
    ensures
        same_vec(r, water.stepped(dt).vel[i], water.moved(dt).vel[i]),
{
    let g = water.moved(dt).gridded();
    let s = g.solved();
    assert(g.basin().eased(Faces { u: g.u, v: g.v }, 0) == (Faces { u: g.u, v: g.v }));
    assert(s.u == g.u && s.v == g.v && s.u_prev == g.u && s.v_prev == g.v);
    assert(grid_velocity(s, i) == grid_velocity(g, i));
    assert(grid_velocity_before(s, i) == grid_velocity(g, i));
    law_pure_flip_keeps_what_the_grid_kept(r, s, i);
}

/// The values of a grid grow evenly, by `b` from column to column and by `c` from row to
/// row, from `a` at its origin.
pub open spec fn grows_evenly<T: Scalar>(
    r: Reading<T>,
    field: Seq<T>,
    cols: int,
    rows: int,
    a: real,
    b: real,
    c: real,
) -> bool {
    forall|i: int, j: int|
        0 <= i < cols && 0 <= j < rows ==> r.means(
            #[trigger] field[place(i, j, cols)],
            a + b * i as real + c * j as real,
        )
}

/// A coordinate lies in a row of `n` values, with a little room before the last.
pub open spec fn lies_within<T: Scalar>(r: Reading<T>, x: T, n: int) -> bool {
    r.is(x) && 0real <= r.at(x) <= n as real - 1real - 1real / 10000real
}

/// What a coordinate in a row of `n` values is held and cut to.
proof fn lemma_where<T: Scalar>(r: Reading<T>, x: T, n: int)
    requires
        r.sound(),
        r.never_rounds(),
        2 <= n < usize::MAX,
        lies_within(r, x, n),
    ensures
        ({
            let y = held(x, n);
            let i = stop_before(y, n);
            &&& 0 <= i <= n - 2
            &&& r.means(diff(y, count(i)), r.at(x) - i as real)
            &&& 0real <= r.at(x) - (i as real) < 1real
        }),
{
    assert(r.fits(0i32 as real / 1i32 as real));
    assert(r.fits(1i32 as real / 1i32 as real));
    assert(r.fits(1i32 as real / 10000i32 as real));
    lemma_literal(r, 0, 1);
    lemma_literal(r, 1, 1);
    lemma_literal(r, 1, 10000);
    assert(r.fits((n as usize) as real));
    assert(r.means(count::<T>(n as usize), n as real));
    let y = held(x, n);
    assert(r.means(y, r.at(x)));
    let k = index(y);
    assert(k as real <= r.at(x) < k as real + 1real);
    assert(k as real <= n as real - 1real);
    assert(k <= n - 2);
    assert(r.fits(k as real));
    assert(r.is(count::<T>(k)));
}

/// An evenly growing grid is read off exactly between its values too.
pub proof fn law_even_fields_are_read_exactly<T: Scalar>(
    r: Reading<T>,
    field: Seq<T>,
    cols: int,
    rows: int,
    gx: T,
    gy: T,
    a: real,
    b: real,
    c: real,
)
    requires
        r.sound(),
        r.never_rounds(),
        2 <= cols < usize::MAX,
        2 <= rows < usize::MAX,
        grows_evenly(r, field, cols, rows, a, b, c),
        lies_within(r, gx, cols),
        lies_within(r, gy, rows),
    ensures
        r.means(sampled(field, cols, spot(cols, rows, gx, gy)), a + b * r.at(gx) + c * r.at(gy)),
{
    let at = spot(cols, rows, gx, gy);
    lemma_where(r, gx, cols);
    lemma_where(r, gy, rows);
    lemma_corners(at, cols, rows);
    let (i, j) = (at.i as int, at.j as int);
    let (x, y) = (r.at(gx), r.at(gy));
    let (fx, fy) = (x - i as real, y - j as real);
    assert(r.means(at.fx, fx) && r.means(at.fy, fy));
    assert(r.fits(1i32 as real / 1i32 as real));
    lemma_literal(r, 1, 1);
    let k = at.corner(cols);
    let p = a + b * i as real + c * j as real;
    assert(r.means(field[place(i, j, cols)], p));
    assert(r.means(field[place(i + 1, j, cols)], a + b * (i + 1) as real + c * j as real));
    assert(r.means(field[place(i, j + 1, cols)], a + b * i as real + c * (j + 1) as real));
    assert(r.means(field[place(i + 1, j + 1, cols)], a + b * (i + 1) as real + c * (j + 1) as real));
    let (ri, rj) = (i as real, j as real);
    assert((i + 1) as real == ri + 1real && (j + 1) as real == rj + 1real);
    lemma_spread(b, ri, 1real);
    lemma_spread(c, rj, 1real);
    lemma_units(b);
    lemma_units(c);
    let (ox, oy) = (1real - fx, 1real - fy);
    assert(r.means(at.w00(), ox * oy));
    assert(r.means(at.w10(), fx * oy));
    assert(r.means(at.w01(), ox * fy));
    assert(r.means(at.w11(), fx * fy));
    lemma_mixture(fx, fy, p, b, c);
    lemma_spread(b, x, ri);
    lemma_spread(c, y, rj);
    assert(r.is(prod(at.w00(), field[k])) && r.is(prod(at.w10(), field[k + 1])));
    assert(r.is(prod(at.w01(), field[k + cols])) && r.is(prod(at.w11(), field[k + cols + 1])));
}

/// The grid is read off between its values: at a point past column `i` and row `j`, and
/// before the next ones, each of the four values around counts by how near the point is to
/// it, in columns and in rows.
pub proof fn law_grid_is_read_between_its_values<T: Scalar>(
    r: Reading<T>,
    field: Seq<T>,
    cols: int,
    rows: int,
    gx: T,
    gy: T,
)
    requires
        r.sound(),
        r.never_rounds(),
        2 <= cols < usize::MAX,
        2 <= rows < usize::MAX,
        field.len() == cols * rows,
        all_numbers(r, field),
        lies_within(r, gx, cols),
        lies_within(r, gy, rows),
    ensures
        r.is(sampled(field, cols, spot(cols, rows, gx, gy))),
        forall|i: int, j: int|
            #![trigger place(i, j, cols)]
            i as real <= r.at(gx) < i as real + 1real && j as real <= r.at(gy) < j as real + 1real
                ==> ({
                let (x, y) = (r.at(gx) - i as real, r.at(gy) - j as real);
                r.at(sampled(field, cols, spot(cols, rows, gx, gy))) == ((1real - x) * (1real - y))
                    * r.at(field[place(i, j, cols)]) + (x * (1real - y)) * r.at(
                    field[place(i + 1, j, cols)],
                ) + ((1real - x) * y) * r.at(field[place(i, j + 1, cols)]) + (x * y) * r.at(
                    field[place(i + 1, j + 1, cols)],
                )
            }),
{
    let at = spot(cols, rows, gx, gy);
    lemma_where(r, gx, cols);
    lemma_where(r, gy, rows);
    lemma_corners(at, cols, rows);
    let (fx, fy) = (r.at(gx) - at.i as real, r.at(gy) - at.j as real);
    assert(r.means(at.fx, fx) && r.means(at.fy, fy));
    assert(r.fits(1i32 as real / 1i32 as real));
    lemma_literal(r, 1, 1);
    let k = at.corner(cols);
    assert(r.is(field[k]) && r.is(field[k + 1]));
    assert(r.is(field[k + cols]) && r.is(field[k + cols + 1]));
    assert(r.means(at.w00(), (1real - fx) * (1real - fy)));
    assert(r.means(at.w10(), fx * (1real - fy)));
    assert(r.means(at.w01(), (1real - fx) * fy));
    assert(r.means(at.w11(), fx * fy));
    assert(r.is(prod(at.w00(), field[k])) && r.is(prod(at.w10(), field[k + 1])));
    assert(r.is(prod(at.w01(), field[k + cols])) && r.is(prod(at.w11(), field[k + cols + 1])));
    assert(r.is(sum(prod(at.w00(), field[k]), prod(at.w10(), field[k + 1]))));
    assert forall|i: int, j: int|
        #![trigger place(i, j, cols)]
        i as real <= r.at(gx) < i as real + 1real && j as real <= r.at(gy) < j as real
            + 1real implies i == at.i && j == at.j by {}
}

/// How much of a value at distance `t`, in steps of the grid, counts: all of it at no
/// distance, none from one step on, and in between in proportion.
pub open spec fn tent(t: real) -> real {
    if t <= 0real - 1real || t >= 1real {
        0real
    } else if t < 0real {
        1real + t
    } else {
        1real - t
    }
}

/// The share of a point that is `f` past column `i` in column `a`.
proof fn lemma_tent(a: int, i: int, f: real)
    requires
        0real <= f < 1real,
    ensures
        tent(i as real + f - a as real) == if a == i {
            1real - f
        } else if a == i + 1 {
            f
        } else {
            0real
        },
{
    if a < i {
        assert(a as real <= i as real - 1real);
    } else if a > i + 1 {
        assert(a as real >= i as real + 2real);
    } else if a == i + 1 {
        assert(a as real == i as real + 1real);
    }
}

/// All values of a field are numbers.
pub open spec fn all_numbers<T: Scalar>(r: Reading<T>, x: Seq<T>) -> bool {
    forall|k: int| 0 <= k < x.len() ==> r.is(#[trigger] x[k])
}

/// A value that is splatted is shared out by distance: every value of the grid gets, of
/// what is splatted at `(gx, gy)`, the part that its distance in columns and in rows
/// leaves it, and its weight grows by that part.
pub proof fn law_splat_shares_by_distance<T: Scalar>(
    r: Reading<T>,
    field: Seq<T>,
    wt: Seq<T>,
    cols: int,
    rows: int,
    gx: T,
    gy: T,
    val: T,
    a: int,
    b: int,
)
    requires
        r.sound(),
        r.never_rounds(),
        2 <= cols < usize::MAX,
        2 <= rows < usize::MAX,
        field.len() == cols * rows,
        wt.len() == cols * rows,
        all_numbers(r, field),
        all_numbers(r, wt),
        r.is(val),
        lies_within(r, gx, cols),
        lies_within(r, gy, rows),
        0 <= a < cols,
        0 <= b < rows,
    ensures
        ({
            let at = spot(cols, rows, gx, gy);
            let w = tent(r.at(gx) - a as real) * tent(r.at(gy) - b as real);
            let k = place(a, b, cols);
            &&& r.means(scattered(field, cols, at, val)[k], r.at(field[k]) + w * r.at(val))
            &&& r.means(weighted(wt, cols, at)[k], r.at(wt[k]) + w)
        }),
{
    let at = spot(cols, rows, gx, gy);
    lemma_where(r, gx, cols);
    lemma_where(r, gy, rows);
    lemma_corners(at, cols, rows);
    let (i, j) = (at.i as int, at.j as int);
    let (fx, fy) = (r.at(gx) - i as real, r.at(gy) - j as real);
    assert(r.means(at.fx, fx) && r.means(at.fy, fy));
    assert(r.fits(1i32 as real / 1i32 as real));
    lemma_literal(r, 1, 1);
    lemma_tent(a, i, fx);
    lemma_tent(b, j, fy);
    let (ox, oy) = (1real - fx, 1real - fy);
    assert(r.means(at.w00(), ox * oy));
    assert(r.means(at.w10(), fx * oy));
    assert(r.means(at.w01(), ox * fy));
    assert(r.means(at.w11(), fx * fy));
    let (tx, ty) = (tent(r.at(gx) - a as real), tent(r.at(gy) - b as real));
    lemma_units(tx);
    lemma_units(ty);
    lemma_units(r.at(val));
    let k = place(a, b, cols);
    lemma_place_in_grid(a, b, cols, rows);
    lemma_col_row_of_place(a, b, cols);
    lemma_col_row_of_place(i, j, cols);
    lemma_col_row_of_place(i + 1, j, cols);
    lemma_col_row_of_place(i, j + 1, cols);
    lemma_col_row_of_place(i + 1, j + 1, cols);
    let c = at.corner(cols);
    assert(r.is(prod(at.w00(), val)) && r.is(prod(at.w10(), val)));
    assert(r.is(prod(at.w01(), val)) && r.is(prod(at.w11(), val)));
    assert(r.is(field[k]) && r.is(wt[k]));
}

/// The particles lie in the basin, off its border.
pub open spec fn in_basin<T: Scalar>(r: Reading<T>, p: Vec2<T>, nx: int, ny: int, h: T) -> bool {
    &&& r.is_vec(p) && r.is(h) && r.at(h) > 0real
    &&& r.at(h) <= r.at(p.x) <= (nx as real - 1real) * r.at(h)
    &&& r.at(h) <= r.at(p.y) <= (ny as real - 1real) * r.at(h)
}

/// A coordinate of the basin in cells.
pub(crate) proof fn lemma_cells_along<T: Scalar>(r: Reading<T>, x: T, n: int, h: T)
    requires
        r.sound(),
        r.never_rounds(),
        r.is(x),
        r.is(h),
        r.at(h) > 0real,
        r.at(h) <= r.at(x) <= (n as real - 1real) * r.at(h),
    ensures
        r.means(quot(x, h), r.at(x) / r.at(h)),
        1real <= r.at(x) / r.at(h) <= n as real - 1real,
        r.means(
            diff(quot(x, h), lit(1, 2)),
            r.at(x) / r.at(h) - 1real / 2real,
        ),
{
    let (a, b) = (r.at(x), r.at(h));
    let q = a / b;
    assert(q * b == a) by (nonlinear_arith)
        requires
            b > 0real,
            q == a / b,
    ;
    assert(1real <= q) by (nonlinear_arith)
        requires
            b > 0real,
            b <= q * b,
    ;
    let m = n as real - 1real;
    assert(q <= m) by (nonlinear_arith)
        requires
            b > 0real,
            q * b <= m * b,
    ;
    assert(r.fits(1i32 as real / 2i32 as real));
    lemma_literal(r, 1, 2);
}

/// How near particle `p` is to the point `(a, b)` of the basin, counted in cells of
/// size `h`.
pub open spec fn nearness<T: Scalar>(r: Reading<T>, p: Vec2<T>, h: T, a: real, b: real) -> real {
    tent(r.at(p.x) / r.at(h) - a) * tent(r.at(p.y) / r.at(h) - b)
}

/// How near the first `upto` particles are to `(a, b)`, added up.
pub open spec fn total_nearness<T: Scalar>(
    r: Reading<T>,
    pos: Seq<Vec2<T>>,
    h: T,
    a: real,
    b: real,
    upto: nat,
) -> real
    decreases upto,
{
    if upto == 0 {
        0real
    } else {
        total_nearness(r, pos, h, a, b, (upto - 1) as nat) + nearness(r, pos[upto - 1], h, a, b)
    }
}

/// The speeds of the first `upto` particles, each times how near it is to `(a, b)`,
/// added up.
pub open spec fn total_motion<T: Scalar>(
    r: Reading<T>,
    pos: Seq<Vec2<T>>,
    speed: Seq<T>,
    h: T,
    a: real,
    b: real,
    upto: nat,
) -> real
    decreases upto,
{
    if upto == 0 {
        0real
    } else {
        total_motion(r, pos, speed, h, a, b, (upto - 1) as nat) + nearness(
            r,
            pos[upto - 1],
            h,
            a,
            b,
        ) * r.at(speed[upto - 1])
    }
}

/// Horizontal velocities.
pub open spec fn sideways<T>(vel: Seq<Vec2<T>>) -> Seq<T> {
    Seq::new(vel.len(), |i: int| vel[i].x)
}

/// Vertical velocities.
pub open spec fn upward<T>(vel: Seq<Vec2<T>>) -> Seq<T> {
    Seq::new(vel.len(), |i: int| vel[i].y)
}

/// Particles of numbers in a basin.
pub open spec fn particles_are_numbers<T: Scalar>(
    r: Reading<T>,
    pos: Seq<Vec2<T>>,
    vel: Seq<Vec2<T>>,
    nx: int,
    ny: int,
    h: T,
) -> bool {
    &&& vel.len() == pos.len()
    &&& forall|i: int| 0 <= i < pos.len() ==> in_basin(r, #[trigger] pos[i], nx, ny, h)
    &&& forall|i: int| 0 <= i < vel.len() ==> r.is_vec(#[trigger] vel[i])
}

/// What the particles add up to on the faces.
proof fn lemma_gathered<T: Scalar>(
    r: Reading<T>,
    pos: Seq<Vec2<T>>,
    vel: Seq<Vec2<T>>,
    nx: int,
    ny: int,
    h: T,
    upto: nat,
)
    requires
        r.sound(),
        r.never_rounds(),
        2 <= nx < usize::MAX - 1,
        2 <= ny < usize::MAX - 1,
        particles_are_numbers(r, pos, vel, nx, ny, h),
        upto <= pos.len(),
    ensures
        ({
            let g = gathered(pos, vel, nx, ny, h, upto);
            &&& all_numbers(r, g.u) && all_numbers(r, g.wu)
            &&& all_numbers(r, g.v) && all_numbers(r, g.wv)
            &&& forall|a: int, b: int|
                0 <= a < nx + 1 && 0 <= b < ny ==> r.at(#[trigger] g.u[place(a, b, nx + 1)])
                    == total_motion(
                    r,
                    pos,
                    sideways(vel),
                    h,
                    a as real,
                    b as real + 1real / 2real,
                    upto,
                )
            &&& forall|a: int, b: int|
                0 <= a < nx + 1 && 0 <= b < ny ==> r.at(#[trigger] g.wu[place(a, b, nx + 1)])
                    == total_nearness(r, pos, h, a as real, b as real + 1real / 2real, upto)
            &&& forall|a: int, b: int|
                0 <= a < nx && 0 <= b < ny + 1 ==> r.at(#[trigger] g.v[place(a, b, nx)])
                    == total_motion(
                    r,
                    pos,
                    upward(vel),
                    h,
                    a as real + 1real / 2real,
                    b as real,
                    upto,
                )
            &&& forall|a: int, b: int|
                0 <= a < nx && 0 <= b < ny + 1 ==> r.at(#[trigger] g.wv[place(a, b, nx)])
                    == total_nearness(r, pos, h, a as real + 1real / 2real, b as real, upto)
        }),
    decreases upto,
{
    lemma_sums_fill_the_grid(pos, vel, nx, ny, h, upto);
    assert(r.fits(0i32 as real / 1i32 as real));
    lemma_literal(r, 0, 1);
    let g = gathered(pos, vel, nx, ny, h, upto);
    if upto == 0 {
        assert forall|a: int, b: int| 0 <= a < nx + 1 && 0 <= b < ny implies r.means(
            #[trigger] g.u[place(a, b, nx + 1)],
            0real,
        ) && r.means(g.wu[place(a, b, nx + 1)], 0real) by {
            lemma_place_in_grid(a, b, nx + 1, ny);
        }
        assert forall|a: int, b: int| 0 <= a < nx && 0 <= b < ny + 1 implies r.means(
            #[trigger] g.v[place(a, b, nx)],
            0real,
        ) && r.means(g.wv[place(a, b, nx)], 0real) by {
            lemma_place_in_grid(a, b, nx, ny + 1);
        }
        assert forall|a: int, b: int| 0 <= a < nx + 1 && 0 <= b < ny implies r.at(
            #[trigger] g.wu[place(a, b, nx + 1)],
        ) == 0real by {
            assert(r.means(g.u[place(a, b, nx + 1)], 0real));
        }
        assert forall|a: int, b: int| 0 <= a < nx && 0 <= b < ny + 1 implies r.at(
            #[trigger] g.wv[place(a, b, nx)],
        ) == 0real by {
            assert(r.means(g.v[place(a, b, nx)], 0real));
        }
    } else {
        let before = (upto - 1) as nat;
        let o = gathered(pos, vel, nx, ny, h, before);
        lemma_gathered(r, pos, vel, nx, ny, h, before);
        lemma_sums_fill_the_grid(pos, vel, nx, ny, h, before);
        let (p, v) = (pos[upto - 1], vel[upto - 1]);
        assert(in_basin(r, p, nx, ny, h) && r.is_vec(v));
        lemma_cells_along(r, p.x, nx, h);
        lemma_cells_along(r, p.y, ny, h);
        let (x, y) = (quot(p.x, h), quot(p.y, h));
        let (xh, yh) = (diff(x, lit::<T>(1, 2)), diff(y, lit::<T>(1, 2)));
        assert((nx + 1) as real == nx as real + 1real && (ny + 1) as real == ny as real + 1real);
        assert(lies_within(r, x, nx + 1) && lies_within(r, yh, ny));
        assert(lies_within(r, xh, nx) && lies_within(r, y, ny + 1));
        assert forall|a: int, b: int| 0 <= a < nx + 1 && 0 <= b < ny implies r.means(
            #[trigger] g.u[place(a, b, nx + 1)],
            total_motion(r, pos, sideways(vel), h, a as real, b as real + 1real / 2real, upto),
        ) && r.means(
            g.wu[place(a, b, nx + 1)],
            total_nearness(r, pos, h, a as real, b as real + 1real / 2real, upto),
        ) by {
            law_splat_shares_by_distance(r, o.u, o.wu, nx + 1, ny, x, yh, v.x, a, b);
            assert(r.at(yh) - b as real == r.at(y) - (b as real + 1real / 2real));
            lemma_place_in_grid(a, b, nx + 1, ny);
            assert(r.at(o.wu[place(a, b, nx + 1)]) == total_nearness(
                r,
                pos,
                h,
                a as real,
                b as real + 1real / 2real,
                before,
            ));
        }
        assert forall|a: int, b: int| 0 <= a < nx && 0 <= b < ny + 1 implies r.means(
            #[trigger] g.v[place(a, b, nx)],
            total_motion(r, pos, upward(vel), h, a as real + 1real / 2real, b as real, upto),
        ) && r.means(
            g.wv[place(a, b, nx)],
            total_nearness(r, pos, h, a as real + 1real / 2real, b as real, upto),
        ) by {
            law_splat_shares_by_distance(r, o.v, o.wv, nx, ny + 1, xh, y, v.y, a, b);
            assert(r.at(xh) - a as real == r.at(x) - (a as real + 1real / 2real));
            lemma_place_in_grid(a, b, nx, ny + 1);
            assert(r.at(o.wv[place(a, b, nx)]) == total_nearness(
                r,
                pos,
                h,
                a as real + 1real / 2real,
                b as real,
                before,
            ));
        }
        assert forall|a: int, b: int| 0 <= a < nx + 1 && 0 <= b < ny implies r.at(
            #[trigger] g.wu[place(a, b, nx + 1)],
        ) == total_nearness(r, pos, h, a as real, b as real + 1real / 2real, upto) by {
            assert(r.is(g.u[place(a, b, nx + 1)]));
        }
        assert forall|a: int, b: int| 0 <= a < nx && 0 <= b < ny + 1 implies r.at(
            #[trigger] g.wv[place(a, b, nx)],
        ) == total_nearness(r, pos, h, a as real + 1real / 2real, b as real, upto) by {
            assert(r.is(g.v[place(a, b, nx)]));
        }
        assert(all_numbers(r, g.u) && all_numbers(r, g.wu)) by {
            assert forall|k: int| 0 <= k < g.u.len() implies r.is(#[trigger] g.u[k]) && r.is(
                g.wu[k],
            ) by {
                lemma_row_in_grid(k, nx + 1, ny);
                lemma_place_of_col_row(k, nx + 1);
                assert(r.is(g.u[place(col(k, nx + 1), row(k, nx + 1), nx + 1)]));
            }
            assert forall|k: int| 0 <= k < g.wu.len() implies r.is(#[trigger] g.wu[k]) by {
                assert(r.is(g.u[k]));
            }
        }
        assert(all_numbers(r, g.v) && all_numbers(r, g.wv)) by {
            assert forall|k: int| 0 <= k < g.v.len() implies r.is(#[trigger] g.v[k]) && r.is(
                g.wv[k],
            ) by {
                lemma_row_in_grid(k, nx, ny + 1);
                lemma_place_of_col_row(k, nx);
                assert(r.is(g.v[place(col(k, nx), row(k, nx), nx)]));
            }
            assert forall|k: int| 0 <= k < g.wv.len() implies r.is(#[trigger] g.wv[k]) by {
                assert(r.is(g.v[k]));
            }
        }
    }
}

/// `x` is the mean of speeds that add up to `motion` with weights that add up to
/// `weight`.
pub open spec fn is_mean(x: real, motion: real, weight: real) -> bool {
    if weight > 0real {
        x * weight == motion
    } else {
        x == motion
    }
}

/// A quotient times its divisor.
proof fn lemma_quotient(a: real, b: real)
    requires
        b > 0real,
    ensures
        a / b * b == a,
{
    assert(a / b * b == a) by (nonlinear_arith)
        requires
            b > 0real,
    ;
}

/// The grid holds the mean of the particles: on every vertical face stands the mean of
/// their horizontal velocities, on every horizontal face that of their vertical ones,
/// each particle counting as far as it is near the middle of the face.
pub proof fn law_faces_hold_the_mean_of_the_particles<T: Scalar>(
    r: Reading<T>,
    water: FlipModel<T>,
    a: int,
    b: int,
)
    requires
        r.sound(),
        r.never_rounds(),
        water.valid(),
        2 <= water.nx < usize::MAX - 1,
        2 <= water.ny < usize::MAX - 1,
        particles_are_numbers(r, water.pos, water.vel, water.nx, water.ny, water.h),
    ensures
        0 <= a < water.nx + 1 && 0 <= b < water.ny ==> r.is(
            water.gridded().u[place(a, b, water.nx + 1)],
        ) && is_mean(
            r.at(water.gridded().u[place(a, b, water.nx + 1)]),
            total_motion(
                r,
                water.pos,
                sideways(water.vel),
                water.h,
                a as real,
                b as real + 1real / 2real,
                water.pos.len(),
            ),
            total_nearness(
                r,
                water.pos,
                water.h,
                a as real,
                b as real + 1real / 2real,
                water.pos.len(),
            ),
        ),
        0 <= a < water.nx && 0 <= b < water.ny + 1 ==> r.is(
            water.gridded().v[place(a, b, water.nx)],
        ) && is_mean(
            r.at(water.gridded().v[place(a, b, water.nx)]),
            total_motion(
                r,
                water.pos,
                upward(water.vel),
                water.h,
                a as real + 1real / 2real,
                b as real,
                water.pos.len(),
            ),
            total_nearness(
                r,
                water.pos,
                water.h,
                a as real + 1real / 2real,
                b as real,
                water.pos.len(),
            ),
        ),
        water.gridded().u_prev == water.gridded().u,
        water.gridded().v_prev == water.gridded().v,
{
    let (nx, ny, n) = (water.nx, water.ny, water.pos.len());
    let g = gathered(water.pos, water.vel, nx, ny, water.h, n);
    lemma_gathered(r, water.pos, water.vel, nx, ny, water.h, n);
    lemma_sums_fill_the_grid(water.pos, water.vel, nx, ny, water.h, n);
    assert(r.fits(0i32 as real / 1i32 as real));
    lemma_literal(r, 0, 1);
    if 0 <= a < nx + 1 && 0 <= b < ny {
        let k = place(a, b, nx + 1);
        lemma_place_in_grid(a, b, nx + 1, ny);
        let wt = r.at(g.wu[k]);
        assert(r.is(g.u[k]) && r.is(g.wu[k]));
        if wt > 0real {
            lemma_quotient(r.at(g.u[k]), wt);
        }
    }
    if 0 <= a < nx && 0 <= b < ny + 1 {
        let k = place(a, b, nx);
        lemma_place_in_grid(a, b, nx, ny + 1);
        let wt = r.at(g.wv[k]);
        assert(r.is(g.v[k]) && r.is(g.wv[k]));
        if wt > 0real {
            lemma_quotient(r.at(g.v[k]), wt);
        }
    }
}

/// A field stands for one that grows evenly over the basin, by `b` per unit of length to
/// the right and by `c` upward, its value in column `i` and row `j` being that at
/// `(i + dx, j + dy)` cells of size `h`.
pub open spec fn grows_over_the_basin<T: Scalar>(
    r: Reading<T>,
    field: Seq<T>,
    cols: int,
    rows: int,
    h: T,
    dx: real,
    dy: real,
    a: real,
    b: real,
    c: real,
) -> bool {
    forall|i: int, j: int|
        0 <= i < cols && 0 <= j < rows ==> r.means(
            #[trigger] field[place(i, j, cols)],
            a + b * ((i as real + dx) * r.at(h)) + c * ((j as real + dy) * r.at(h)),
        )
}

/// A step of `h` counted in steps of the grid.
proof fn lemma_rescaled(b: real, i: real, d: real, h: real)
    ensures
        b * ((i + d) * h) == b * (d * h) + (b * h) * i,
{
    lemma_spread(h, i, d);
    lemma_spread(b, i * h, d * h);
    assert(b * (i * h) == (b * h) * i) by (nonlinear_arith);
}

/// A length in units of `h`, and back.
proof fn lemma_scaled_back(b: real, x: real, h: real)
    requires
        h > 0real,
    ensures
        (b * h) * (x / h) == b * x,
{
    let q = x / h;
    assert(q * h == x) by (nonlinear_arith)
        requires
            h > 0real,
            q == x / h,
    ;
    assert((b * h) * q == b * (q * h)) by (nonlinear_arith);
}

/// The staggered grid stands where it should: vertical faces at whole columns and half
/// rows, horizontal ones at half columns and whole rows. A flow that grows evenly over
/// the basin gives every particle the velocity that belongs to where it is.
pub proof fn law_particles_read_the_flow_where_they_are<T: Scalar>(
    r: Reading<T>,
    water: FlipModel<T>,
    i: int,
    a: real,
    b: real,
    c: real,
    d: real,
    e: real,
    f: real,
)
    requires
        r.sound(),
        r.never_rounds(),
        2 <= water.nx < usize::MAX - 1,
        2 <= water.ny < usize::MAX - 1,
        0 <= i < water.pos.len(),
        in_basin(r, water.pos[i], water.nx, water.ny, water.h),
        grows_over_the_basin(
            r,
            water.u,
            water.nx + 1,
            water.ny,
            water.h,
            0real,
            1real / 2real,
            a,
            b,
            c,
        ),
        grows_over_the_basin(
            r,
            water.v,
            water.nx,
            water.ny + 1,
            water.h,
            1real / 2real,
            0real,
            d,
            e,
            f,
        ),
    ensures
        ({
            let p = water.pos[i];
            let g = grid_velocity(water, i);
            &&& r.means(g.x, a + b * r.at(p.x) + c * r.at(p.y))
            &&& r.means(g.y, d + e * r.at(p.x) + f * r.at(p.y))
        }),
{
    let (nx, ny, h) = (water.nx, water.ny, r.at(water.h));
    let p = water.pos[i];
    let half = 1real / 2real;
    lemma_cells_along(r, p.x, nx, water.h);
    lemma_cells_along(r, p.y, ny, water.h);
    let (x, y) = (quot(p.x, water.h), quot(p.y, water.h));
    let (xh, yh) = (diff(x, lit::<T>(1, 2)), diff(y, lit::<T>(1, 2)));
    assert((nx + 1) as real == nx as real + 1real && (ny + 1) as real == ny as real + 1real);
    assert(lies_within(r, x, nx + 1) && lies_within(r, yh, ny));
    assert(lies_within(r, xh, nx) && lies_within(r, y, ny + 1));
    let (zh, hh) = (0real * h, half * h);
    lemma_units(h);
    lemma_units(b);
    lemma_units(f);
    let (a1, d1) = (a + c * hh, d + e * hh);
    assert forall|k: int, j: int| 0 <= k < nx + 1 && 0 <= j < ny implies r.means(
        #[trigger] water.u[place(k, j, nx + 1)],
        a1 + (b * h) * k as real + (c * h) * j as real,
    ) by {
        lemma_rescaled(b, k as real, 0real, h);
        lemma_rescaled(c, j as real, half, h);
    }
    assert forall|k: int, j: int| 0 <= k < nx && 0 <= j < ny + 1 implies r.means(
        #[trigger] water.v[place(k, j, nx)],
        d1 + (e * h) * k as real + (f * h) * j as real,
    ) by {
        lemma_rescaled(e, k as real, half, h);
        lemma_rescaled(f, j as real, 0real, h);
    }
    law_even_fields_are_read_exactly(r, water.u, nx + 1, ny, x, yh, a1, b * h, c * h);
    law_even_fields_are_read_exactly(r, water.v, nx, ny + 1, xh, y, d1, e * h, f * h);
    let (px, py) = (r.at(p.x), r.at(p.y));
    lemma_scaled_back(b, px, h);
    lemma_scaled_back(c, py, h);
    lemma_scaled_back(e, px, h);
    lemma_scaled_back(f, py, h);
    lemma_spread(c * h, py / h, half);
    lemma_spread(e * h, px / h, half);
    assert((c * h) * half == c * hh) by (nonlinear_arith)
        requires
            hh == half * h,
    ;
    assert((e * h) * half == e * hh) by (nonlinear_arith)
        requires
            hh == half * h,
    ;
}

/// `x` lies in the `k`th of the stretches of length `h`, counted from zero.
pub open spec fn in_stretch(x: real, k: int, h: real) -> bool {
    k as real * h <= x && x < (k as real + 1real) * h
}

/// A quotient lies in the same stretch.
proof fn lemma_in_stretch(x: real, k: int, h: real)
    requires
        h > 0real,
    ensures
        in_stretch(x, k, h) <==> (k as real <= x / h && x / h < k as real + 1real),
{
    let q = x / h;
    let c = k as real;
    assert(q * h == x) by (nonlinear_arith)
        requires
            h > 0real,
            q == x / h,
    ;
    if c <= q {
        assert(c * h <= q * h) by (nonlinear_arith)
            requires
                h > 0real,
                c <= q,
        ;
    } else {
        assert(q * h < c * h) by (nonlinear_arith)
            requires
                h > 0real,
                q < c,
        ;
    }
    let e = c + 1real;
    if q < e {
        assert(q * h < e * h) by (nonlinear_arith)
            requires
                h > 0real,
                q < e,
        ;
    } else {
        assert(e * h <= q * h) by (nonlinear_arith)
            requires
                h > 0real,
                e <= q,
        ;
    }
}

/// Particle `p` lies in cell `(a, b)` of a grid of cells of size `h`.
pub open spec fn lies_in_cell<T: Scalar>(r: Reading<T>, p: Vec2<T>, a: int, b: int, h: T) -> bool {
    in_stretch(r.at(p.x), a, r.at(h)) && in_stretch(r.at(p.y), b, r.at(h))
}

/// The cell that a particle occupies is the one that it lies in.
proof fn lemma_occupies<T: Scalar>(
    r: Reading<T>,
    p: Vec2<T>,
    a: int,
    b: int,
    nx: int,
    ny: int,
    h: T,
)
    requires
        r.sound(),
        r.never_rounds(),
        nx < usize::MAX,
        ny < usize::MAX,
        in_basin(r, p, nx, ny, h),
        0 <= a < nx,
        0 <= b < ny,
    ensures
        occupies(p, place(a, b, nx), nx, ny, h) <==> lies_in_cell(r, p, a, b, h),
{
    lemma_cells_along(r, p.x, nx, h);
    lemma_cells_along(r, p.y, ny, h);
    lemma_in_stretch(r.at(p.x), a, r.at(h));
    lemma_in_stretch(r.at(p.y), b, r.at(h));
    let (i, j) = (index(quot(p.x, h)) as int, index(quot(p.y, h)) as int);
    let (x, y) = (r.at(p.x) / r.at(h), r.at(p.y) / r.at(h));
    assert(i as real <= x && x < i as real + 1real);
    assert(j as real <= y && y < j as real + 1real);
    assert(i < nx && j < ny);
    assert((a as real <= x && x < a as real + 1real) <==> a == i);
    assert((b as real <= y && y < b as real + 1real) <==> b == j);
    lemma_col_row_of_place(a, b, nx);
    lemma_col_row_of_place(i, j, nx);
}

/// The cells with water in them are known: once the particles are on the grid, an inner
/// cell counts as fluid if, and only if, a particle lies in it, and none on the border
/// does.
pub proof fn law_cells_with_particles_are_fluid<T: Scalar>(
    r: Reading<T>,
    water: FlipModel<T>,
    a: int,
    b: int,
)
    requires
        r.sound(),
        r.never_rounds(),
        water.valid(),
        0 <= a < water.nx,
        0 <= b < water.ny,
        particles_are_numbers(r, water.pos, water.vel, water.nx, water.ny, water.h),
    ensures
        water.gridded().is_fluid[place(a, b, water.nx)] <==> 1 <= a < water.nx - 1 && 1 <= b
            < water.ny - 1 && exists|i: int|
            0 <= i < water.pos.len() && lies_in_cell(r, #[trigger] water.pos[i], a, b, water.h),
{
    let (nx, ny, h) = (water.nx, water.ny, water.h);
    let k = place(a, b, nx);
    lemma_place_in_grid(a, b, nx, ny);
    lemma_col_row_of_place(a, b, nx);
    assert(r.fits(0i32 as real / 1i32 as real));
    assert(r.fits(1i32 as real / 1i32 as real));
    lemma_literal(r, 0, 1);
    lemma_literal(r, 1, 1);
    let open = lt(lit(0, 1), water.s[k]);
    assert(open <==> (1 <= a < nx - 1 && 1 <= b < ny - 1));
    if exists|i: int| 0 <= i < water.pos.len() && #[trigger] occupies(water.pos[i], k, nx, ny, h) {
        let i = choose|i: int|
            0 <= i < water.pos.len() && #[trigger] occupies(water.pos[i], k, nx, ny, h);
        lemma_occupies(r, water.pos[i], a, b, nx, ny, h);
        assert(lies_in_cell(r, water.pos[i], a, b, h));
    }
    if exists|i: int|
        0 <= i < water.pos.len() && lies_in_cell(r, #[trigger] water.pos[i], a, b, h) {
        let i = choose|i: int|
            0 <= i < water.pos.len() && lies_in_cell(r, #[trigger] water.pos[i], a, b, h);
        lemma_occupies(r, water.pos[i], a, b, nx, ny, h);
        assert(occupies(water.pos[i], k, nx, ny, h));
    }
}

/// A coordinate and a speed along one axis, after a flight to `x` with speed `v` between
/// walls at `lo` and `hi`: stopped at a wall, and as they are in between.
pub open spec fn flown(x: real, v: real, lo: real, hi: real) -> (real, real) {
    if x < lo {
        (lo, 0real)
    } else if x > hi {
        (hi, 0real)
    } else {
        (x, v)
    }
}

/// Particles fly freely between the walls: gravity adds to their velocity, which carries
/// them on for `dt` seconds; the walls, a thousandth of a cell inside the border, stop
/// them.
pub proof fn law_particles_fly_and_stop<T: Scalar>(
    r: Reading<T>,
    water: FlipModel<T>,
    dt: T,
    i: int,
)
    requires
        r.sound(),
        r.never_rounds(),
        water.valid(),
        0 <= i < water.pos.len(),
        r.is_vec(water.pos[i]),
        r.is_vec(water.vel[i]),
        r.is_vec(water.cfg.gravity),
        r.is(dt),
        r.is(water.h),
    ensures
        ({
            let (p, v, g) = (water.pos[i], water.vel[i], water.cfg.gravity);
            let (q, u) = (water.moved(dt).pos[i], water.moved(dt).vel[i]);
            let (t, h) = (r.at(dt), r.at(water.h));
            let (vx, vy) = (r.at(v.x) + r.at(g.x) * t, r.at(v.y) + r.at(g.y) * t);
            let lo = h + h / 1000real;
            let (xhi, yhi) = (
                (water.nx as real - 1real) * h - h / 1000real,
                (water.ny as real - 1real) * h - h / 1000real,
            );
            &&& (r.at(q.x), r.at(u.x)) == flown(r.at(p.x) + vx * t, vx, lo, xhi)
            &&& (r.at(q.y), r.at(u.y)) == flown(r.at(p.y) + vy * t, vy, lo, yhi)
            &&& water.stepped(dt).pos[i] == q
        }),
{
    assert(r.fits(0i32 as real / 1i32 as real));
    assert(r.fits(1i32 as real / 1i32 as real));
    assert(r.fits(1i32 as real / 1000i32 as real));
    lemma_literal(r, 0, 1);
    lemma_literal(r, 1, 1);
    lemma_literal(r, 1, 1000);
    let h = r.at(water.h);
    assert((1real / 1000real) * h == h / 1000real);
    assert(r.means(water.margin(), h / 1000real));
    assert(r.means(water.near_wall(), h + h / 1000real));
    assert(r.fits((water.nx as usize) as real) && r.fits((water.ny as usize) as real));
    assert(r.means(count::<T>(water.nx as usize), water.nx as real));
    assert(r.means(count::<T>(water.ny as usize), water.ny as real));
    assert(r.is(diff(count::<T>(water.nx as usize), lit(1, 1))));
    assert(r.is(diff(count::<T>(water.ny as usize), lit(1, 1))));
    assert(r.is(water.far_wall(water.nx)) && r.is(water.far_wall(water.ny)));
    let g = water.cfg.gravity.mul_of(dt);
    assert(r.is_vec(g));
    let v = water.vel[i].add_of(g);
    assert(r.is_vec(v));
    assert(r.is_vec(v.mul_of(dt)));
    let p = water.pos[i].add_of(v.mul_of(dt));
    assert(r.is_vec(p));
}

} // verus!
