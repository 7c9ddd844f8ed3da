//! Two-dimensional FLIP/PIC water: a liquid with a free surface.
//!
//! Particles carry the fluid and, by where they are, say which cells hold it.
//! The velocities are made free of divergence on a staggered grid. Each step
//!
//! 1. moves the particles, under gravity and between the walls,
//! 2. gathers their velocities on the grid and marks the cells that hold fluid,
//! 3. makes the flow through the fluid cells incompressible; air is left free,
//!    and no water flows through the solid border,
//! 4. reads the grid back to the particles, as a blend of the velocity on the
//!    grid (PIC) and of its change (FLIP).
//!
//! The grid has `nx` by `ny` cells of size `h`. Horizontal velocities `u` stand
//! on the vertical faces, `nx + 1` by `ny` of them; vertical velocities `v` on
//! the horizontal faces, `nx` by `ny + 1`. `y` counts upward.

use crate::layout::{copy_over, filled, overwrite};
use crate::scalar::Scalar;
use crate::vec2::{pairs, vec2, Vec2};
#[allow(unused_imports)]
use crate::layout::{lemma_col_row_of_place, lemma_place_in_grid, place};
#[allow(unused_imports)]
use crate::scalar::{
    clamped, count, diff, eq, exact, index, lit, lt, neg, prod, quot, sum,
};
use crate::sim::MAX_ROWS;
#[allow(unused_imports)]
use crate::sim::walls_apart;
#[allow(unused_imports)]
use crate::vec2::as_vectors;
use vstd::prelude::*;

verus! {

/// Place of the cell in column `i` and row `j` of a grid of `cols` columns.
pub fn idx(i: usize, j: usize, cols: usize) -> (k: usize)
    requires
        place(i as int, j as int, cols as int) <= usize::MAX,
    ensures
        k == place(i as int, j as int, cols as int),
{
    assert(0 <= cols * j) by (nonlinear_arith)
        requires
            0 <= cols,
            0 <= j,
    ;
    i + cols * j
}

/// Bits of `x` scattered over the whole word.
pub open spec fn mixed(x: u32) -> u32 {
    let a = x ^ (x >> 16);
    let b = a.wrapping_mul(0x7feb352d);
    let c = b ^ (b >> 15);
    let d = c.wrapping_mul(0x846ca68b);
    d ^ (d >> 16)
}

/// A number from zero up to one that looks as if it were drawn at random, but
/// depends on `x` alone.
pub open spec fn noise<T: Scalar>(x: u32) -> T {
    quot(count((mixed(x) & 0x00ff_ffff) as usize), lit(0x0100_0000, 1))
}

/// A number from zero up to one that looks as if it were drawn at random, but
/// depends on `x` alone.
pub fn hash<T: Scalar>(x: u32) -> (r: T)
    requires
        exact::<T>(),
    ensures
        r == noise::<T>(x),
{
    let a: u32 = x ^ (x >> 16);
    let b: u32 = a.wrapping_mul(0x7feb352d);
    let c: u32 = b ^ (b >> 15);
    let d: u32 = c.wrapping_mul(0x846ca68b);
    let e: u32 = d ^ (d >> 16);
    T::of_count((e & 0x00ff_ffff) as usize).over(T::ratio(0x0100_0000, 1))
}

/// Where a point lies in a grid of values: the value at its lower left, and how
/// far it is from there towards the next column and the next row.
#[derive(Clone, Copy)]
pub struct Spot<T> {
    pub i: usize,
    pub j: usize,
    pub fx: T,
    pub fy: T,
}

/// Coordinate `x` held to a row of `n` values, short of the last.
pub open spec fn held<T: Scalar>(x: T, n: int) -> T {
    clamped(x, lit(0, 1), diff(diff(count(n as usize), lit(1, 1)), lit(1, 10000)))
}

/// The value at or before `x` in a row of `n` values that has one after it.
pub open spec fn stop_before<T: Scalar>(x: T, n: int) -> usize {
    if index(x) > n - 2 {
        (n - 2) as usize
    } else {
        index(x)
    }
}

/// Where `(gx, gy)` lies in a grid of `cols` by `rows` values.
pub open spec fn spot<T: Scalar>(cols: int, rows: int, gx: T, gy: T) -> Spot<T> {
    let x = held(gx, cols);
    let y = held(gy, rows);
    let i = stop_before(x, cols);
    let j = stop_before(y, rows);
    Spot { i, j, fx: diff(x, count(i)), fy: diff(y, count(j)) }
}

impl<T: Scalar> Spot<T> {
    /// Place of the value to the lower left.
    pub open spec fn corner(self, cols: int) -> int {
        place(self.i as int, self.j as int, cols)
    }

    /// Weight of the value to the lower left.
    pub open spec fn w00(self) -> T {
        prod(diff(lit(1, 1), self.fx), diff(lit(1, 1), self.fy))
    }

    /// Weight of the value to the lower right.
    pub open spec fn w10(self) -> T {
        prod(self.fx, diff(lit(1, 1), self.fy))
    }

    /// Weight of the value to the upper left.
    pub open spec fn w01(self) -> T {
        prod(diff(lit(1, 1), self.fx), self.fy)
    }

    /// Weight of the value to the upper right.
    pub open spec fn w11(self) -> T {
        prod(self.fx, self.fy)
    }

    /// The spot has a value on each of its four sides.
    pub open spec fn inside(self, cols: int, rows: int) -> bool {
        self.i + 1 < cols && self.j + 1 < rows
    }
}

/// `field` with `amount` added at place `k`.
pub open spec fn raised<T: Scalar>(field: Seq<T>, k: int, amount: T) -> Seq<T> {
    field.update(k, sum(field[k], amount))
}

/// `field` with `val` shared out over the four values around a spot.
pub open spec fn scattered<T: Scalar>(field: Seq<T>, cols: int, at: Spot<T>, val: T) -> Seq<T> {
    let k = at.corner(cols);
    let f1 = raised(field, k, prod(at.w00(), val));
    let f2 = raised(f1, k + 1, prod(at.w10(), val));
    let f3 = raised(f2, k + cols, prod(at.w01(), val));
    raised(f3, k + cols + 1, prod(at.w11(), val))
}

/// `wt` with the weights of the four values around a spot added to theirs.
pub open spec fn weighted<T: Scalar>(wt: Seq<T>, cols: int, at: Spot<T>) -> Seq<T> {
    let k = at.corner(cols);
    let w1 = raised(wt, k, at.w00());
    let w2 = raised(w1, k + 1, at.w10());
    let w3 = raised(w2, k + cols, at.w01());
    raised(w3, k + cols + 1, at.w11())
}

/// Value of `field` at a spot, in between the four values around it.
pub open spec fn sampled<T: Scalar>(field: Seq<T>, cols: int, at: Spot<T>) -> T {
    let k = at.corner(cols);
    sum(
        sum(
            sum(prod(at.w00(), field[k]), prod(at.w10(), field[k + 1])),
            prod(at.w01(), field[k + cols]),
        ),
        prod(at.w11(), field[k + cols + 1]),
    )
}

/// The four values around a spot lie in the grid.
pub(crate) proof fn lemma_corners<T: Scalar>(at: Spot<T>, cols: int, rows: int)
    requires
        at.inside(cols, rows),
    ensures
        0 <= at.corner(cols),
        at.corner(cols) + cols + 1 < cols * rows,
        place(at.i + 1, at.j as int, cols) == at.corner(cols) + 1,
        place(at.i as int, at.j + 1, cols) == at.corner(cols) + cols,
        place(at.i + 1, at.j + 1, cols) == at.corner(cols) + cols + 1,
{
    lemma_place_in_grid(at.i as int, at.j as int, cols, rows);
    lemma_place_in_grid(at.i + 1, at.j + 1, cols, rows);
    assert(cols * (at.j + 1) == cols * at.j + cols) by (nonlinear_arith);
}

/// Where `(gx, gy)` lies in a grid of `cols` by `rows` values.
fn locate<T: Scalar>(cols: usize, rows: usize, gx: T, gy: T) -> (at: Spot<T>)
    requires
        exact::<T>(),
        cols >= 2,
        rows >= 2,
    ensures
        at == spot(cols as int, rows as int, gx, gy),
        at.inside(cols as int, rows as int),
{
    let zero: T = T::ratio(0, 1);
    let x: T = gx.clamp(zero, T::of_count(cols).minus(T::ratio(1, 1)).minus(T::ratio(1, 10000)));
    let y: T = gy.clamp(zero, T::of_count(rows).minus(T::ratio(1, 1)).minus(T::ratio(1, 10000)));
    let i: usize = if x.to_index() > cols - 2 {
        cols - 2
    } else {
        x.to_index()
    };
    let j: usize = if y.to_index() > rows - 2 {
        rows - 2
    } else {
        y.to_index()
    };
    Spot { i, j, fx: x.minus(T::of_count(i)), fy: y.minus(T::of_count(j)) }
}

/// Add `amount` at place `k`.
fn raise<T: Scalar>(field: &mut Vec<T>, k: usize, amount: T)
    requires
        exact::<T>(),
        k < old(field)@.len(),
    ensures
        final(field)@ == raised(old(field)@, k as int, amount),
{
    let value: T = field[k].plus(amount);
    field.set(k, value);
}

/// Share `val` out over the four values around `(gx, gy)` in a grid of `cols` by
/// `rows` values, and keep count of the weights.
pub fn splat<T: Scalar>(
    field: &mut Vec<T>,
    wt: &mut Vec<T>,
    cols: usize,
    rows: usize,
    gx: T,
    gy: T,
    val: T,
)
    requires
        exact::<T>(),
        cols >= 2,
        rows >= 2,
        old(field)@.len() == cols * rows,
        old(wt)@.len() == cols * rows,
    ensures
        final(field)@ == scattered(
            old(field)@,
            cols as int,
            spot(cols as int, rows as int, gx, gy),
            val,
        ),
        final(wt)@ == weighted(old(wt)@, cols as int, spot(cols as int, rows as int, gx, gy)),
        final(field)@.len() == old(field)@.len(),
        final(wt)@.len() == old(wt)@.len(),
{
    let at: Spot<T> = locate(cols, rows, gx, gy);
    proof {
        lemma_corners(at, cols as int, rows as int);
        assert(field.len() == field@.len());
    }
    let one: T = T::ratio(1, 1);
    let w00: T = one.minus(at.fx).times(one.minus(at.fy));
    let w10: T = at.fx.times(one.minus(at.fy));
    let w01: T = one.minus(at.fx).times(at.fy);
    let w11: T = at.fx.times(at.fy);
    let k00: usize = idx(at.i, at.j, cols);
    let k10: usize = idx(at.i + 1, at.j, cols);
    let k01: usize = idx(at.i, at.j + 1, cols);
    let k11: usize = idx(at.i + 1, at.j + 1, cols);
    raise(field, k00, w00.times(val));
    raise(wt, k00, w00);
    raise(field, k10, w10.times(val));
    raise(wt, k10, w10);
    raise(field, k01, w01.times(val));
    raise(wt, k01, w01);
    raise(field, k11, w11.times(val));
    raise(wt, k11, w11);
}

/// Value at `(gx, gy)` of a grid of `cols` by `rows` values, in between the four
/// values around it.
pub fn sample<T: Scalar>(field: &Vec<T>, cols: usize, rows: usize, gx: T, gy: T) -> (value: T)
    requires
        exact::<T>(),
        cols >= 2,
        rows >= 2,
        field@.len() == cols * rows,
    ensures
        value == sampled(field@, cols as int, spot(cols as int, rows as int, gx, gy)),
{
    let at: Spot<T> = locate(cols, rows, gx, gy);
    proof {
        lemma_corners(at, cols as int, rows as int);
        assert(field.len() == field@.len());
    }
    let one: T = T::ratio(1, 1);
    let f00: T = field[idx(at.i, at.j, cols)];
    let f10: T = field[idx(at.i + 1, at.j, cols)];
    let f01: T = field[idx(at.i, at.j + 1, cols)];
    let f11: T = field[idx(at.i + 1, at.j + 1, cols)];
    one.minus(at.fx).times(one.minus(at.fy)).times(f00).plus(
        at.fx.times(one.minus(at.fy)).times(f10),
    ).plus(one.minus(at.fx).times(at.fy).times(f01)).plus(at.fx.times(at.fy).times(f11))
}

/// The velocities on the faces of the cells.
#[verifier::ext_equal]
pub struct Faces<T> {
    pub u: Seq<T>,
    pub v: Seq<T>,
}

/// What the pressure solver goes by: the extent of the grid, which cells are
/// open, which hold fluid, and how far it overshoots.
#[verifier::ext_equal]
pub struct Basin<T> {
    pub nx: int,
    pub ny: int,
    pub s: Seq<T>,
    pub is_fluid: Seq<bool>,
    pub over_relax: T,
}

impl<T: Scalar> Basin<T> {
    /// How many of the cells around `(i, j)` are open.
    pub open spec fn openings(self, i: int, j: int) -> T {
        let s = self.s;
        sum(
            sum(
                sum(s[place(i - 1, j, self.nx)], s[place(i + 1, j, self.nx)]),
                s[place(i, j - 1, self.nx)],
            ),
            s[place(i, j + 1, self.nx)],
        )
    }

    /// How much more flows out of cell `(i, j)` than in.
    pub open spec fn outflow(self, f: Faces<T>, i: int, j: int) -> T {
        let w = self.nx + 1;
        diff(
            sum(
                diff(f.u[place(i + 1, j, w)], f.u[place(i, j, w)]),
                f.v[place(i, j + 1, self.nx)],
            ),
            f.v[place(i, j, self.nx)],
        )
    }

    /// Whether cell `(i, j)` is on the border, which is solid.
    pub open spec fn solid(self, i: int, j: int) -> bool {
        i <= 0 || i >= self.nx - 1 || j <= 0 || j >= self.ny - 1
    }

    /// The flow with the faces between cell `(i, j)` and the border shut.
    pub open spec fn shut(self, f: Faces<T>, i: int, j: int) -> Faces<T> {
        let w = self.nx + 1;
        let n = self.nx;
        let zero = lit::<T>(0, 1);
        let u1 = if self.solid(i - 1, j) {
            f.u.update(place(i, j, w), zero)
        } else {
            f.u
        };
        let v1 = if self.solid(i, j - 1) {
            f.v.update(place(i, j, n), zero)
        } else {
            f.v
        };
        Faces {
            u: if self.solid(i + 1, j) {
                u1.update(place(i + 1, j, w), zero)
            } else {
                u1
            },
            v: if self.solid(i, j + 1) {
                v1.update(place(i, j + 1, n), zero)
            } else {
                v1
            },
        }
    }

    /// The flow with pressure `p` let out of cell `(i, j)` through its open sides.
    pub open spec fn vented(self, f: Faces<T>, i: int, j: int, p: T) -> Faces<T> {
        let w = self.nx + 1;
        let n = self.nx;
        let u1 = if self.solid(i - 1, j) {
            f.u
        } else {
            f.u.update(
                place(i, j, w),
                diff(f.u[place(i, j, w)], prod(self.s[place(i - 1, j, n)], p)),
            )
        };
        let v1 = if self.solid(i, j - 1) {
            f.v
        } else {
            f.v.update(
                place(i, j, n),
                diff(f.v[place(i, j, n)], prod(self.s[place(i, j - 1, n)], p)),
            )
        };
        Faces {
            u: if self.solid(i + 1, j) {
                u1
            } else {
                u1.update(
                    place(i + 1, j, w),
                    sum(u1[place(i + 1, j, w)], prod(self.s[place(i + 1, j, n)], p)),
                )
            },
            v: if self.solid(i, j + 1) {
                v1
            } else {
                v1.update(
                    place(i, j + 1, n),
                    sum(v1[place(i, j + 1, n)], prod(self.s[place(i, j + 1, n)], p)),
                )
            },
        }
    }

    /// The flow once cell `(i, j)` has shut its faces to the border and pushed its
    /// surplus out through its open sides. Cells without fluid do nothing, and
    /// cells that are closed in have nowhere to push it.
    pub open spec fn eased_cell(self, f: Faces<T>, i: int, j: int) -> Faces<T> {
        let g = self.shut(f, i, j);
        if !self.is_fluid[place(i, j, self.nx)] {
            f
        } else if eq(self.openings(i, j), lit(0, 1)) {
            g
        } else {
            let p = prod(
                quot(neg(self.outflow(g, i, j)), self.openings(i, j)),
                self.over_relax,
            );
            self.vented(g, i, j, p)
        }
    }

    /// The flow once the inner cells of row `j` before column `i` have been
    /// eased, from left to right.
    pub open spec fn eased_row(self, f: Faces<T>, j: int, i: int) -> Faces<T>
        decreases i,
    {
        if i <= 1 {
            f
        } else {
            self.eased_cell(self.eased_row(f, j, i - 1), i - 1, j)
        }
    }

    /// The flow once the inner cells of the rows before row `j` have been eased,
    /// row by row.
    pub open spec fn eased_rows(self, f: Faces<T>, j: int) -> Faces<T>
        decreases j,
    {
        if j <= 1 {
            f
        } else {
            self.eased_row(self.eased_rows(f, j - 1), j - 1, self.nx - 1)
        }
    }

    /// The flow after the given number of sweeps over all inner cells.
    pub open spec fn eased(self, f: Faces<T>, sweeps: nat) -> Faces<T>
        decreases sweeps,
    {
        if sweeps == 0 {
            f
        } else {
            self.eased_rows(self.eased(f, (sweeps - 1) as nat), self.ny - 1)
        }
    }
}

/// Settings of the solver.
#[derive(Clone, Copy)]
pub struct Flip<T> {
    /// Gravity, in units of length per second squared.
    pub gravity: [T; 2],
    /// From zero, which is pure PIC and damped, to one, which is pure FLIP and
    /// lively.
    pub flip_ratio: T,
    /// How far the pressure solver overshoots.
    pub over_relax: T,
    /// Sweeps of the pressure solver per step.
    pub iters: usize,
}

/// Settings of the solver, with gravity as a vector.
pub struct FlipSettings<T> {
    pub gravity: Vec2<T>,
    pub flip_ratio: T,
    pub over_relax: T,
    pub iters: nat,
}

impl<T: Scalar> View for Flip<T> {
    type V = FlipSettings<T>;

    open spec fn view(&self) -> FlipSettings<T> {
        FlipSettings {
            gravity: Vec2 { x: self.gravity[0], y: self.gravity[1] },
            flip_ratio: self.flip_ratio,
            over_relax: self.over_relax,
            iters: self.iters as nat,
        }
    }
}

impl<T: Scalar> FlipSettings<T> {
    /// The settings that the water starts with.
    pub open spec fn preset() -> FlipSettings<T> {
        FlipSettings {
            gravity: Vec2 { x: lit(0, 1), y: neg(lit(9, 1)) },
            flip_ratio: lit(9, 10),
            over_relax: lit(19, 10),
            iters: 50,
        }
    }
}

/// Coordinate and velocity along one axis, stopped at the walls at `lo` and
/// `hi`.
pub open spec fn stopped<T: Scalar>(x: T, v: T, lo: T, hi: T) -> (T, T) {
    if lt(x, lo) {
        (lo, lit(0, 1))
    } else if lt(hi, x) {
        (hi, lit(0, 1))
    } else {
        (x, v)
    }
}

/// Particle number `at` of the starting block: a little off its place in the
/// lattice.
pub open spec fn jittered<T: Scalar>(x: T, y: T, step: T, at: nat) -> Vec2<T> {
    let n = at as u32;
    let jx = prod(prod(diff(noise(n), lit(1, 2)), step), lit(3, 10));
    let jy = prod(prod(diff(noise(n ^ 0x9e37), lit(1, 2)), step), lit(3, 10));
    Vec2 { x: sum(x, jx), y: sum(y, jy) }
}

/// Particles of one row of the starting block: from `x` on, a step apart, as
/// long as the lattice lies left of `x1`. The first is number `at` of the block,
/// and no row has more than `room` of them.
pub open spec fn row_from<T: Scalar>(x: T, y: T, x1: T, step: T, at: nat, room: nat) -> Seq<Vec2<T>>
    decreases room,
{
    if room == 0 || !lt(x, x1) {
        seq![]
    } else {
        seq![jittered(x, y, step, at)] + row_from(
            sum(x, step),
            y,
            x1,
            step,
            at + 1,
            (room - 1) as nat,
        )
    }
}

/// Where row `r` of the starting block begins. Every other row is shifted by
/// half a step.
pub open spec fn row_start<T: Scalar>(x0: T, step: T, r: nat) -> T {
    sum(
        x0,
        if r % 2 == 0 {
            lit(0, 1)
        } else {
            prod(step, lit(1, 2))
        },
    )
}

/// Rows of the starting block from row `r` at `y` on, a step apart, as long as
/// they lie below `y1`. The first particle is number `at` of the block.
pub open spec fn rows_from<T: Scalar>(
    y: T,
    r: nat,
    x0: T,
    x1: T,
    y1: T,
    step: T,
    at: nat,
) -> Seq<Vec2<T>>
    decreases MAX_ROWS - r,
{
    if r >= MAX_ROWS || !lt(y, y1) {
        seq![]
    } else {
        let line = row_from(row_start(x0, step, r), y, x1, step, at, usize::MAX as nat);
        line + rows_from(sum(y, step), r + 1, x0, x1, y1, step, at + line.len())
    }
}

/// Length of `n` cells of size `h`.
pub open spec fn stretch<T: Scalar>(n: int, h: T) -> T {
    prod(count(n as usize), h)
}

/// The starting block: the lower left of the basin, four particles to a cell.
pub open spec fn block<T: Scalar>(nx: int, ny: int, h: T) -> Seq<Vec2<T>> {
    let w = stretch(nx, h);
    let hgt = stretch(ny, h);
    rows_from(
        prod(hgt, lit(6, 100)),
        0,
        prod(w, lit(6, 100)),
        prod(w, lit(45, 100)),
        prod(hgt, lit(6, 10)),
        prod(h, lit(1, 2)),
        0,
    )
}

/// Whether cell `k` of a grid of `nx` by `ny` cells is on its border.
pub open spec fn on_border(k: int, nx: int, ny: int) -> bool {
    ||| k % nx == 0
    ||| k % nx == nx - 1
    ||| k / nx == 0
    ||| k / nx == ny - 1
}

/// The open cells of a basin: all but its border, which is solid.
pub open spec fn open_cells<T: Scalar>(nx: int, ny: int) -> Seq<T> {
    Seq::new(
        (nx * ny) as nat,
        |k: int|
            if on_border(k, nx, ny) {
                lit(0, 1)
            } else {
                lit(1, 1)
            },
    )
}

/// Velocities summed up on the faces, with their weights.
#[verifier::ext_equal]
pub struct Sums<T> {
    pub u: Seq<T>,
    pub wu: Seq<T>,
    pub v: Seq<T>,
    pub wv: Seq<T>,
}

/// Where on the vertical faces a particle at `p` lies.
pub open spec fn spot_u<T: Scalar>(p: Vec2<T>, nx: int, ny: int, h: T) -> Spot<T> {
    spot(nx + 1, ny, quot(p.x, h), diff(quot(p.y, h), lit(1, 2)))
}

/// Where on the horizontal faces a particle at `p` lies.
pub open spec fn spot_v<T: Scalar>(p: Vec2<T>, nx: int, ny: int, h: T) -> Spot<T> {
    spot(nx, ny + 1, diff(quot(p.x, h), lit(1, 2)), quot(p.y, h))
}

/// What the first `upto` particles add up to on the faces.
pub open spec fn gathered<T: Scalar>(
    pos: Seq<Vec2<T>>,
    vel: Seq<Vec2<T>>,
    nx: int,
    ny: int,
    h: T,
    upto: nat,
) -> Sums<T>
    decreases upto,
{
    if upto == 0 {
        Sums {
            u: Seq::new(((nx + 1) * ny) as nat, |k: int| lit(0, 1)),
            wu: Seq::new(((nx + 1) * ny) as nat, |k: int| lit(0, 1)),
            v: Seq::new((nx * (ny + 1)) as nat, |k: int| lit(0, 1)),
            wv: Seq::new((nx * (ny + 1)) as nat, |k: int| lit(0, 1)),
        }
    } else {
        let before = gathered(pos, vel, nx, ny, h, (upto - 1) as nat);
        let p = pos[upto - 1];
        let v = vel[upto - 1];
        Sums {
            u: scattered(before.u, nx + 1, spot_u(p, nx, ny, h), v.x),
            wu: weighted(before.wu, nx + 1, spot_u(p, nx, ny, h)),
            v: scattered(before.v, nx, spot_v(p, nx, ny, h), v.y),
            wv: weighted(before.wv, nx, spot_v(p, nx, ny, h)),
        }
    }
}

/// Sums divided by their weights, where there is any.
pub open spec fn averaged<T: Scalar>(total: Seq<T>, wt: Seq<T>) -> Seq<T> {
    Seq::new(
        total.len(),
        |k: int|
            if lt(lit(0, 1), wt[k]) {
                quot(total[k], wt[k])
            } else {
                total[k]
            },
    )
}

/// Whether a particle at `p` is in cell `k` of the grid.
pub open spec fn occupies<T: Scalar>(p: Vec2<T>, k: int, nx: int, ny: int, h: T) -> bool {
    let i = index(quot(p.x, h)) as int;
    let j = index(quot(p.y, h)) as int;
    i < nx && j < ny && place(i, j, nx) == k
}

/// The cells that hold fluid: open ones with one of the first `upto` particles
/// in them.
pub open spec fn wet_cells<T: Scalar>(
    pos: Seq<Vec2<T>>,
    s: Seq<T>,
    nx: int,
    ny: int,
    h: T,
    upto: int,
) -> Seq<bool> {
    Seq::new(
        (nx * ny) as nat,
        |k: int|
            lt(lit(0, 1), s[k]) && exists|i: int|
                0 <= i < upto && #[trigger] occupies(pos[i], k, nx, ny, h),
    )
}

/// The water: its particles, and the grid that its flow is solved on.
#[verifier::ext_equal]
pub struct FlipModel<T> {
    pub cfg: FlipSettings<T>,
    pub nx: int,
    pub ny: int,
    pub h: T,
    pub pos: Seq<Vec2<T>>,
    pub vel: Seq<Vec2<T>>,
    pub u: Seq<T>,
    pub v: Seq<T>,
    pub u_prev: Seq<T>,
    pub v_prev: Seq<T>,
    pub wu: Seq<T>,
    pub wv: Seq<T>,
    pub s: Seq<T>,
    pub is_fluid: Seq<bool>,
}

impl<T: Scalar> FlipModel<T> {
    /// Every particle has a velocity, every face and every cell has its values,
    /// and the open cells are those of a basin with a solid border.
    pub open spec fn valid(self) -> bool {
        &&& 0 <= self.nx < usize::MAX
        &&& 0 <= self.ny < usize::MAX
        &&& (self.nx + 1) * self.ny <= usize::MAX
        &&& self.nx * (self.ny + 1) <= usize::MAX
        &&& self.vel.len() == self.pos.len()
        &&& self.u.len() == (self.nx + 1) * self.ny
        &&& self.u_prev.len() == self.u.len()
        &&& self.wu.len() == self.u.len()
        &&& self.v.len() == self.nx * (self.ny + 1)
        &&& self.v_prev.len() == self.v.len()
        &&& self.wv.len() == self.v.len()
        &&& self.s == open_cells::<T>(self.nx, self.ny)
        &&& self.is_fluid.len() == self.nx * self.ny
    }

    /// A step can be made: where there are particles, the grid has room to put
    /// their velocities in between its values, and its inner cells can be
    /// counted.
    pub open spec fn can_step(self) -> bool {
        &&& self.pos.len() > 0 ==> self.nx >= 2 && self.ny >= 2
        &&& self.cfg.iters > 0 ==> self.ny >= 1 && (self.ny >= 3 ==> self.nx >= 1)
    }

    /// The particles back in the starting block, at rest.
    pub open spec fn spawned(self) -> FlipModel<T> {
        let pos = block(self.nx, self.ny, self.h);
        FlipModel { pos, vel: Seq::new(pos.len(), |i: int| Vec2::origin()), ..self }
    }

    /// The water that a basin of `nx` by `ny` cells of size `h` starts with.
    pub open spec fn initial(nx: int, ny: int, h: T) -> FlipModel<T> {
        let u = Seq::new(((nx + 1) * ny) as nat, |k: int| lit::<T>(0, 1));
        let v = Seq::new((nx * (ny + 1)) as nat, |k: int| lit::<T>(0, 1));
        FlipModel {
            cfg: FlipSettings::preset(),
            nx,
            ny,
            h,
            pos: seq![],
            vel: seq![],
            u,
            v,
            u_prev: u,
            v_prev: v,
            wu: u,
            wv: v,
            s: open_cells(nx, ny),
            is_fluid: Seq::new((nx * ny) as nat, |k: int| false),
        }.spawned()
    }

    /// The same velocity added to every particle.
    pub open spec fn shaken(self, dv: Vec2<T>) -> FlipModel<T> {
        FlipModel { vel: Seq::new(self.vel.len(), |i: int| self.vel[i].add_of(dv)), ..self }
    }

    /// Whether particle `i` is within `radius` of `c`.
    pub open spec fn within(self, i: int, c: Vec2<T>, radius: T) -> bool {
        let d = self.pos[i].sub_of(c);
        lt(d.dot_of(d), prod(radius, radius))
    }

    /// A velocity added to the particles within `radius` of `c`.
    pub open spec fn nudged(self, c: Vec2<T>, dv: Vec2<T>, radius: T) -> FlipModel<T> {
        FlipModel {
            vel: Seq::new(
                self.vel.len(),
                |i: int|
                    if self.within(i, c, radius) {
                        self.vel[i].add_of(dv)
                    } else {
                        self.vel[i]
                    },
            ),
            ..self
        }
    }

    /// How far the particles keep off the walls.
    pub open spec fn margin(self) -> T {
        prod(lit(1, 1000), self.h)
    }

    /// The left and the lower wall.
    pub open spec fn near_wall(self) -> T {
        sum(self.h, self.margin())
    }

    /// The right wall, or the upper one, of `n` cells.
    pub open spec fn far_wall(self, n: int) -> T {
        diff(prod(diff(count(n as usize), lit(1, 1)), self.h), self.margin())
    }

    /// Position and velocity of particle `i` after `dt` seconds of free flight
    /// between the walls.
    pub open spec fn flight(self, i: int, dt: T) -> (Vec2<T>, Vec2<T>) {
        let v = self.vel[i].add_of(self.cfg.gravity.mul_of(dt));
        let p = self.pos[i].add_of(v.mul_of(dt));
        let x = stopped(p.x, v.x, self.near_wall(), self.far_wall(self.nx));
        let y = stopped(p.y, v.y, self.near_wall(), self.far_wall(self.ny));
        (Vec2 { x: x.0, y: y.0 }, Vec2 { x: x.1, y: y.1 })
    }

    /// Every particle moved on by `dt` seconds.
    pub open spec fn moved(self, dt: T) -> FlipModel<T> {
        FlipModel {
            pos: Seq::new(self.pos.len(), |i: int| self.flight(i, dt).0),
            vel: Seq::new(self.vel.len(), |i: int| self.flight(i, dt).1),
            ..self
        }
    }

    /// The velocities of the particles on the grid, and the cells that hold
    /// fluid marked.
    pub open spec fn gridded(self) -> FlipModel<T> {
        let total = gathered(self.pos, self.vel, self.nx, self.ny, self.h, self.pos.len());
        let u = averaged(total.u, total.wu);
        let v = averaged(total.v, total.wv);
        FlipModel {
            u,
            v,
            u_prev: u,
            v_prev: v,
            wu: total.wu,
            wv: total.wv,
            is_fluid: wet_cells(
                self.pos,
                self.s,
                self.nx,
                self.ny,
                self.h,
                self.pos.len() as int,
            ),
            ..self
        }
    }

    /// What the pressure solver goes by.
    pub open spec fn basin(self) -> Basin<T> {
        Basin {
            nx: self.nx,
            ny: self.ny,
            s: self.s,
            is_fluid: self.is_fluid,
            over_relax: self.cfg.over_relax,
        }
    }

    /// The flow through the fluid cells made incompressible.
    pub open spec fn solved(self) -> FlipModel<T> {
        let f = self.basin().eased(Faces { u: self.u, v: self.v }, self.cfg.iters);
        FlipModel { u: f.u, v: f.v, ..self }
    }

    /// Velocity of particle `i`, read off the grid: `flip_ratio` parts of its own
    /// velocity with the change on the grid, the rest the velocity on the grid.
    pub open spec fn velocity_read(self, i: int) -> Vec2<T> {
        let at_u = spot_u(self.pos[i], self.nx, self.ny, self.h);
        let at_v = spot_v(self.pos[i], self.nx, self.ny, self.h);
        let now = Vec2 {
            x: sampled(self.u, self.nx + 1, at_u),
            y: sampled(self.v, self.nx, at_v),
        };
        let was = Vec2 {
            x: sampled(self.u_prev, self.nx + 1, at_u),
            y: sampled(self.v_prev, self.nx, at_v),
        };
        let flip = self.vel[i].add_of(now.sub_of(was));
        let a = self.cfg.flip_ratio;
        flip.mul_by(a).add_of(now.mul_by(diff(lit(1, 1), a)))
    }

    /// The velocities read back from the grid.
    pub open spec fn read_back(self) -> FlipModel<T> {
        FlipModel { vel: Seq::new(self.vel.len(), |i: int| self.velocity_read(i)), ..self }
    }

    /// The water after `n` steps of `dt` seconds.
    pub open spec fn run(self, n: nat, dt: T) -> FlipModel<T>
        decreases n,
    {
        if n == 0 {
            self
        } else {
            self.run((n - 1) as nat, dt).stepped(dt)
        }
    }

    /// The water `dt` seconds later.
    pub open spec fn stepped(self, dt: T) -> FlipModel<T> {
        self.moved(dt).gridded().solved().read_back()
    }
}

/// The water: settings, particles, and the grid.
pub struct FlipSim<T> {
    cfg: Flip<T>,
    nx: usize,
    ny: usize,
    h: T,
    pos: Vec<Vec2<T>>,
    vel: Vec<Vec2<T>>,
    u: Vec<T>,
    v: Vec<T>,
    u_prev: Vec<T>,
    v_prev: Vec<T>,
    wu: Vec<T>,
    wv: Vec<T>,
    s: Vec<T>,
    is_fluid: Vec<bool>,
}

impl<T: Scalar> View for FlipSim<T> {
    type V = FlipModel<T>;

    closed spec fn view(&self) -> FlipModel<T> {
        FlipModel {
            cfg: self.cfg@,
            nx: self.nx as int,
            ny: self.ny as int,
            h: self.h,
            pos: self.pos@,
            vel: self.vel@,
            u: self.u@,
            v: self.v@,
            u_prev: self.u_prev@,
            v_prev: self.v_prev@,
            wu: self.wu@,
            wv: self.wv@,
            s: self.s@,
            is_fluid: self.is_fluid@,
        }
    }
}

impl<T: Scalar> FlipSim<T> {
    /// The arrays have the sizes that the grid and the particles ask for.
    pub open spec fn valid(self) -> bool {
        self@.valid()
    }

    /// Basin of `nx` by `ny` cells of size `h`, with a block of water in its
    /// lower left.
    pub fn new(nx: usize, ny: usize, h: T) -> (sim: Self)
        requires
            exact::<T>(),
            nx < usize::MAX,
            ny < usize::MAX,
            (nx + 1) * ny <= usize::MAX,
            nx * (ny + 1) <= usize::MAX,
        ensures
            sim@ == FlipModel::<T>::initial(nx as int, ny as int, h),
            sim.valid(),
    {
        proof {
            assert(nx * ny <= (nx + 1) * ny) by (nonlinear_arith)
                requires
                    0 <= ny,
            ;
        }
        let zero: T = T::ratio(0, 1);
        let gravity: [T; 2] = [zero, T::ratio(9, 1).negate()];
        let mut sim: FlipSim<T> = FlipSim {
            cfg: Flip {
                gravity,
                flip_ratio: T::ratio(9, 10),
                over_relax: T::ratio(19, 10),
                iters: 50,
            },
            nx,
            ny,
            h,
            pos: Vec::new(),
            vel: Vec::new(),
            u: filled(zero, (nx + 1) * ny),
            v: filled(zero, nx * (ny + 1)),
            u_prev: filled(zero, (nx + 1) * ny),
            v_prev: filled(zero, nx * (ny + 1)),
            wu: filled(zero, (nx + 1) * ny),
            wv: filled(zero, nx * (ny + 1)),
            s: carve(nx, ny),
            is_fluid: filled(false, nx * ny),
        };
        sim.spawn_block();
        assert(sim@ =~= FlipModel::<T>::initial(nx as int, ny as int, h));
        sim
    }

    /// The settings, to be changed.
    pub fn config(&mut self) -> (cfg: &mut Flip<T>)
        ensures
            (*cfg)@ == old(self)@.cfg,
            final(self)@ == (FlipModel { cfg: (*final(cfg))@, ..old(self)@ }),
    {
        &mut self.cfg
    }

    /// Number of particles.
    pub fn len(&self) -> (n: usize)
        ensures
            n == self@.pos.len(),
    {
        self.pos.len()
    }

    /// Whether there are no particles.
    pub fn is_empty(&self) -> (none: bool)
        ensures
            none == (self@.pos.len() == 0),
    {
        self.pos.len() == 0
    }

    /// Width and height of the basin.
    pub fn domain(&self) -> (d: (T, T))
        requires
            exact::<T>(),
        ensures
            d.0 == stretch(self@.nx, self@.h),
            d.1 == stretch(self@.ny, self@.h),
    {
        (T::of_count(self.nx).times(self.h), T::of_count(self.ny).times(self.h))
    }

    /// Positions and velocities of the particles.
    pub fn particles(&self) -> (list: Vec<([T; 2], [T; 2])>)
        requires
            self.valid(),
        ensures
            list@.len() == self@.pos.len(),
            forall|i: int|
                0 <= i < list@.len() ==> (#[trigger] list@[i]).0@ == seq![
                    self@.pos[i].x,
                    self@.pos[i].y,
                ] && list@[i].1@ == seq![self@.vel[i].x, self@.vel[i].y],
    {
        let mut list: Vec<([T; 2], [T; 2])> = Vec::new();
        let mut i: usize = 0;
        while i < self.pos.len()
            invariant
                self.valid(),
                i <= self.pos@.len(),
                list@.len() == i,
                forall|k: int|
                    0 <= k < i ==> (#[trigger] list@[k]).0@ == seq![
                        self.pos@[k].x,
                        self.pos@[k].y,
                    ] && list@[k].1@ == seq![self.vel@[k].x, self.vel@[k].y],
            decreases self.pos.len() - i,
        {
            let p: [T; 2] = [self.pos[i].x, self.pos[i].y];
            let v: [T; 2] = [self.vel[i].x, self.vel[i].y];
            assert(p@ =~= seq![self.pos@[i as int].x, self.pos@[i as int].y]);
            assert(v@ =~= seq![self.vel@[i as int].x, self.vel@[i as int].y]);
            list.push((p, v));
            i = i + 1;
        }
        list
    }

    /// Positions as pairs of coordinates.
    pub fn positions_xy(&self) -> (xy: Vec<[T; 2]>)
        ensures
            as_vectors(xy@) == self@.pos,
    {
        pairs(&self.pos)
    }

    /// Velocities as pairs of components.
    pub fn velocities_xy(&self) -> (xy: Vec<[T; 2]>)
        ensures
            as_vectors(xy@) == self@.vel,
    {
        pairs(&self.vel)
    }

    /// Put the particles back into the starting block, at rest.
    pub fn reset(&mut self)
        requires
            exact::<T>(),
        ensures
            final(self)@ == old(self)@.spawned(),
            old(self).valid() ==> final(self).valid(),
    {
        self.spawn_block();
    }

    /// Add the same velocity to every particle.
    pub fn add_impulse(&mut self, dvx: T, dvy: T)
        requires
            exact::<T>(),
        ensures
            final(self)@ == old(self)@.shaken(Vec2 { x: dvx, y: dvy }),
            old(self).valid() ==> final(self).valid(),
    {
        let dv: Vec2<T> = vec2(dvx, dvy);
        let n: usize = self.vel.len();
        let ghost before = self@;
        let mut i: usize = 0;
        while i < n
            invariant
                exact::<T>(),
                i <= n,
                n == self.vel@.len(),
                n == before.vel.len(),
                self@ == (FlipModel { vel: self.vel@, ..before }),
                forall|k: int| 0 <= k < i ==> #[trigger] self.vel@[k] == before.vel[k].add_of(dv),
                forall|k: int| i <= k < n ==> #[trigger] self.vel@[k] == before.vel[k],
            decreases n - i,
        {
            let v: Vec2<T> = self.vel[i];
            self.vel.set(i, v.plus(dv));
            i = i + 1;
        }
        assert(self.vel@ =~= before.shaken(dv).vel);
    }

    /// Add a velocity to the particles within `radius` of a point.
    pub fn push(&mut self, x: T, y: T, dvx: T, dvy: T, radius: T)
        requires
            exact::<T>(),
            old(self).valid(),
        ensures
            final(self)@ == old(self)@.nudged(Vec2 { x, y }, Vec2 { x: dvx, y: dvy }, radius),
            final(self).valid(),
    {
        let (c, dv): (Vec2<T>, Vec2<T>) = (vec2(x, y), vec2(dvx, dvy));
        let r2: T = radius.times(radius);
        let n: usize = self.vel.len();
        let ghost before = self@;
        let mut i: usize = 0;
        while i < n
            invariant
                exact::<T>(),
                i <= n,
                n == self.vel@.len(),
                n == before.vel.len(),
                n == before.pos.len(),
                r2 == prod(radius, radius),
                self@ == (FlipModel { vel: self.vel@, ..before }),
                forall|k: int|
                    0 <= k < i ==> #[trigger] self.vel@[k] == before.nudged(c, dv, radius).vel[k],
                forall|k: int| i <= k < n ==> #[trigger] self.vel@[k] == before.vel[k],
            decreases n - i,
        {
            if self.pos[i].minus(c).length_squared().below(r2) {
                let v: Vec2<T> = self.vel[i];
                self.vel.set(i, v.plus(dv));
            }
            i = i + 1;
        }
        assert(self.vel@ =~= before.nudged(c, dv, radius).vel);
    }

    /// Put the starting block in the place of the particles.
    fn spawn_block(&mut self)
        requires
            exact::<T>(),
        ensures
            final(self)@ == old(self)@.spawned(),
    {
        let (w, hgt): (T, T) = self.domain();
        self.pos = packed(w, hgt, self.h);
        self.vel = filled(Vec2::zero(), self.pos.len());
        assert(self@ =~= old(self)@.spawned());
    }

    /// Move the water on by `dt` seconds.
    pub fn step(&mut self, dt: T)
        requires
            exact::<T>(),
            old(self).valid(),
            old(self)@.can_step(),
        ensures
            final(self)@ == old(self)@.stepped(dt),
            final(self).valid(),
    {
        self.integrate_particles(dt);
        self.p2g();
        self.solve_incompressibility();
        self.g2p();
    }

    /// Move every particle on by `dt` seconds.
    fn integrate_particles(&mut self, dt: T)
        requires
            exact::<T>(),
            old(self).valid(),
        ensures
            final(self)@ == old(self)@.moved(dt),
            final(self).valid(),
    {
        let ghost before = self@;
        let gravity: Vec2<T> = vec2(self.cfg.gravity[0], self.cfg.gravity[1]);
        let one: T = T::ratio(1, 1);
        let eps: T = T::ratio(1, 1000).times(self.h);
        let lo: T = self.h.plus(eps);
        let xmax: T = T::of_count(self.nx).minus(one).times(self.h).minus(eps);
        let ymax: T = T::of_count(self.ny).minus(one).times(self.h).minus(eps);
        let n: usize = self.pos.len();
        let mut i: usize = 0;
        while i < n
            invariant
                exact::<T>(),
                i <= n,
                n == self.pos@.len(),
                n == self.vel@.len(),
                n == before.pos.len(),
                n == before.vel.len(),
                gravity == before.cfg.gravity,
                lo == before.near_wall(),
                xmax == before.far_wall(before.nx),
                ymax == before.far_wall(before.ny),
                self@ == (FlipModel { pos: self.pos@, vel: self.vel@, ..before }),
                forall|k: int| 0 <= k < i ==> #[trigger] self.pos@[k] == before.flight(k, dt).0,
                forall|k: int| 0 <= k < i ==> #[trigger] self.vel@[k] == before.flight(k, dt).1,
                forall|k: int| i <= k < n ==> #[trigger] self.pos@[k] == before.pos[k],
                forall|k: int| i <= k < n ==> #[trigger] self.vel@[k] == before.vel[k],
            decreases n - i,
        {
            let v: Vec2<T> = self.vel[i].plus(gravity.times(dt));
            let p: Vec2<T> = self.pos[i].plus(v.times(dt));
            let (x, vx): (T, T) = stop(p.x, v.x, lo, xmax);
            let (y, vy): (T, T) = stop(p.y, v.y, lo, ymax);
            self.pos.set(i, vec2(x, y));
            self.vel.set(i, vec2(vx, vy));
            i = i + 1;
        }
        assert(self.pos@ =~= before.moved(dt).pos);
        assert(self.vel@ =~= before.moved(dt).vel);
    }

    /// Gather the velocities of the particles on the grid, and mark the cells
    /// that hold fluid.
    fn p2g(&mut self)
        requires
            exact::<T>(),
            old(self).valid(),
            old(self)@.can_step(),
        ensures
            final(self)@ == old(self)@.gridded(),
            final(self).valid(),
    {
        let ghost before = self@;
        let zero: T = T::ratio(0, 1);
        overwrite(&mut self.u, zero);
        overwrite(&mut self.v, zero);
        overwrite(&mut self.wu, zero);
        overwrite(&mut self.wv, zero);
        let (nx, ny, h): (usize, usize, T) = (self.nx, self.ny, self.h);
        let half: T = T::ratio(1, 2);
        let n: usize = self.pos.len();
        let ghost start = gathered(before.pos, before.vel, nx as int, ny as int, h, 0);
        assert(self.u@ =~= start.u);
        assert(self.v@ =~= start.v);
        assert(self.wu@ =~= start.wu);
        assert(self.wv@ =~= start.wv);
        let mut i: usize = 0;
        while i < n
            invariant
                exact::<T>(),
                before.valid(),
                before.can_step(),
                i <= n,
                n == before.pos.len(),
                nx == before.nx,
                ny == before.ny,
                h == before.h,
                half == lit::<T>(1, 2),
                self@ == (FlipModel {
                    u: self.u@,
                    v: self.v@,
                    wu: self.wu@,
                    wv: self.wv@,
                    ..before
                }),
                self@.valid(),
                (Sums { u: self.u@, wu: self.wu@, v: self.v@, wv: self.wv@ }) == gathered(
                    before.pos,
                    before.vel,
                    nx as int,
                    ny as int,
                    h,
                    i as nat,
                ),
            decreases n - i,
        {
            let (p, vel): (Vec2<T>, Vec2<T>) = (self.pos[i], self.vel[i]);
            let gx: T = p.x.over(h);
            let gy: T = p.y.over(h);
            splat(&mut self.u, &mut self.wu, nx + 1, ny, gx, gy.minus(half), vel.x);
            splat(&mut self.v, &mut self.wv, nx, ny + 1, gx.minus(half), gy, vel.y);
            i = i + 1;
        }
        average(&mut self.u, &self.wu);
        average(&mut self.v, &self.wv);
        copy_over(&mut self.u_prev, &self.u);
        copy_over(&mut self.v_prev, &self.v);
        self.mark_fluid();
        assert(self@ =~= before.gridded());
    }

    /// Mark the cells that hold fluid.
    fn mark_fluid(&mut self)
        requires
            exact::<T>(),
            old(self).valid(),
        ensures
            final(self)@ == (FlipModel {
                is_fluid: wet_cells(
                    old(self)@.pos,
                    old(self)@.s,
                    old(self)@.nx,
                    old(self)@.ny,
                    old(self)@.h,
                    old(self)@.pos.len() as int,
                ),
                ..old(self)@
            }),
            final(self).valid(),
    {
        let ghost before = self@;
        let (nx, ny, h): (usize, usize, T) = (self.nx, self.ny, self.h);
        let ghost (w, r) = (nx as int, ny as int);
        overwrite(&mut self.is_fluid, false);
        let n: usize = self.pos.len();
        let mut i: usize = 0;
        assert(self.is_fluid@ =~= wet_cells(before.pos, before.s, w, r, h, 0));
        while i < n
            invariant
                exact::<T>(),
                before.valid(),
                i <= n,
                n == before.pos.len(),
                nx == before.nx,
                ny == before.ny,
                h == before.h,
                w == nx,
                r == ny,
                self@ == (FlipModel { is_fluid: self.is_fluid@, ..before }),
                self.is_fluid@ == wet_cells(before.pos, before.s, w, r, h, i as int),
            decreases n - i,
        {
            let ci: usize = self.pos[i].x.over(h).to_index();
            let cj: usize = self.pos[i].y.over(h).to_index();
            let ghost marks = self.is_fluid@;
            let ghost p = before.pos[i as int];
            if ci < nx && cj < ny {
                proof {
                    lemma_place_in_grid(ci as int, cj as int, w, r);
                    assert(w * r <= (w + 1) * r) by (nonlinear_arith)
                        requires
                            0 <= r,
                    ;
                }
                let c: usize = idx(ci, cj, nx);
                if T::ratio(0, 1).below(self.s[c]) {
                    self.is_fluid.set(c, true);
                }
            }
            proof {
                let next = wet_cells(before.pos, before.s, w, r, h, i + 1);
                assert forall|k: int| 0 <= k < next.len() implies self.is_fluid@[k] == next[k] by {
                    assert(marks[k] == wet_cells(before.pos, before.s, w, r, h, i as int)[k]);
                    if marks[k] {
                        let m = choose|m: int|
                            0 <= m < i && #[trigger] occupies(before.pos[m], k, w, r, h);
                        assert(occupies(before.pos[m], k, w, r, h));
                    }
                    if lt(lit(0, 1), before.s[k]) && occupies(p, k, w, r, h) {
                        assert(occupies(before.pos[i as int], k, w, r, h));
                    }
                }
                assert(self.is_fluid@ =~= next);
            }
            i = i + 1;
        }
    }

    /// Make the flow through the fluid cells incompressible, by sweeps over the
    /// inner cells in which each shuts its faces to the border and pushes its
    /// surplus out through its open sides.
    fn solve_incompressibility(&mut self)
        requires
            exact::<T>(),
            old(self).valid(),
            old(self)@.can_step(),
        ensures
            final(self)@ == old(self)@.solved(),
            final(self).valid(),
    {
        let ghost before = self@;
        let ghost basin = self@.basin();
        let ghost start = Faces { u: self.u@, v: self.v@ };
        let (nx, ny): (usize, usize) = (self.nx, self.ny);
        let mut sweep: usize = 0;
        while sweep < self.cfg.iters
            invariant
                exact::<T>(),
                before.valid(),
                before.can_step(),
                sweep <= self.cfg.iters,
                self.cfg.iters == before.cfg.iters,
                nx == before.nx,
                ny == before.ny,
                basin == before.basin(),
                start == (Faces { u: before.u, v: before.v }),
                self@ == (FlipModel { u: self.u@, v: self.v@, ..before }),
                self.valid(),
                (Faces { u: self.u@, v: self.v@ }) == basin.eased(start, sweep as nat),
            decreases self.cfg.iters - sweep,
        {
            let ghost flow = Faces { u: self.u@, v: self.v@ };
            let mut j: usize = 1;
            while j < ny - 1
                invariant
                    exact::<T>(),
                    before.valid(),
                    before.can_step(),
                    before.cfg.iters > 0,
                    1 <= j,
                    j <= ny - 1 || j == 1,
                    nx == before.nx,
                    ny == before.ny,
                    self.cfg.iters == before.cfg.iters,
                    basin == before.basin(),
                    self@ == (FlipModel { u: self.u@, v: self.v@, ..before }),
                    self.valid(),
                    (Faces { u: self.u@, v: self.v@ }) == basin.eased_rows(flow, j as int),
                decreases ny - j,
            {
                let ghost line = Faces { u: self.u@, v: self.v@ };
                let mut i: usize = 1;
                while i < nx - 1
                    invariant
                        exact::<T>(),
                        before.valid(),
                        before.can_step(),
                        1 <= i,
                        i <= nx - 1 || i == 1,
                        1 <= j < ny - 1,
                        nx >= 1,
                        nx == before.nx,
                        ny == before.ny,
                        self.cfg.iters == before.cfg.iters,
                        basin == before.basin(),
                        self@ == (FlipModel { u: self.u@, v: self.v@, ..before }),
                        self.valid(),
                        (Faces { u: self.u@, v: self.v@ }) == basin.eased_row(
                            line,
                            j as int,
                            i as int,
                        ),
                    decreases nx - i,
                {
                    self.ease(i, j);
                    i = i + 1;
                }
                j = j + 1;
            }
            sweep = sweep + 1;
        }
    }

    /// Let inner cell `(i, j)` shut its faces to the border and push its surplus
    /// out through its open sides.
    fn ease(&mut self, i: usize, j: usize)
        requires
            exact::<T>(),
            old(self).valid(),
            1 <= i < old(self)@.nx - 1,
            1 <= j < old(self)@.ny - 1,
        ensures
            final(self)@ == ({
                let f = old(self)@.basin().eased_cell(
                    Faces { u: old(self)@.u, v: old(self)@.v },
                    i as int,
                    j as int,
                );
                FlipModel { u: f.u, v: f.v, ..old(self)@ }
            }),
            final(self).valid(),
    {
        let (nx, ny): (usize, usize) = (self.nx, self.ny);
        proof {
            lemma_around(i as int, j as int, nx as int, ny as int);
        }
        if !self.is_fluid[idx(i, j, nx)] {
            return ;
        }
        let left: usize = idx(i, j, nx + 1);
        let right: usize = idx(i + 1, j, nx + 1);
        let below: usize = idx(i, j, nx);
        let above: usize = idx(i, j + 1, nx);
        let zero: T = T::ratio(0, 1);
        if i == 1 {
            self.u.set(left, zero);
        }
        if i == nx - 2 {
            self.u.set(right, zero);
        }
        if j == 1 {
            self.v.set(below, zero);
        }
        if j == ny - 2 {
            self.v.set(above, zero);
        }
        let sx0: T = self.s[idx(i - 1, j, nx)];
        let sx1: T = self.s[idx(i + 1, j, nx)];
        let sy0: T = self.s[idx(i, j - 1, nx)];
        let sy1: T = self.s[idx(i, j + 1, nx)];
        let total: T = sx0.plus(sx1).plus(sy0).plus(sy1);
        if total.same(zero) {
            return ;
        }
        let div: T = self.u[right].minus(self.u[left]).plus(self.v[above]).minus(self.v[below]);
        let p: T = div.negate().over(total).times(self.cfg.over_relax);
        if i > 1 {
            let u0: T = self.u[left].minus(sx0.times(p));
            self.u.set(left, u0);
        }
        if i < nx - 2 {
            let u1: T = self.u[right].plus(sx1.times(p));
            self.u.set(right, u1);
        }
        if j > 1 {
            let v0: T = self.v[below].minus(sy0.times(p));
            self.v.set(below, v0);
        }
        if j < ny - 2 {
            let v1: T = self.v[above].plus(sy1.times(p));
            self.v.set(above, v1);
        }
    }

    /// Read the velocities of the particles off the grid.
    fn g2p(&mut self)
        requires
            exact::<T>(),
            old(self).valid(),
            old(self)@.can_step(),
        ensures
            final(self)@ == old(self)@.read_back(),
            final(self).valid(),
    {
        let ghost before = self@;
        let (nx, ny, h): (usize, usize, T) = (self.nx, self.ny, self.h);
        let alpha: T = self.cfg.flip_ratio;
        let half: T = T::ratio(1, 2);
        let n: usize = self.pos.len();
        let mut i: usize = 0;
        while i < n
            invariant
                exact::<T>(),
                before.valid(),
                before.can_step(),
                i <= n,
                n == before.pos.len(),
                nx == before.nx,
                ny == before.ny,
                h == before.h,
                alpha == before.cfg.flip_ratio,
                half == lit::<T>(1, 2),
                self@ == (FlipModel { vel: self.vel@, ..before }),
                self.vel@.len() == n,
                forall|k: int| 0 <= k < i ==> #[trigger] self.vel@[k] == before.velocity_read(k),
                forall|k: int| i <= k < n ==> #[trigger] self.vel@[k] == before.vel[k],
            decreases n - i,
        {
            let p: Vec2<T> = self.pos[i];
            let gx: T = p.x.over(h);
            let gy: T = p.y.over(h);
            let now: Vec2<T> = vec2(
                sample(&self.u, nx + 1, ny, gx, gy.minus(half)),
                sample(&self.v, nx, ny + 1, gx.minus(half), gy),
            );
            let was: Vec2<T> = vec2(
                sample(&self.u_prev, nx + 1, ny, gx, gy.minus(half)),
                sample(&self.v_prev, nx, ny + 1, gx.minus(half), gy),
            );
            let flip: Vec2<T> = self.vel[i].plus(now.minus(was));
            let v: Vec2<T> = flip.scaled(alpha).plus(now.scaled(T::ratio(1, 1).minus(alpha)));
            self.vel.set(i, v);
            i = i + 1;
        }
        assert(self.vel@ =~= before.read_back().vel);
    }
}

/// The cells around an inner cell, and its faces, lie in the grid.
pub(crate) proof fn lemma_around(i: int, j: int, nx: int, ny: int)
    requires
        1 <= i < nx - 1,
        1 <= j < ny - 1,
    ensures
        0 <= place(i, j, nx) < nx * ny,
        0 <= place(i - 1, j, nx) < nx * ny,
        0 <= place(i + 1, j, nx) < nx * ny,
        0 <= place(i, j - 1, nx) < nx * ny,
        0 <= place(i, j + 1, nx) < nx * ny,
        0 <= place(i, j, nx + 1) < (nx + 1) * ny,
        0 <= place(i + 1, j, nx + 1) < (nx + 1) * ny,
        0 <= place(i, j, nx) < nx * (ny + 1),
        0 <= place(i, j + 1, nx) < nx * (ny + 1),
        nx * ny <= nx * (ny + 1),
{
    lemma_place_in_grid(i, j, nx, ny);
    lemma_place_in_grid(i - 1, j, nx, ny);
    lemma_place_in_grid(i + 1, j, nx, ny);
    lemma_place_in_grid(i, j - 1, nx, ny);
    lemma_place_in_grid(i, j + 1, nx, ny);
    lemma_place_in_grid(i, j, nx + 1, ny);
    lemma_place_in_grid(i + 1, j, nx + 1, ny);
    lemma_place_in_grid(i, j, nx, ny + 1);
    lemma_place_in_grid(i, j + 1, nx, ny + 1);
    assert(nx * (ny + 1) == nx * ny + nx) by (nonlinear_arith);
}

/// Divide sums by their weights, where there is any.
fn average<T: Scalar>(total: &mut Vec<T>, wt: &Vec<T>)
    requires
        exact::<T>(),
        old(total)@.len() == wt@.len(),
    ensures
        final(total)@ == averaged(old(total)@, wt@),
{
    let ghost start = total@;
    let n: usize = total.len();
    let mut k: usize = 0;
    while k < n
        invariant
            exact::<T>(),
            k <= n,
            n == total@.len(),
            n == wt@.len(),
            n == start.len(),
            forall|c: int| 0 <= c < k ==> #[trigger] total@[c] == averaged(start, wt@)[c],
            forall|c: int| k <= c < n ==> #[trigger] total@[c] == start[c],
        decreases n - k,
    {
        if T::ratio(0, 1).below(wt[k]) {
            let mean: T = total[k].over(wt[k]);
            total.set(k, mean);
        }
        k = k + 1;
    }
    assert(total@ =~= averaged(start, wt@));
}

/// Hold one coordinate between two walls and stop its velocity there.
fn stop<T: Scalar>(x: T, v: T, lo: T, hi: T) -> (r: (T, T))
    requires
        exact::<T>(),
    ensures
        r == stopped(x, v, lo, hi),
{
    if x.below(lo) {
        (lo, T::ratio(0, 1))
    } else if hi.below(x) {
        (hi, T::ratio(0, 1))
    } else {
        (x, v)
    }
}

/// The open cells of a basin of `nx` by `ny` cells.
pub(crate) fn carve<T: Scalar>(nx: usize, ny: usize) -> (s: Vec<T>)
    requires
        exact::<T>(),
        nx * ny <= usize::MAX,
    ensures
        s@ == open_cells::<T>(nx as int, ny as int),
{
    let mut s: Vec<T> = filled(T::ratio(1, 1), nx * ny);
    let ghost (w, h) = (nx as int, ny as int);
    let mut j: usize = 0;
    assert(w * 0 == 0);
    while j < ny
        invariant
            exact::<T>(),
            j <= ny,
            w == nx,
            h == ny,
            s@.len() == nx * ny,
            nx * ny <= usize::MAX,
            forall|k: int|
                0 <= k < w * j ==> #[trigger] s@[k] == open_cells::<T>(w, h)[k],
            forall|k: int| w * j <= k < s@.len() ==> #[trigger] s@[k] == lit::<T>(1, 1),
        decreases ny - j,
    {
        let mut i: usize = 0;
        proof {
            assert(w * j + w == w * (j + 1)) by (nonlinear_arith);
            assert(w * (j + 1) <= w * h) by (nonlinear_arith)
                requires
                    j + 1 <= h,
                    0 <= w,
            ;
            assert(0 <= w * j) by (nonlinear_arith)
                requires
                    0 <= w,
                    0 <= j,
            ;
        }
        while i < nx
            invariant
                exact::<T>(),
                i <= nx,
                j < ny,
                w == nx,
                h == ny,
                0 <= w * j,
                w * j + w == w * (j + 1),
                w * (j + 1) <= w * h,
                s@.len() == nx * ny,
                nx * ny <= usize::MAX,
                forall|k: int|
                    0 <= k < w * j + i ==> #[trigger] s@[k] == open_cells::<T>(w, h)[k],
                forall|k: int| w * j + i <= k < s@.len() ==> #[trigger] s@[k] == lit::<T>(1, 1),
            decreases nx - i,
        {
            proof {
                lemma_col_row_of_place(i as int, j as int, w);
            }
            if i == 0 || i == nx - 1 || j == 0 || j == ny - 1 {
                s.set(idx(i, j, nx), T::ratio(0, 1));
            }
            i = i + 1;
        }
        j = j + 1;
    }
    assert(s@ =~= open_cells::<T>(w, h));
    s
}

/// The starting block of a basin of the given size, with cells of size `h`.
fn packed<T: Scalar>(w: T, hgt: T, h: T) -> (pos: Vec<Vec2<T>>)
    requires
        exact::<T>(),
    ensures
        pos@ == rows_from(
            prod(hgt, lit(6, 100)),
            0,
            prod(w, lit(6, 100)),
            prod(w, lit(45, 100)),
            prod(hgt, lit(6, 10)),
            prod(h, lit(1, 2)),
            0,
        ),
{
    let x0: T = w.times(T::ratio(6, 100));
    let x1: T = w.times(T::ratio(45, 100));
    let y1: T = hgt.times(T::ratio(6, 10));
    let step: T = h.times(T::ratio(1, 2));
    let (half, spread): (T, T) = (T::ratio(1, 2), T::ratio(3, 10));
    let mut pos: Vec<Vec2<T>> = Vec::new();
    let mut y: T = hgt.times(T::ratio(6, 100));
    let mut row: u32 = 0;
    let ghost all = rows_from(y, 0, x0, x1, y1, step, 0);
    assert(pos@ + all =~= all);
    while row < MAX_ROWS && y.below(y1)
        invariant
            exact::<T>(),
            half == lit::<T>(1, 2),
            spread == lit::<T>(3, 10),
            row <= MAX_ROWS,
            pos@ + rows_from(y, row as nat, x0, x1, y1, step, pos@.len()) == all,
        ensures
            pos@ == all,
        decreases MAX_ROWS - row,
    {
        let shift: T = if row % 2 == 0 {
            T::ratio(0, 1)
        } else {
            step.times(half)
        };
        let mut x: T = x0.plus(shift);
        let ghost done = pos@;
        let ghost line = row_from(x, y, x1, step, pos@.len(), usize::MAX as nat);
        let mut room: usize = usize::MAX;
        assert(pos@ + line =~= done + line);
        while room > 0 && x.below(x1)
            invariant
                exact::<T>(),
                half == lit::<T>(1, 2),
                spread == lit::<T>(3, 10),
                pos@ + row_from(x, y, x1, step, pos@.len(), room as nat) == done + line,
            ensures
                pos@ == done + line,
            decreases room,
        {
            let ghost rest = row_from(
                sum(x, step),
                y,
                x1,
                step,
                pos@.len() + 1,
                (room - 1) as nat,
            );
            let ghost before = pos@;
            let n: u32 = pos.len() as u32;
            let jx: T = hash::<T>(n).minus(half).times(step).times(spread);
            let jy: T = hash::<T>(n ^ 0x9e37).minus(half).times(step).times(spread);
            let p: Vec2<T> = vec2(x.plus(jx), y.plus(jy));
            pos.push(p);
            assert(pos@ + rest =~= before + (seq![p] + rest));
            x = x.plus(step);
            room = room - 1;
        }
        let ghost later = rows_from(sum(y, step), (row + 1) as nat, x0, x1, y1, step, pos@.len());
        assert(done + line + later =~= done + (line + later));
        y = y.plus(step);
        row = row + 1;
    }
    pos
}

/// Sums on the faces have a value for every face.
pub(crate) proof fn lemma_sums_fill_the_grid<T: Scalar>(
    pos: Seq<Vec2<T>>,
    vel: Seq<Vec2<T>>,
    nx: int,
    ny: int,
    h: T,
    upto: nat,
)
    requires
        0 <= nx < usize::MAX,
        0 <= ny < usize::MAX,
        upto > 0 ==> nx >= 2 && ny >= 2,
    ensures
        gathered(pos, vel, nx, ny, h, upto).u.len() == (nx + 1) * ny,
        gathered(pos, vel, nx, ny, h, upto).wu.len() == (nx + 1) * ny,
        gathered(pos, vel, nx, ny, h, upto).v.len() == nx * (ny + 1),
        gathered(pos, vel, nx, ny, h, upto).wv.len() == nx * (ny + 1),
    decreases upto,
{
    assert(0 <= (nx + 1) * ny && 0 <= nx * (ny + 1)) by (nonlinear_arith)
        requires
            0 <= nx,
            0 <= ny,
    ;
    if upto > 0 {
        lemma_sums_fill_the_grid(pos, vel, nx, ny, h, (upto - 1) as nat);
        lemma_corners(spot_u(pos[upto - 1], nx, ny, h), nx + 1, ny);
        lemma_corners(spot_v(pos[upto - 1], nx, ny, h), nx, ny + 1);
    }
}

/// The flow has a velocity on every face of the grid.
pub open spec fn fills<T: Scalar>(f: Faces<T>, basin: Basin<T>) -> bool {
    &&& f.u.len() == (basin.nx + 1) * basin.ny
    &&& f.v.len() == basin.nx * (basin.ny + 1)
}

/// A row of the pressure solver keeps the number of faces.
pub(crate) proof fn lemma_a_row_keeps_the_faces<T: Scalar>(basin: Basin<T>, f: Faces<T>, j: int, i: int)
    requires
        fills(f, basin),
        1 <= j < basin.ny - 1,
        i <= basin.nx - 1,
    ensures
        fills(basin.eased_row(f, j, i), basin),
    decreases i,
{
    if i > 1 {
        lemma_a_row_keeps_the_faces(basin, f, j, i - 1);
        lemma_around(i - 1, j, basin.nx, basin.ny);
    }
}

/// The rows of the pressure solver keep the number of faces.
proof fn lemma_rows_keep_the_faces<T: Scalar>(basin: Basin<T>, f: Faces<T>, j: int)
    requires
        fills(f, basin),
        j <= basin.ny - 1,
    ensures
        fills(basin.eased_rows(f, j), basin),
    decreases j,
{
    if j > 1 {
        lemma_rows_keep_the_faces(basin, f, j - 1);
        lemma_a_row_keeps_the_faces(basin, basin.eased_rows(f, j - 1), j - 1, basin.nx - 1);
    }
}

/// The pressure solver keeps the number of faces.
proof fn lemma_sweeps_keep_the_faces<T: Scalar>(basin: Basin<T>, f: Faces<T>, sweeps: nat)
    requires
        fills(f, basin),
    ensures
        fills(basin.eased(f, sweeps), basin),
    decreases sweeps,
{
    if sweeps > 0 {
        lemma_sweeps_keep_the_faces(basin, f, (sweeps - 1) as nat);
        lemma_rows_keep_the_faces(basin, basin.eased(f, (sweeps - 1) as nat), basin.ny - 1);
    }
}

/// A step neither adds nor removes particles, and leaves the settings and the
/// basin as they are.
pub proof fn law_step_keeps_the_water<T: Scalar>(water: FlipModel<T>, dt: T)
    requires
        water.valid(),
        water.can_step(),
    ensures
        water.stepped(dt).valid(),
        water.stepped(dt).pos.len() == water.pos.len(),
        water.stepped(dt).cfg == water.cfg,
        water.stepped(dt).nx == water.nx,
        water.stepped(dt).ny == water.ny,
        water.stepped(dt).h == water.h,
        water.stepped(dt).s == water.s,
        water.stepped(dt).can_step(),
{
    let m = water.moved(dt);
    lemma_sums_fill_the_grid(m.pos, m.vel, m.nx, m.ny, m.h, m.pos.len());
    let g = m.gridded();
    lemma_sweeps_keep_the_faces(g.basin(), Faces { u: g.u, v: g.v }, g.cfg.iters);
    assert(0 <= water.nx * water.ny) by (nonlinear_arith)
        requires
            0 <= water.nx,
            0 <= water.ny,
    ;
}

/// After a reset the particles are where the basin had them at the start, at
/// rest, whatever happened since.
pub proof fn law_reset_is_a_new_start<T: Scalar>(water: FlipModel<T>)
    ensures
        water.spawned().pos == FlipModel::initial(water.nx, water.ny, water.h).pos,
        water.spawned().vel == FlipModel::initial(water.nx, water.ny, water.h).vel,
{
}

/// What the grid held before a step does not matter to it: the step goes by the
/// particles, the settings and the basin alone.
pub proof fn law_step_depends_on_motion_alone<T: Scalar>(
    a: FlipModel<T>,
    b: FlipModel<T>,
    dt: T,
)
    requires
        a.pos == b.pos,
        a.vel == b.vel,
        a.cfg == b.cfg,
        a.nx == b.nx,
        a.ny == b.ny,
        a.h == b.h,
        a.s == b.s,
    ensures
        a.stepped(dt) == b.stepped(dt),
{
    let (m, n) = (a.moved(dt), b.moved(dt));
    assert(m.pos =~= n.pos);
    assert(m.vel =~= n.vel);
    assert(m.gridded() =~= n.gridded());
}

/// From a reset the water goes on as it went on from the start, for any number of
/// steps, as long as it has the settings that it started with.
pub proof fn law_reset_replays<T: Scalar>(water: FlipModel<T>, n: nat, dt: T)
    requires
        n >= 1,
        water.valid(),
        water.cfg == FlipSettings::<T>::preset(),
    ensures
        water.spawned().run(n, dt) == FlipModel::initial(water.nx, water.ny, water.h).run(n, dt),
    decreases n,
{
    let fresh = FlipModel::initial(water.nx, water.ny, water.h);
    if n == 1 {
        assert(water.spawned().run(0, dt) == water.spawned());
        assert(fresh.run(0, dt) == fresh);
        law_step_depends_on_motion_alone(water.spawned(), fresh, dt);
    } else {
        law_reset_replays(water, (n - 1) as nat, dt);
    }
}

/// After a step no particle is beyond the walls.
pub proof fn law_walls_hold<T: Scalar>(water: FlipModel<T>, dt: T, i: int)
    requires
        water.valid(),
        0 <= i < water.pos.len(),
        walls_apart(water.near_wall(), water.far_wall(water.nx)),
        walls_apart(water.near_wall(), water.far_wall(water.ny)),
    ensures
        !lt(water.stepped(dt).pos[i].x, water.near_wall()),
        !lt(water.far_wall(water.nx), water.stepped(dt).pos[i].x),
        !lt(water.stepped(dt).pos[i].y, water.near_wall()),
        !lt(water.far_wall(water.ny), water.stepped(dt).pos[i].y),
{
}

/// After a step a cell is marked as fluid if, and only if, it is an open cell
/// that a particle is in. With zero not below itself, none on the border is.
pub proof fn law_fluid_cells_are_open_and_occupied<T: Scalar>(water: FlipModel<T>, dt: T, k: int)
    requires
        water.valid(),
        0 <= k < water.nx * water.ny,
        !lt(lit::<T>(0, 1), lit::<T>(0, 1)),
    ensures
        water.stepped(dt).is_fluid[k] <==> lt(lit(0, 1), water.s[k]) && exists|i: int|
            0 <= i < water.pos.len() && #[trigger] occupies(
                water.stepped(dt).pos[i],
                k,
                water.nx,
                water.ny,
                water.h,
            ),
        water.stepped(dt).is_fluid[k] ==> !on_border(k, water.nx, water.ny),
{
    let m = water.moved(dt);
    assert(water.stepped(dt).pos == m.pos);
    assert(water.stepped(dt).is_fluid == m.gridded().is_fluid);
}

/// The vertical face at `(i, j)` has no fluid on either side.
pub open spec fn dry_u<T: Scalar>(basin: Basin<T>, i: int, j: int) -> bool {
    &&& 0 <= i <= basin.nx
    &&& 0 <= j < basin.ny
    &&& 0 < i ==> !basin.is_fluid[place(i - 1, j, basin.nx)]
    &&& i < basin.nx ==> !basin.is_fluid[place(i, j, basin.nx)]
}

/// The horizontal face at `(i, j)` has no fluid on either side.
pub open spec fn dry_v<T: Scalar>(basin: Basin<T>, i: int, j: int) -> bool {
    &&& 0 <= i < basin.nx
    &&& 0 <= j <= basin.ny
    &&& 0 < j ==> !basin.is_fluid[place(i, j - 1, basin.nx)]
    &&& j < basin.ny ==> !basin.is_fluid[place(i, j, basin.nx)]
}

/// Easing a cell keeps the velocities that no fluid is at.
proof fn lemma_a_cell_keeps_dry_faces<T: Scalar>(
    basin: Basin<T>,
    f: Faces<T>,
    ci: int,
    cj: int,
    i: int,
    j: int,
)
    requires
        1 <= ci < basin.nx - 1,
        1 <= cj < basin.ny - 1,
        fills(f, basin),
    ensures
        dry_u(basin, i, j) ==> basin.eased_cell(f, ci, cj).u[place(i, j, basin.nx + 1)]
            == f.u[place(i, j, basin.nx + 1)],
        dry_v(basin, i, j) ==> basin.eased_cell(f, ci, cj).v[place(i, j, basin.nx)]
            == f.v[place(i, j, basin.nx)],
{
    let (n, w) = (basin.nx, basin.nx + 1);
    lemma_around(ci, cj, n, basin.ny);
    if dry_u(basin, i, j) {
        lemma_place_in_grid(i, j, w, basin.ny);
        lemma_col_row_of_place(i, j, w);
        lemma_col_row_of_place(ci, cj, w);
        lemma_col_row_of_place(ci + 1, cj, w);
    }
    if dry_v(basin, i, j) {
        lemma_place_in_grid(i, j, n, basin.ny + 1);
        lemma_col_row_of_place(i, j, n);
        lemma_col_row_of_place(ci, cj, n);
        lemma_col_row_of_place(ci, cj + 1, n);
    }
}

/// Easing a row keeps the velocities that no fluid is at.
proof fn lemma_a_row_keeps_dry_faces<T: Scalar>(
    basin: Basin<T>,
    f: Faces<T>,
    cj: int,
    ci: int,
    i: int,
    j: int,
)
    requires
        ci <= basin.nx - 1,
        1 <= cj < basin.ny - 1,
        fills(f, basin),
    ensures
        dry_u(basin, i, j) ==> basin.eased_row(f, cj, ci).u[place(i, j, basin.nx + 1)]
            == f.u[place(i, j, basin.nx + 1)],
        dry_v(basin, i, j) ==> basin.eased_row(f, cj, ci).v[place(i, j, basin.nx)]
            == f.v[place(i, j, basin.nx)],
    decreases ci,
{
    if ci > 1 {
        lemma_a_row_keeps_dry_faces(basin, f, cj, ci - 1, i, j);
        lemma_a_row_keeps_the_faces(basin, f, cj, ci - 1);
        lemma_a_cell_keeps_dry_faces(
            basin,
            basin.eased_row(f, cj, ci - 1),
            ci - 1,
            cj,
            i,
            j,
        );
    }
}

/// A sweep keeps the velocities that no fluid is at.
proof fn lemma_a_sweep_keeps_dry_faces<T: Scalar>(
    basin: Basin<T>,
    f: Faces<T>,
    cj: int,
    i: int,
    j: int,
)
    requires
        cj <= basin.ny - 1,
        fills(f, basin),
    ensures
        dry_u(basin, i, j) ==> basin.eased_rows(f, cj).u[place(i, j, basin.nx + 1)]
            == f.u[place(i, j, basin.nx + 1)],
        dry_v(basin, i, j) ==> basin.eased_rows(f, cj).v[place(i, j, basin.nx)]
            == f.v[place(i, j, basin.nx)],
    decreases cj,
{
    if cj > 1 {
        lemma_a_sweep_keeps_dry_faces(basin, f, cj - 1, i, j);
        lemma_rows_keep_the_faces(basin, f, cj - 1);
        lemma_a_row_keeps_dry_faces(
            basin,
            basin.eased_rows(f, cj - 1),
            cj - 1,
            basin.nx - 1,
            i,
            j,
        );
    }
}

/// The pressure solver leaves the air alone: where neither of the cells that a
/// face parts holds fluid, the velocity on the face stays what it was.
pub proof fn law_air_is_left_free<T: Scalar>(
    basin: Basin<T>,
    f: Faces<T>,
    sweeps: nat,
    i: int,
    j: int,
)
    requires
        fills(f, basin),
    ensures
        dry_u(basin, i, j) ==> basin.eased(f, sweeps).u[place(i, j, basin.nx + 1)]
            == f.u[place(i, j, basin.nx + 1)],
        dry_v(basin, i, j) ==> basin.eased(f, sweeps).v[place(i, j, basin.nx)]
            == f.v[place(i, j, basin.nx)],
    decreases sweeps,
{
    if sweeps > 0 {
        law_air_is_left_free(basin, f, (sweeps - 1) as nat, i, j);
        lemma_sweeps_keep_the_faces(basin, f, (sweeps - 1) as nat);
        lemma_a_sweep_keeps_dry_faces(
            basin,
            basin.eased(f, (sweeps - 1) as nat),
            basin.ny - 1,
            i,
            j,
        );
    }
}

/// The faces between cell `(i, j)` and the border hold no velocity.
pub open spec fn walls_shut<T: Scalar>(basin: Basin<T>, f: Faces<T>, i: int, j: int) -> bool {
    let w = basin.nx + 1;
    let n = basin.nx;
    &&& basin.solid(i - 1, j) ==> f.u[place(i, j, w)] == lit::<T>(0, 1)
    &&& basin.solid(i + 1, j) ==> f.u[place(i + 1, j, w)] == lit::<T>(0, 1)
    &&& basin.solid(i, j - 1) ==> f.v[place(i, j, n)] == lit::<T>(0, 1)
    &&& basin.solid(i, j + 1) ==> f.v[place(i, j + 1, n)] == lit::<T>(0, 1)
}

/// Easing a fluid cell shuts its faces to the border, and easing a cell leaves
/// those of the others shut.
proof fn lemma_a_cell_shuts_its_walls<T: Scalar>(
    basin: Basin<T>,
    f: Faces<T>,
    ci: int,
    cj: int,
    i: int,
    j: int,
)
    requires
        1 <= ci < basin.nx - 1,
        1 <= cj < basin.ny - 1,
        1 <= i < basin.nx - 1,
        1 <= j < basin.ny - 1,
        fills(f, basin),
        basin.is_fluid[place(i, j, basin.nx)],
        walls_shut(basin, f, i, j) || (ci == i && cj == j),
    ensures
        walls_shut(basin, basin.eased_cell(f, ci, cj), i, j),
{
    let (n, w) = (basin.nx, basin.nx + 1);
    lemma_around(ci, cj, n, basin.ny);
    lemma_around(i, j, n, basin.ny);
    lemma_col_row_of_place(i, j, w);
    lemma_col_row_of_place(i + 1, j, w);
    lemma_col_row_of_place(ci, cj, w);
    lemma_col_row_of_place(ci + 1, cj, w);
    lemma_col_row_of_place(i, j, n);
    lemma_col_row_of_place(i, j + 1, n);
    lemma_col_row_of_place(ci, cj, n);
    lemma_col_row_of_place(ci, cj + 1, n);
}

/// Easing a row shuts the walls of the fluid cells in it, and leaves those of the
/// others shut.
proof fn lemma_a_row_shuts_its_walls<T: Scalar>(
    basin: Basin<T>,
    f: Faces<T>,
    cj: int,
    ci: int,
    i: int,
    j: int,
)
    requires
        ci <= basin.nx - 1,
        1 <= cj < basin.ny - 1,
        1 <= i < basin.nx - 1,
        1 <= j < basin.ny - 1,
        fills(f, basin),
        basin.is_fluid[place(i, j, basin.nx)],
        walls_shut(basin, f, i, j) || (cj == j && i < ci),
    ensures
        walls_shut(basin, basin.eased_row(f, cj, ci), i, j),
    decreases ci,
{
    if ci > 1 {
        let g = basin.eased_row(f, cj, ci - 1);
        lemma_a_row_keeps_the_faces(basin, f, cj, ci - 1);
        if walls_shut(basin, f, i, j) || i < ci - 1 {
            lemma_a_row_shuts_its_walls(basin, f, cj, ci - 1, i, j);
        }
        lemma_a_cell_shuts_its_walls(basin, g, ci - 1, cj, i, j);
    }
}

/// A sweep shuts the walls of the fluid cells in the rows that it has passed, and
/// leaves those of the others shut.
proof fn lemma_a_sweep_shuts_the_walls<T: Scalar>(
    basin: Basin<T>,
    f: Faces<T>,
    cj: int,
    i: int,
    j: int,
)
    requires
        cj <= basin.ny - 1,
        1 <= i < basin.nx - 1,
        1 <= j < basin.ny - 1,
        fills(f, basin),
        basin.is_fluid[place(i, j, basin.nx)],
        walls_shut(basin, f, i, j) || j < cj,
    ensures
        walls_shut(basin, basin.eased_rows(f, cj), i, j),
    decreases cj,
{
    if cj > 1 {
        let g = basin.eased_rows(f, cj - 1);
        lemma_rows_keep_the_faces(basin, f, cj - 1);
        if walls_shut(basin, f, i, j) || j < cj - 1 {
            lemma_a_sweep_shuts_the_walls(basin, f, cj - 1, i, j);
        }
        lemma_a_row_shuts_its_walls(basin, g, cj - 1, basin.nx - 1, i, j);
    }
}

/// The pressure solver lets no water through the walls: once it has made a sweep,
/// the faces between a cell that holds fluid and the solid border hold no
/// velocity, whatever they held before.
pub proof fn law_walls_take_no_flow<T: Scalar>(
    basin: Basin<T>,
    f: Faces<T>,
    sweeps: nat,
    i: int,
    j: int,
)
    requires
        fills(f, basin),
        sweeps >= 1,
        1 <= i < basin.nx - 1,
        1 <= j < basin.ny - 1,
        basin.is_fluid[place(i, j, basin.nx)],
    ensures
        i == 1 ==> basin.eased(f, sweeps).u[place(i, j, basin.nx + 1)] == lit::<T>(0, 1),
        i == basin.nx - 2 ==> basin.eased(f, sweeps).u[place(i + 1, j, basin.nx + 1)] == lit::<T>(
            0,
            1,
        ),
        j == 1 ==> basin.eased(f, sweeps).v[place(i, j, basin.nx)] == lit::<T>(0, 1),
        j == basin.ny - 2 ==> basin.eased(f, sweeps).v[place(i, j + 1, basin.nx)] == lit::<T>(0, 1),
{
    let g = basin.eased(f, (sweeps - 1) as nat);
    lemma_sweeps_keep_the_faces(basin, f, (sweeps - 1) as nat);
    lemma_a_sweep_shuts_the_walls(basin, g, basin.ny - 1, i, j);
    assert(walls_shut(basin, basin.eased(f, sweeps), i, j));
}

/// After a step whose pressure solver makes a sweep, no water flows through the
/// walls: the faces between a cell that holds fluid and the solid border hold no
/// velocity.
pub proof fn law_step_leaves_the_walls_shut<T: Scalar>(water: FlipModel<T>, dt: T, i: int, j: int)
    requires
        water.valid(),
        water.can_step(),
        water.cfg.iters >= 1,
        1 <= i < water.nx - 1,
        1 <= j < water.ny - 1,
        water.stepped(dt).is_fluid[place(i, j, water.nx)],
    ensures
        i == 1 ==> water.stepped(dt).u[place(i, j, water.nx + 1)] == lit::<T>(0, 1),
        i == water.nx - 2 ==> water.stepped(dt).u[place(i + 1, j, water.nx + 1)] == lit::<T>(0, 1),
        j == 1 ==> water.stepped(dt).v[place(i, j, water.nx)] == lit::<T>(0, 1),
        j == water.ny - 2 ==> water.stepped(dt).v[place(i, j + 1, water.nx)] == lit::<T>(0, 1),
{
    let m = water.moved(dt);
    lemma_sums_fill_the_grid(m.pos, m.vel, m.nx, m.ny, m.h, m.pos.len());
    let g = m.gridded();
    law_walls_take_no_flow(g.basin(), Faces { u: g.u, v: g.v }, g.cfg.iters, i, j);
}

} // verus!
