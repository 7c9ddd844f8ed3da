//! Where the liquid and the water start.

#[allow(unused_imports)]
use crate::flip::{
    block as basin_block, jittered, mixed, noise, row_from as lattice_row,
    row_start as lattice_start, rows_from as lattice_rows, stretch,
};
#[allow(unused_imports)]
use crate::reals::{lemma_literal, lemma_spread, lemma_units, Reading};
use crate::scalar::Scalar;
#[allow(unused_imports)]
use crate::scalar::{count, diff, lit, prod, sum};
#[allow(unused_imports)]
use crate::sim::{block, gap, row_from, row_start, rows_from, MAX_ROWS};
#[allow(unused_imports)]
use crate::vec2::Vec2;
use vstd::prelude::*;

verus! {

/// How far a row of the starting block is shifted: every other one by half a gap, which is
/// nine pixels and six tenths.
pub open spec fn shift(row: nat) -> real {
    if row % 2 == 0 {
        0real
    } else {
        24real / 5real
    }
}

/// Column of place `col` in row `row` of the starting block of a container of width `w`.
pub open spec fn site_x(w: real, row: nat, col: nat) -> real {
    w * (8real / 100real) + shift(row) + col as real * (48real / 5real)
}

/// Height of row `row` of the starting block of a container of height `h`.
pub open spec fn site_y(h: real, row: nat) -> real {
    h * (30real / 100real) + row as real * (48real / 5real)
}

/// The gap, in numbers.
proof fn lemma_gap<T: Scalar>(r: Reading<T>)
    requires
        r.sound(),
        r.never_rounds(),
    ensures
        r.means(gap::<T>(), 48real / 5real),
{
    assert(r.fits(16i32 as real / 1i32 as real));
    assert(r.fits(6i32 as real / 10i32 as real));
    lemma_literal(r, 16, 1);
    lemma_literal(r, 6, 10);
    assert(16real * (6real / 10real) == 48real / 5real);
}

/// A row, from its beginning to its end.
proof fn lemma_row<T: Scalar>(r: Reading<T>, x: T, y: T, x1: T, room: nat)
    requires
        r.sound(),
        r.never_rounds(),
        r.is(x),
        r.is(x1),
    ensures
        ({
            let row = row_from(x, y, x1, room);
            &&& forall|k: int|
                0 <= k < row.len() ==> (#[trigger] row[k]).y == y && r.means(
                    row[k].x,
                    r.at(x) + k as real * (48real / 5real),
                ) && r.at(row[k].x) < r.at(x1)
            &&& row.len() < room ==> r.at(x) + row.len() as real * (48real / 5real) >= r.at(x1)
        }),
    decreases room,
{
    lemma_gap(r);
    if room > 0 && r.at(x) < r.at(x1) {
        let next = sum(x, gap());
        assert(r.is(next));
        lemma_row(r, next, y, x1, (room - 1) as nat);
        let rest = row_from(next, y, x1, (room - 1) as nat);
        let row = row_from(x, y, x1, room);
        assert forall|k: int| 0 <= k < row.len() implies (#[trigger] row[k]).y == y && r.means(
            row[k].x,
            r.at(x) + k as real * (48real / 5real),
        ) && r.at(row[k].x) < r.at(x1) by {
            if k > 0 {
                assert(row[k] == rest[k - 1]);
            }
        }
    }
}

/// The beginning of a row, in numbers.
proof fn lemma_row_start<T: Scalar>(r: Reading<T>, x0: T, row: nat)
    requires
        r.sound(),
        r.never_rounds(),
        r.is(x0),
    ensures
        r.means(row_start(x0, row), r.at(x0) + shift(row)),
{
    lemma_gap(r);
    assert(r.fits(0i32 as real / 1i32 as real));
    assert(r.fits(1i32 as real / 2i32 as real));
    lemma_literal(r, 0, 1);
    lemma_literal(r, 1, 2);
    assert(r.means(prod(gap::<T>(), lit(1, 2)), 48real / 5real * (1real / 2real)));
}

/// Row and place of particle `i` of the rows from row `q` on.
proof fn lemma_found<T: Scalar>(
    r: Reading<T>,
    y: T,
    q: nat,
    x0: T,
    x1: T,
    y1: T,
    i: int,
) -> (site: (nat, nat))
    requires
        r.sound(),
        r.never_rounds(),
        r.is(y),
        r.is(x0),
        r.is(x1),
        r.is(y1),
        0 <= i < rows_from(y, q, x0, x1, y1).len(),
    ensures
        ({
            let p = rows_from(y, q, x0, x1, y1)[i];
            &&& q <= site.0
            &&& r.means(p.x, r.at(x0) + shift(site.0) + site.1 as real * (48real / 5real))
            &&& r.means(p.y, r.at(y) + (site.0 - q) as real * (48real / 5real))
            &&& r.at(p.x) < r.at(x1) && r.at(p.y) < r.at(y1)
        }),
    decreases MAX_ROWS - q,
{
    lemma_gap(r);
    lemma_row_start(r, x0, q);
    let line = row_from(row_start(x0, q), y, x1, usize::MAX as nat);
    lemma_row(r, row_start(x0, q), y, x1, usize::MAX as nat);
    let next = sum(y, gap());
    let rest = rows_from(next, q + 1, x0, x1, y1);
    assert(rows_from(y, q, x0, x1, y1) == line + rest);
    if i < line.len() {
        assert((line + rest)[i] == line[i]);
        (q, i as nat)
    } else {
        assert((line + rest)[i] == rest[i - line.len()]);
        assert(r.is(next));
        lemma_found(r, next, q + 1, x0, x1, y1, i - line.len())
    }
}

/// Number, in the rows from row `q` on, of the particle at a place.
proof fn lemma_filled<T: Scalar>(
    r: Reading<T>,
    y: T,
    q: nat,
    x0: T,
    x1: T,
    y1: T,
    row: nat,
    col: nat,
) -> (i: int)
    requires
        r.sound(),
        r.never_rounds(),
        r.is(y),
        r.is(x0),
        r.is(x1),
        r.is(y1),
        q <= row < MAX_ROWS,
        col < usize::MAX,
        r.at(x0) + shift(row) + col as real * (48real / 5real) < r.at(x1),
        r.at(y) + (row - q) as real * (48real / 5real) < r.at(y1),
    ensures
        ({
            let all = rows_from(y, q, x0, x1, y1);
            &&& 0 <= i < all.len()
            &&& r.means(all[i].x, r.at(x0) + shift(row) + col as real * (48real / 5real))
            &&& r.means(all[i].y, r.at(y) + (row - q) as real * (48real / 5real))
        }),
    decreases MAX_ROWS - q,
{
    lemma_gap(r);
    lemma_row_start(r, x0, q);
    let line = row_from(row_start(x0, q), y, x1, usize::MAX as nat);
    lemma_row(r, row_start(x0, q), y, x1, usize::MAX as nat);
    let next = sum(y, gap());
    let rest = rows_from(next, q + 1, x0, x1, y1);
    assert((row - q) as real >= 0real);
    assert(rows_from(y, q, x0, x1, y1) == line + rest);
    if row == q {
        if line.len() <= col {
            assert(line.len() as real <= col as real);
        }
        assert((line + rest)[col as int] == line[col as int]);
        col as int
    } else {
        assert(r.is(next));
        let i = lemma_filled(r, next, q + 1, x0, x1, y1, row, col);
        assert((line + rest)[line.len() + i] == rest[i]);
        line.len() + i
    }
}

/// The ends of the starting block, in numbers.
proof fn lemma_ends<T: Scalar>(r: Reading<T>, w: T, h: T)
    requires
        r.sound(),
        r.never_rounds(),
        r.is(w),
        r.is(h),
    ensures
        r.means(prod(w, lit(8, 100)), r.at(w) * (8real / 100real)),
        r.means(prod(w, lit(45, 100)), r.at(w) * (45real / 100real)),
        r.means(prod(h, lit(30, 100)), r.at(h) * (30real / 100real)),
        r.means(prod(h, lit(92, 100)), r.at(h) * (92real / 100real)),
{
    assert(r.fits(8i32 as real / 100i32 as real));
    assert(r.fits(45i32 as real / 100i32 as real));
    assert(r.fits(30i32 as real / 100i32 as real));
    assert(r.fits(92i32 as real / 100i32 as real));
    lemma_literal(r, 8, 100);
    lemma_literal(r, 45, 100);
    lemma_literal(r, 30, 100);
    lemma_literal(r, 92, 100);
}

/// The liquid starts in staggered rows: every particle is at a place of a row, left of
/// forty-five hundredths of the width and above ninety-two hundredths of the height. Row and
/// place are returned.
pub proof fn law_liquid_starts_in_rows<T: Scalar>(r: Reading<T>, w: T, h: T, i: int) -> (site: (
    nat,
    nat,
))
    requires
        r.sound(),
        r.never_rounds(),
        r.is(w),
        r.is(h),
        0 <= i < block(w, h).len(),
    ensures
        ({
            let p = block(w, h)[i];
            &&& r.means(p.x, site_x(r.at(w), site.0, site.1))
            &&& r.means(p.y, site_y(r.at(h), site.0))
            &&& r.at(p.x) < r.at(w) * (45real / 100real)
            &&& r.at(p.y) < r.at(h) * (92real / 100real)
        }),
{
    lemma_ends(r, w, h);
    lemma_found(
        r,
        prod(h, lit(30, 100)),
        0,
        prod(w, lit(8, 100)),
        prod(w, lit(45, 100)),
        prod(h, lit(92, 100)),
        i,
    )
}

/// The starting block is full: every place of a row in it, of as many as can be counted, has
/// its particle, whose number is returned.
pub proof fn law_starting_block_is_full<T: Scalar>(
    r: Reading<T>,
    w: T,
    h: T,
    row: nat,
    col: nat,
) -> (i: int)
    requires
        r.sound(),
        r.never_rounds(),
        r.is(w),
        r.is(h),
        row < MAX_ROWS,
        col < usize::MAX,
        site_x(r.at(w), row, col) < r.at(w) * (45real / 100real),
        site_y(r.at(h), row) < r.at(h) * (92real / 100real),
    ensures
        0 <= i < block(w, h).len(),
        r.means(block(w, h)[i].x, site_x(r.at(w), row, col)),
        r.means(block(w, h)[i].y, site_y(r.at(h), row)),
{
    lemma_ends(r, w, h);
    lemma_filled(
        r,
        prod(h, lit(30, 100)),
        0,
        prod(w, lit(8, 100)),
        prod(w, lit(45, 100)),
        prod(h, lit(92, 100)),
        row,
        col,
    )
}

/// The numbers that look random are at least zero and below one.
pub proof fn law_noise_keeps_to_its_range<T: Scalar>(r: Reading<T>, x: u32)
    requires
        r.sound(),
        r.never_rounds(),
    ensures
        r.is(noise::<T>(x)),
        0real <= r.at(noise::<T>(x)) < 1real,
{
    let e: u32 = mixed(x);
    assert(e & 0x00ff_ffff < 0x0100_0000) by (bit_vector);
    let k = (e & 0x00ff_ffff) as usize;
    assert(r.fits(k as real));
    assert(r.means(count::<T>(k), k as real));
    assert(r.fits(0x0100_0000i32 as real / 1i32 as real));
    lemma_literal(r, 0x0100_0000, 1);
    assert(r.means(noise::<T>(x), k as real / 16777216real));
}

/// `x` is no more than three twentieths of `step` away from `y`.
pub open spec fn near(x: real, y: real, step: real) -> bool {
    y - step * (3real / 20real) <= x <= y + step * (3real / 20real)
}

/// A particle is a little off its place in the lattice.
proof fn lemma_jittered<T: Scalar>(r: Reading<T>, x: T, y: T, step: T, at: nat)
    requires
        r.sound(),
        r.never_rounds(),
        r.is(x),
        r.is(y),
        r.is(step) && r.at(step) > 0real,
    ensures
        ({
            let p = jittered(x, y, step, at);
            &&& r.is_vec(p)
            &&& near(r.at(p.x), r.at(x), r.at(step))
            &&& near(r.at(p.y), r.at(y), r.at(step))
        }),
{
    let n = at as u32;
    law_noise_keeps_to_its_range(r, n);
    law_noise_keeps_to_its_range(r, n ^ 0x9e37);
    lemma_jolt(r, noise(n), step);
    lemma_jolt(r, noise(n ^ 0x9e37), step);
}

/// How far a particle is off its place.
proof fn lemma_jolt<T: Scalar>(r: Reading<T>, c: T, step: T)
    requires
        r.sound(),
        r.never_rounds(),
        r.is(c) && 0real <= r.at(c) < 1real,
        r.is(step) && r.at(step) > 0real,
    ensures
        ({
            let j = prod(prod(diff(c, lit(1, 2)), step), lit(3, 10));
            r.is(j) && near(r.at(j), 0real, r.at(step))
        }),
{
    assert(r.fits(1i32 as real / 2i32 as real));
    assert(r.fits(3i32 as real / 10i32 as real));
    lemma_literal(r, 1, 2);
    lemma_literal(r, 3, 10);
    let d = diff(c, lit(1, 2));
    assert(r.is(d));
    let e = prod(d, step);
    assert(r.is(e));
    let (x, s) = (r.at(d), r.at(step));
    let y = x * s;
    assert(0real - s / 2real <= y && y <= s / 2real) by (nonlinear_arith)
        requires
            s > 0real,
            0real - 1real / 2real <= x,
            x <= 1real / 2real,
            y == x * s,
    ;
    assert(r.means(prod(e, lit(3, 10)), y * (3real / 10real)));
}

/// Row and place of a row of the water, from its beginning to its end.
proof fn lemma_lattice_row<T: Scalar>(
    r: Reading<T>,
    x: T,
    y: T,
    x1: T,
    step: T,
    at: nat,
    room: nat,
    k: int,
)
    requires
        r.sound(),
        r.never_rounds(),
        r.is(x),
        r.is(y),
        r.is(x1),
        r.is(step) && r.at(step) > 0real,
        0 <= k < lattice_row(x, y, x1, step, at, room).len(),
    ensures
        ({
            let p = lattice_row(x, y, x1, step, at, room)[k];
            let place = r.at(x) + k as real * r.at(step);
            &&& r.is_vec(p)
            &&& near(r.at(p.x), place, r.at(step)) && place < r.at(x1)
            &&& near(r.at(p.y), r.at(y), r.at(step))
        }),
    decreases room,
{
    lemma_jittered(r, x, y, step, at);
    lemma_units(r.at(step));
    if k > 0 {
        let next = sum(x, step);
        assert(r.is(next));
        lemma_lattice_row(r, next, y, x1, step, at + 1, (room - 1) as nat, k - 1);
        lemma_spread(r.at(step), (k - 1) as real, 1real);
        let rest = lattice_row(next, y, x1, step, at + 1, (room - 1) as nat);
        assert(lattice_row(x, y, x1, step, at, room)[k] == rest[k - 1]);
    }
}

/// Row and place of particle `i` of the water's rows from row `q` on.
proof fn lemma_in_lattice<T: Scalar>(
    r: Reading<T>,
    y: T,
    q: nat,
    x0: T,
    x1: T,
    y1: T,
    step: T,
    at: nat,
    i: int,
) -> (site: (nat, nat))
    requires
        r.sound(),
        r.never_rounds(),
        r.is(y),
        r.is(x0),
        r.is(x1),
        r.is(y1),
        r.is(step) && r.at(step) > 0real,
        0 <= i < lattice_rows(y, q, x0, x1, y1, step, at).len(),
    ensures
        ({
            let p = lattice_rows(y, q, x0, x1, y1, step, at)[i];
            let s = r.at(step);
            let px = r.at(x0) + in_turn(site.0, s) + site.1 as real * s;
            let py = r.at(y) + (site.0 - q) as real * s;
            &&& q <= site.0
            &&& r.is_vec(p) && near(r.at(p.x), px, s) && near(r.at(p.y), py, s)
            &&& px < r.at(x1) && py < r.at(y1)
        }),
    decreases MAX_ROWS - q,
{
    let s = r.at(step);
    assert(r.fits(0i32 as real / 1i32 as real));
    assert(r.fits(1i32 as real / 2i32 as real));
    lemma_literal(r, 0, 1);
    lemma_literal(r, 1, 2);
    assert(r.means(prod(step, lit(1, 2)), s * (1real / 2real)));
    let start = lattice_start(x0, step, q);
    assert(r.means(start, r.at(x0) + in_turn(q, s)));
    let line = lattice_row(start, y, x1, step, at, usize::MAX as nat);
    let next = sum(y, step);
    let rest = lattice_rows(next, q + 1, x0, x1, y1, step, at + line.len());
    assert(lattice_rows(y, q, x0, x1, y1, step, at) == line + rest);
    lemma_units(s);
    if i < line.len() {
        lemma_lattice_row(r, start, y, x1, step, at, usize::MAX as nat, i);
        assert((line + rest)[i] == line[i]);
        (q, i as nat)
    } else {
        assert((line + rest)[i] == rest[i - line.len()]);
        assert(r.is(next));
        let site = lemma_in_lattice(
            r,
            next,
            q + 1,
            x0,
            x1,
            y1,
            step,
            at + line.len(),
            i - line.len(),
        );
        lemma_spread(s, (site.0 - q - 1) as real, 1real);
        site
    }
}

/// How far a row of the water is shifted: every other one by half a step.
pub open spec fn in_turn(row: nat, step: real) -> real {
    if row % 2 == 0 {
        0real
    } else {
        step / 2real
    }
}

/// The water starts in staggered rows, half a cell apart, from six hundredths of the width
/// and of the height on, up to forty-five hundredths of the width and six tenths of the
/// height; a particle is up to three twentieths of that distance off its place. Row and
/// place are returned.
pub proof fn law_water_starts_in_rows<T: Scalar>(
    r: Reading<T>,
    nx: int,
    ny: int,
    h: T,
    i: int,
) -> (site: (nat, nat))
    requires
        r.sound(),
        r.never_rounds(),
        0 <= nx < usize::MAX,
        0 <= ny < usize::MAX,
        r.is(h) && r.at(h) > 0real,
        0 <= i < basin_block(nx, ny, h).len(),
    ensures
        ({
            let p = basin_block(nx, ny, h)[i];
            let s = r.at(h) / 2real;
            let (w, t) = (nx as real * r.at(h), ny as real * r.at(h));
            let px = w * (6real / 100real) + in_turn(site.0, s) + site.1 as real * s;
            let py = t * (6real / 100real) + site.0 as real * s;
            &&& r.is_vec(p) && near(r.at(p.x), px, s) && near(r.at(p.y), py, s)
            &&& px < w * (45real / 100real) && py < t * (6real / 10real)
        }),
{
    assert(r.fits(6i32 as real / 100i32 as real));
    assert(r.fits(45i32 as real / 100i32 as real));
    assert(r.fits(6i32 as real / 10i32 as real));
    assert(r.fits(1i32 as real / 2i32 as real));
    lemma_literal(r, 6, 100);
    lemma_literal(r, 45, 100);
    lemma_literal(r, 6, 10);
    lemma_literal(r, 1, 2);
    assert(r.fits((nx as usize) as real));
    assert(r.fits((ny as usize) as real));
    assert(r.means(count::<T>(nx as usize), nx as real));
    assert(r.means(count::<T>(ny as usize), ny as real));
    let (w, t) = (stretch(nx, h), stretch(ny, h));
    assert(r.is(w) && r.is(t));
    let step = prod(h, lit(1, 2));
    assert(r.means(step, r.at(h) * (1real / 2real)));
    assert(r.is(prod(t, lit(6, 100))) && r.is(prod(w, lit(6, 100))));
    assert(r.is(prod(w, lit(45, 100))) && r.is(prod(t, lit(6, 10))));
    lemma_in_lattice(
        r,
        prod(t, lit(6, 100)),
        0,
        prod(w, lit(6, 100)),
        prod(w, lit(45, 100)),
        prod(t, lit(6, 10)),
        step,
        0,
        i,
    )
}

} // verus!
