//! How the pressure makes the water incompressible.

use crate::scalar::Scalar;
#[allow(unused_imports)]
use crate::flip::{
    fills, lemma_a_row_keeps_the_faces, lemma_around, Basin, Faces, FlipModel, FlipSettings,
};
#[allow(unused_imports)]
use crate::layout::{lemma_col_row_of_place, place};
#[allow(unused_imports)]
use crate::reals::{lemma_literal, Reading};
#[allow(unused_imports)]
use crate::scalar::lit;
use vstd::prelude::*;

verus! {

/// The velocities on the four faces of a cell.
pub struct Sides {
    pub left: real,
    pub right: real,
    pub below: real,
    pub above: real,
}

impl Sides {
    /// How much more flows out than in.
    pub open spec fn surplus(self) -> real {
        self.right - self.left + self.above - self.below
    }
}

/// The velocities on the faces of cell `(i, j)`.
pub open spec fn sides<T: Scalar>(r: Reading<T>, f: Faces<T>, nx: int, i: int, j: int) -> Sides {
    Sides {
        left: r.at(f.u[place(i, j, nx + 1)]),
        right: r.at(f.u[place(i + 1, j, nx + 1)]),
        below: r.at(f.v[place(i, j, nx)]),
        above: r.at(f.v[place(i, j + 1, nx)]),
    }
}

/// The velocities on the faces of cell `(i, j)` are numbers.
pub open spec fn sides_are_numbers<T: Scalar>(
    r: Reading<T>,
    f: Faces<T>,
    nx: int,
    i: int,
    j: int,
) -> bool {
    &&& r.is(f.u[place(i, j, nx + 1)])
    &&& r.is(f.u[place(i + 1, j, nx + 1)])
    &&& r.is(f.v[place(i, j, nx)])
    &&& r.is(f.v[place(i, j + 1, nx)])
}

/// Which of the neighbours of a cell are open.
pub struct Ways {
    pub left: bool,
    pub right: bool,
    pub below: bool,
    pub above: bool,
}

/// One for yes, nothing for no.
pub open spec fn tally(yes: bool) -> real {
    if yes {
        1real
    } else {
        0real
    }
}

/// `x` where `yes` holds, and nothing where it does not.
pub open spec fn passed(yes: bool, x: real) -> real {
    if yes {
        x
    } else {
        0real
    }
}

impl Ways {
    /// The ways out of inner cell `(i, j)` of a grid of `nx` by `ny` cells, whose
    /// border is solid.
    pub open spec fn of(nx: int, ny: int, i: int, j: int) -> Ways {
        Ways { left: i > 1, right: i < nx - 2, below: j > 1, above: j < ny - 2 }
    }

    /// How many there are.
    pub open spec fn number(self) -> real {
        tally(self.left) + tally(self.right) + tally(self.below) + tally(self.above)
    }

    /// Velocities through the open ways alone.
    pub open spec fn limit(self, s: Sides) -> Sides {
        Sides {
            left: passed(self.left, s.left),
            right: passed(self.right, s.right),
            below: passed(self.below, s.below),
            above: passed(self.above, s.above),
        }
    }

    /// The velocities through the open ways once a velocity `p` outward is added to
    /// each.
    pub open spec fn widened(self, s: Sides, p: real) -> Sides {
        self.limit(
            Sides {
                left: s.left - p,
                right: s.right + p,
                below: s.below - p,
                above: s.above + p,
            },
        )
    }
}

/// The inner cells of the basin are open and its border is solid.
pub open spec fn bordered<T: Scalar>(r: Reading<T>, basin: Basin<T>) -> bool {
    forall|i: int, j: int|
        0 <= i < basin.nx && 0 <= j < basin.ny ==> r.means(
            #[trigger] basin.s[place(i, j, basin.nx)],
            tally(1 <= i < basin.nx - 1 && 1 <= j < basin.ny - 1),
        )
}

/// Nothing is rounded where `surplus`, summed up over the sides `s`, is shared out in
/// equal parts over the open ways.
pub open spec fn shares_fit<T: Scalar>(r: Reading<T>, ways: Ways, s: Sides, relax: real) -> bool {
    let p = 0real - s.surplus() / ways.number() * relax;
    let t = ways.widened(s, p);
    &&& r.fits(0real) && r.fits(1real) && r.fits(2real) && r.fits(3real) && r.fits(4real)
    &&& r.fits(s.right - s.left) && r.fits(s.right - s.left + s.above) && r.fits(s.surplus())
    &&& r.fits(0real - s.surplus() / ways.number()) && r.fits(p)
    &&& r.fits(t.left) && r.fits(t.right) && r.fits(t.below) && r.fits(t.above)
}

/// A visit of the pressure solver to a fluid cell takes its surplus away: whatever
/// more flows out of the cell than in, through the faces that are not a wall's, that
/// many times `over_relax` flows back in after the visit, in equal parts through all
/// open sides. With `over_relax` one nothing more flows out than in. Nothing flows
/// through the walls. This is exact where nothing is rounded on the way.
pub proof fn law_visit_takes_the_surplus_away<T: Scalar>(
    r: Reading<T>,
    basin: Basin<T>,
    f: Faces<T>,
    i: int,
    j: int,
)
    requires
        r.sound(),
        fills(f, basin),
        bordered(r, basin),
        1 <= i < basin.nx - 1,
        1 <= j < basin.ny - 1,
        basin.is_fluid[place(i, j, basin.nx)],
        sides_are_numbers(r, f, basin.nx, i, j),
        r.is(basin.over_relax),
        Ways::of(basin.nx, basin.ny, i, j).number() > 0real,
        shares_fit(
            r,
            Ways::of(basin.nx, basin.ny, i, j),
            Ways::of(basin.nx, basin.ny, i, j).limit(sides(r, f, basin.nx, i, j)),
            r.at(basin.over_relax),
        ),
    ensures
        ({
            let ways = Ways::of(basin.nx, basin.ny, i, j);
            let was = ways.limit(sides(r, f, basin.nx, i, j));
            let g = basin.eased_cell(f, i, j);
            let now = sides(r, g, basin.nx, i, j);
            let relax = r.at(basin.over_relax);
            &&& sides_are_numbers(r, g, basin.nx, i, j)
            &&& now == ways.widened(was, 0real - was.surplus() / ways.number() * relax)
            &&& now.surplus() == was.surplus() - relax * was.surplus()
        }),
{
    let (n, w) = (basin.nx, basin.nx + 1);
    let ways = Ways::of(n, basin.ny, i, j);
    let was = ways.limit(sides(r, f, n, i, j));
    let relax = r.at(basin.over_relax);
    let k = ways.number();
    lemma_around(i, j, n, basin.ny);
    assert(n * (j + 1) == n * j + n) by (nonlinear_arith);
    assert(r.fits(0i32 as real / 1i32 as real));
    lemma_literal(r, 0, 1);
    let zero = lit::<T>(0, 1);
    assert(r.means(zero, 0real));
    let g = basin.shut(f, i, j);
    assert(ways.left ==> g.u[place(i, j, w)] == f.u[place(i, j, w)]);
    assert(sides(r, g, n, i, j) == was);
    let (a, b, c, d) = (
        basin.s[place(i - 1, j, n)],
        basin.s[place(i + 1, j, n)],
        basin.s[place(i, j - 1, n)],
        basin.s[place(i, j + 1, n)],
    );
    assert(r.means(a, tally(ways.left)));
    assert(r.means(b, tally(ways.right)));
    assert(r.means(c, tally(ways.below)));
    assert(r.means(d, tally(ways.above)));
    assert(r.means(basin.openings(i, j), k));
    assert(r.means(basin.outflow(g, i, j), was.surplus()));
    let x = was.surplus();
    assert((0real - x) / k == 0real - x / k) by (nonlinear_arith)
        requires
            k > 0real,
    ;
    assert((0real - x / k) * relax == 0real - x / k * relax) by (nonlinear_arith);
    let p = 0real - x / k * relax;
    let done = basin.eased_cell(f, i, j);
    assert(sides(r, done, n, i, j) == ways.widened(was, p));
    let (e, f1, g1, h1) = (tally(ways.left), tally(ways.right), tally(ways.below), tally(ways.above));
    assert(e * p == passed(ways.left, p) && f1 * p == passed(ways.right, p) && g1 * p == passed(
        ways.below,
        p,
    ) && h1 * p == passed(ways.above, p)) by (nonlinear_arith)
        requires
            e == tally(ways.left),
            f1 == tally(ways.right),
            g1 == tally(ways.below),
            h1 == tally(ways.above),
    ;
    assert((e + f1 + g1 + h1) * p == e * p + f1 * p + g1 * p + h1 * p) by (nonlinear_arith);
    assert(k * (x / k * relax) == relax * x) by (nonlinear_arith)
        requires
            k > 0real,
    ;
    assert(k * p == 0real - relax * x) by (nonlinear_arith)
        requires
            p == 0real - x / k * relax,
            k * (x / k * relax) == relax * x,
    ;
}

/// The velocities on all faces are numbers.
pub open spec fn flow_is_numbers<T: Scalar>(r: Reading<T>, f: Faces<T>) -> bool {
    &&& forall|k: int| 0 <= k < f.u.len() ==> r.is(#[trigger] f.u[k])
    &&& forall|k: int| 0 <= k < f.v.len() ==> r.is(#[trigger] f.v[k])
}

/// Scalars that hold every number, and a basin with a flow of numbers in it.
pub open spec fn ideal_flow<T: Scalar>(r: Reading<T>, basin: Basin<T>, f: Faces<T>) -> bool {
    &&& r.sound()
    &&& r.never_rounds()
    &&& bordered(r, basin)
    &&& r.is(basin.over_relax)
    &&& fills(f, basin)
    &&& flow_is_numbers(r, f)
}

/// A visit to a cell keeps the flow one of numbers.
proof fn lemma_visit_keeps_numbers<T: Scalar>(
    r: Reading<T>,
    basin: Basin<T>,
    f: Faces<T>,
    i: int,
    j: int,
)
    requires
        ideal_flow(r, basin, f),
        1 <= i < basin.nx - 1,
        1 <= j < basin.ny - 1,
    ensures
        ideal_flow(r, basin, basin.eased_cell(f, i, j)),
{
    let n = basin.nx;
    let ways = Ways::of(n, basin.ny, i, j);
    lemma_around(i, j, n, basin.ny);
    assert(n * (j + 1) == n * j + n) by (nonlinear_arith);
    assert(r.fits(0i32 as real / 1i32 as real));
    lemma_literal(r, 0, 1);
    let g = basin.shut(f, i, j);
    assert(flow_is_numbers(r, g));
    if basin.is_fluid[place(i, j, n)] {
        if ways.number() > 0real {
            law_visit_takes_the_surplus_away(r, basin, f, i, j);
            let done = basin.eased_cell(f, i, j);
            assert forall|k: int| 0 <= k < done.u.len() implies r.is(#[trigger] done.u[k]) by {
                if k != place(i, j, n + 1) && k != place(i + 1, j, n + 1) {
                    assert(done.u[k] == f.u[k]);
                }
            }
            assert forall|k: int| 0 <= k < done.v.len() implies r.is(#[trigger] done.v[k]) by {
                if k != place(i, j, n) && k != place(i, j + 1, n) {
                    assert(done.v[k] == f.v[k]);
                }
            }
        } else {
            let (a, b, c, d) = (
                basin.s[place(i - 1, j, n)],
                basin.s[place(i + 1, j, n)],
                basin.s[place(i, j - 1, n)],
                basin.s[place(i, j + 1, n)],
            );
            assert(r.means(a, 0real) && r.means(b, 0real) && r.means(c, 0real) && r.means(d, 0real));
            assert(r.means(basin.openings(i, j), 0real));
        }
    }
}

/// Visits along a row keep the flow one of numbers.
proof fn lemma_row_keeps_numbers<T: Scalar>(
    r: Reading<T>,
    basin: Basin<T>,
    f: Faces<T>,
    j: int,
    i: int,
)
    requires
        ideal_flow(r, basin, f),
        i <= basin.nx - 1,
        1 <= j < basin.ny - 1,
    ensures
        ideal_flow(r, basin, basin.eased_row(f, j, i)),
    decreases i,
{
    if i > 1 {
        lemma_row_keeps_numbers(r, basin, f, j, i - 1);
        lemma_visit_keeps_numbers(r, basin, basin.eased_row(f, j, i - 1), i - 1, j);
    }
}

/// Visits row by row keep the flow one of numbers.
proof fn lemma_rows_keep_numbers<T: Scalar>(r: Reading<T>, basin: Basin<T>, f: Faces<T>, j: int)
    requires
        ideal_flow(r, basin, f),
        j <= basin.ny - 1,
    ensures
        ideal_flow(r, basin, basin.eased_rows(f, j)),
    decreases j,
{
    if j > 1 {
        lemma_rows_keep_numbers(r, basin, f, j - 1);
        lemma_row_keeps_numbers(r, basin, basin.eased_rows(f, j - 1), j - 1, basin.nx - 1);
    }
}

/// Sweeps keep the flow one of numbers.
pub(crate) proof fn lemma_sweeps_keep_numbers<T: Scalar>(
    r: Reading<T>,
    basin: Basin<T>,
    f: Faces<T>,
    sweeps: nat,
)
    requires
        ideal_flow(r, basin, f),
    ensures
        ideal_flow(r, basin, basin.eased(f, sweeps)),
    decreases sweeps,
{
    if sweeps > 0 {
        lemma_sweeps_keep_numbers(r, basin, f, (sweeps - 1) as nat);
        lemma_rows_keep_numbers(
            r,
            basin,
            basin.eased(f, (sweeps - 1) as nat),
            basin.ny - 1,
        );
    }
}

/// Cells `(a, b)` and `(i, j)` share a face.
pub open spec fn beside(a: int, b: int, i: int, j: int) -> bool {
    ||| b == j && (a == i - 1 || a == i + 1)
    ||| a == i && (b == j - 1 || b == j + 1)
}

/// A visit to a cell leaves the faces of the others alone, but for those of its
/// neighbours where it holds fluid.
proof fn lemma_visit_keeps_other_sides<T: Scalar>(
    r: Reading<T>,
    basin: Basin<T>,
    f: Faces<T>,
    a: int,
    b: int,
    i: int,
    j: int,
)
    requires
        fills(f, basin),
        1 <= a < basin.nx - 1,
        1 <= b < basin.ny - 1,
        1 <= i < basin.nx - 1,
        1 <= j < basin.ny - 1,
        a != i || b != j,
        beside(a, b, i, j) ==> !basin.is_fluid[place(a, b, basin.nx)],
    ensures
        sides(r, basin.eased_cell(f, a, b), basin.nx, i, j) == sides(r, f, basin.nx, i, j),
{
    let (n, w) = (basin.nx, basin.nx + 1);
    lemma_around(a, b, n, basin.ny);
    lemma_around(i, j, n, basin.ny);
    lemma_col_row_of_place(a, b, w);
    lemma_col_row_of_place(a + 1, b, w);
    lemma_col_row_of_place(i, j, w);
    lemma_col_row_of_place(i + 1, j, w);
    lemma_col_row_of_place(a, b, n);
    lemma_col_row_of_place(a, b + 1, n);
    lemma_col_row_of_place(i, j, n);
    lemma_col_row_of_place(i, j + 1, n);
}

/// Of what flows through cell `(i, j)`, as much flows in as out, and nothing through
/// a wall.
pub open spec fn balanced<T: Scalar>(
    r: Reading<T>,
    basin: Basin<T>,
    f: Faces<T>,
    i: int,
    j: int,
) -> bool {
    let s = sides(r, f, basin.nx, i, j);
    s.surplus() == 0real && Ways::of(basin.nx, basin.ny, i, j).limit(s) == s
}

/// A row that has passed a fluid cell leaves it balanced, where the cell to its right
/// is dry.
proof fn lemma_row_balances<T: Scalar>(
    r: Reading<T>,
    basin: Basin<T>,
    f: Faces<T>,
    a: int,
    i: int,
    j: int,
)
    requires
        ideal_flow(r, basin, f),
        r.at(basin.over_relax) == 1real,
        1 <= i < basin.nx - 1,
        1 <= j < basin.ny - 1,
        i < a <= basin.nx - 1,
        basin.is_fluid[place(i, j, basin.nx)],
        !basin.is_fluid[place(i + 1, j, basin.nx)],
        Ways::of(basin.nx, basin.ny, i, j).number() > 0real,
    ensures
        balanced(r, basin, basin.eased_row(f, j, a), i, j),
    decreases a,
{
    let g = basin.eased_row(f, j, a - 1);
    lemma_row_keeps_numbers(r, basin, f, j, a - 1);
    if a - 1 == i {
        lemma_around(i, j, basin.nx, basin.ny);
        law_visit_takes_the_surplus_away(r, basin, g, i, j);
    } else {
        lemma_row_balances(r, basin, f, a - 1, i, j);
        lemma_visit_keeps_other_sides(r, basin, g, a - 1, j, i, j);
    }
}

/// A row above a balanced cell leaves it balanced, where the cell above it is dry.
proof fn lemma_later_row_keeps_balance<T: Scalar>(
    r: Reading<T>,
    basin: Basin<T>,
    f: Faces<T>,
    a: int,
    b: int,
    i: int,
    j: int,
)
    requires
        fills(f, basin),
        1 <= i < basin.nx - 1,
        1 <= j < b < basin.ny - 1,
        a <= basin.nx - 1,
        !basin.is_fluid[place(i, j + 1, basin.nx)],
        balanced(r, basin, f, i, j),
    ensures
        balanced(r, basin, basin.eased_row(f, b, a), i, j),
    decreases a,
{
    if a > 1 {
        lemma_later_row_keeps_balance(r, basin, f, a - 1, b, i, j);
        lemma_a_row_keeps_the_faces(basin, f, b, a - 1);
        lemma_visit_keeps_other_sides(r, basin, basin.eased_row(f, b, a - 1), a - 1, b, i, j);
    }
}

/// Rows that have passed a fluid cell leave it balanced, where the cells to its right
/// and above it are dry.
proof fn lemma_rows_balance<T: Scalar>(
    r: Reading<T>,
    basin: Basin<T>,
    f: Faces<T>,
    b: int,
    i: int,
    j: int,
)
    requires
        ideal_flow(r, basin, f),
        r.at(basin.over_relax) == 1real,
        1 <= i < basin.nx - 1,
        1 <= j < basin.ny - 1,
        j < b <= basin.ny - 1,
        basin.is_fluid[place(i, j, basin.nx)],
        !basin.is_fluid[place(i + 1, j, basin.nx)],
        !basin.is_fluid[place(i, j + 1, basin.nx)],
        Ways::of(basin.nx, basin.ny, i, j).number() > 0real,
    ensures
        balanced(r, basin, basin.eased_rows(f, b), i, j),
    decreases b,
{
    let g = basin.eased_rows(f, b - 1);
    lemma_rows_keep_numbers(r, basin, f, b - 1);
    if b - 1 == j {
        lemma_row_balances(r, basin, g, basin.nx - 1, i, j);
    } else {
        lemma_rows_balance(r, basin, f, b - 1, i, j);
        lemma_later_row_keeps_balance(r, basin, g, basin.nx - 1, b - 1, i, j);
    }
}

/// Every sweep reaches every fluid cell: with `over_relax` one, a cell whose right and
/// upper neighbours hold no fluid, so that none of its faces is changed after the
/// visit, has after the sweeps as much flowing in as out, and nothing through a wall.
pub proof fn law_sweeps_reach_every_cell<T: Scalar>(
    r: Reading<T>,
    basin: Basin<T>,
    f: Faces<T>,
    sweeps: nat,
    i: int,
    j: int,
)
    requires
        ideal_flow(r, basin, f),
        r.at(basin.over_relax) == 1real,
        sweeps >= 1,
        1 <= i < basin.nx - 1,
        1 <= j < basin.ny - 1,
        basin.is_fluid[place(i, j, basin.nx)],
        !basin.is_fluid[place(i + 1, j, basin.nx)],
        !basin.is_fluid[place(i, j + 1, basin.nx)],
        Ways::of(basin.nx, basin.ny, i, j).number() > 0real,
    ensures
        balanced(r, basin, basin.eased(f, sweeps), i, j),
{
    lemma_sweeps_keep_numbers(r, basin, f, (sweeps - 1) as nat);
    lemma_rows_balance(
        r,
        basin,
        basin.eased(f, (sweeps - 1) as nat),
        basin.ny - 1,
        i,
        j,
    );
}

/// Two flows are the same on every face.
pub open spec fn same_flow<T: Scalar>(r: Reading<T>, f: Faces<T>, g: Faces<T>) -> bool {
    &&& f.u.len() == g.u.len()
    &&& f.v.len() == g.v.len()
    &&& forall|k: int| 0 <= k < f.u.len() ==> r.at(#[trigger] f.u[k]) == r.at(g.u[k])
    &&& forall|k: int| 0 <= k < f.v.len() ==> r.at(#[trigger] f.v[k]) == r.at(g.v[k])
}

/// Every fluid cell is balanced.
pub open spec fn incompressible<T: Scalar>(r: Reading<T>, basin: Basin<T>, f: Faces<T>) -> bool {
    forall|i: int, j: int|
        1 <= i < basin.nx - 1 && 1 <= j < basin.ny - 1 && #[trigger] basin.is_fluid[place(
            i,
            j,
            basin.nx,
        )] ==> balanced(r, basin, f, i, j)
}

/// A visit leaves an incompressible flow as it is.
proof fn lemma_visit_leaves_balance<T: Scalar>(
    r: Reading<T>,
    basin: Basin<T>,
    f: Faces<T>,
    i: int,
    j: int,
)
    requires
        ideal_flow(r, basin, f),
        incompressible(r, basin, f),
        1 <= i < basin.nx - 1,
        1 <= j < basin.ny - 1,
    ensures
        same_flow(r, basin.eased_cell(f, i, j), f),
        incompressible(r, basin, basin.eased_cell(f, i, j)),
{
    let n = basin.nx;
    let g = basin.eased_cell(f, i, j);
    lemma_around(i, j, n, basin.ny);
    assert(n * (j + 1) == n * j + n) by (nonlinear_arith);
    assert(r.fits(0i32 as real / 1i32 as real));
    lemma_literal(r, 0, 1);
    lemma_visit_keeps_numbers(r, basin, f, i, j);
    let ways = Ways::of(n, basin.ny, i, j);
    let was = sides(r, f, n, i, j);
    if basin.is_fluid[place(i, j, n)] {
        assert(balanced(r, basin, f, i, j));
        if ways.number() > 0real {
            law_visit_takes_the_surplus_away(r, basin, f, i, j);
            let relax = r.at(basin.over_relax);
            let k = ways.number();
            assert(0real / k * relax == 0real) by (nonlinear_arith)
                requires
                    k > 0real,
            ;
            assert(sides(r, g, n, i, j) == was);
        } else {
            let (a, b, c, d) = (
                basin.s[place(i - 1, j, n)],
                basin.s[place(i + 1, j, n)],
                basin.s[place(i, j - 1, n)],
                basin.s[place(i, j + 1, n)],
            );
            assert(r.means(a, 0real) && r.means(b, 0real) && r.means(c, 0real) && r.means(d, 0real));
            assert(r.means(basin.openings(i, j), 0real));
            assert(g == basin.shut(f, i, j));
            assert(sides(r, g, n, i, j) == was);
        }
        assert forall|k: int| 0 <= k < g.u.len() implies r.at(#[trigger] g.u[k]) == r.at(f.u[k]) by {
            if k == place(i, j, n + 1) {
                assert(sides(r, g, n, i, j).left == was.left);
            } else if k == place(i + 1, j, n + 1) {
                assert(sides(r, g, n, i, j).right == was.right);
            } else {
                assert(g.u[k] == f.u[k]);
            }
        }
        assert forall|k: int| 0 <= k < g.v.len() implies r.at(#[trigger] g.v[k]) == r.at(f.v[k]) by {
            if k == place(i, j, n) {
                assert(sides(r, g, n, i, j).below == was.below);
            } else if k == place(i, j + 1, n) {
                assert(sides(r, g, n, i, j).above == was.above);
            } else {
                assert(g.v[k] == f.v[k]);
            }
        }
    }
    assert forall|a: int, b: int|
        1 <= a < n - 1 && 1 <= b < basin.ny - 1 && #[trigger] basin.is_fluid[place(
            a,
            b,
            n,
        )] implies balanced(r, basin, g, a, b) by {
        lemma_around(a, b, n, basin.ny);
        assert(balanced(r, basin, f, a, b));
        assert(sides(r, g, n, a, b) == sides(r, f, n, a, b));
    }
}

/// A row of visits leaves an incompressible flow as it is.
proof fn lemma_row_leaves_balance<T: Scalar>(
    r: Reading<T>,
    basin: Basin<T>,
    f: Faces<T>,
    j: int,
    i: int,
)
    requires
        ideal_flow(r, basin, f),
        incompressible(r, basin, f),
        i <= basin.nx - 1,
        1 <= j < basin.ny - 1,
    ensures
        same_flow(r, basin.eased_row(f, j, i), f),
        incompressible(r, basin, basin.eased_row(f, j, i)),
    decreases i,
{
    if i > 1 {
        lemma_row_leaves_balance(r, basin, f, j, i - 1);
        lemma_row_keeps_numbers(r, basin, f, j, i - 1);
        lemma_visit_leaves_balance(r, basin, basin.eased_row(f, j, i - 1), i - 1, j);
    }
}

/// Rows of visits leave an incompressible flow as it is.
proof fn lemma_rows_leave_balance<T: Scalar>(r: Reading<T>, basin: Basin<T>, f: Faces<T>, j: int)
    requires
        ideal_flow(r, basin, f),
        incompressible(r, basin, f),
        j <= basin.ny - 1,
    ensures
        same_flow(r, basin.eased_rows(f, j), f),
        incompressible(r, basin, basin.eased_rows(f, j)),
    decreases j,
{
    if j > 1 {
        lemma_rows_leave_balance(r, basin, f, j - 1);
        lemma_rows_keep_numbers(r, basin, f, j - 1);
        lemma_row_leaves_balance(r, basin, basin.eased_rows(f, j - 1), j - 1, basin.nx - 1);
    }
}

/// The pressure solver leaves an incompressible flow as it is, whatever `over_relax`
/// is and however many sweeps it makes.
pub proof fn law_incompressible_flow_is_kept<T: Scalar>(
    r: Reading<T>,
    basin: Basin<T>,
    f: Faces<T>,
    sweeps: nat,
)
    requires
        ideal_flow(r, basin, f),
        incompressible(r, basin, f),
    ensures
        same_flow(r, basin.eased(f, sweeps), f),
        incompressible(r, basin, basin.eased(f, sweeps)),
    decreases sweeps,
{
    if sweeps > 0 {
        let before = (sweeps - 1) as nat;
        law_incompressible_flow_is_kept(r, basin, f, before);
        lemma_sweeps_keep_numbers(r, basin, f, before);
        lemma_rows_leave_balance(r, basin, basin.eased(f, before), basin.ny - 1);
    }
}

/// Water with the given number of sweeps to make.
pub open spec fn with_sweeps<T: Scalar>(water: FlipModel<T>, iters: nat) -> FlipModel<T> {
    FlipModel { cfg: FlipSettings { iters, ..water.cfg }, ..water }
}

/// Sweeps add up: the pressure solver goes on with more of them from where fewer have
/// brought the flow, and without any it leaves the flow alone.
pub proof fn law_sweeps_add_up<T: Scalar>(water: FlipModel<T>, a: nat, b: nat)
    ensures
        with_sweeps(water, a + b).solved().u == with_sweeps(
            with_sweeps(water, a).solved(),
            b,
        ).solved().u,
        with_sweeps(water, a + b).solved().v == with_sweeps(
            with_sweeps(water, a).solved(),
            b,
        ).solved().v,
        with_sweeps(water, 0).solved().u == water.u,
        with_sweeps(water, 0).solved().v == water.v,
    decreases b,
{
    let f = Faces { u: water.u, v: water.v };
    let basin = water.basin();
    assert(with_sweeps(water, a).basin() == basin);
    assert(with_sweeps(water, a + b).basin() == basin);
    if b > 0 {
        law_sweeps_add_up(water, a, (b - 1) as nat);
        assert((a + b - 1) as nat == a + (b - 1) as nat);
        assert(with_sweeps(water, a + (b - 1) as nat).basin() == basin);
    }
    let g = basin.eased(f, a);
    assert(with_sweeps(with_sweeps(water, a).solved(), b).basin() == basin);
}

} // verus!
