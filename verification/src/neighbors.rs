//! Neighbour search on a uniform grid. The cells are as wide as the kernels
//! reach, so that the particles that can act on one another lie in the same
//! cell or in cells that touch.

use crate::scalar::Scalar;
use crate::sim::Bounds;
use crate::vec2::Vec2;
#[allow(unused_imports)]
use crate::layout::{lemma_col_row_of_place, lemma_place_in_grid, place};
#[allow(unused_imports)]
use crate::scalar::{ceiling, clamped, count, exact, greater, index, lit, quot};
#[allow(unused_imports)]
use crate::sim::reach;
use vstd::prelude::*;

verus! {

/// Whole cells that a side of the given length takes up, at least one.
pub open spec fn span<T: Scalar>(side: T) -> usize {
    index(greater(ceiling(quot(side, reach())), lit(1, 1)))
}

/// Columns of the grid over the container.
pub open spec fn columns<T: Scalar>(bounds: Bounds<T>) -> int {
    span(bounds.w) + 1
}

/// Rows of the grid over the container.
pub open spec fn lines<T: Scalar>(bounds: Bounds<T>) -> int {
    span(bounds.h) + 1
}

/// The grid over the container can be indexed.
pub open spec fn indexable<T: Scalar>(bounds: Bounds<T>) -> bool {
    &&& columns(bounds) <= usize::MAX
    &&& lines(bounds) <= usize::MAX
    &&& columns(bounds) * lines(bounds) <= usize::MAX
}

/// Cell along one axis that coordinate `x` falls into, of `cells` cells. What
/// lies outside the grid counts to the outermost cell.
pub open spec fn slot<T: Scalar>(x: T, cells: int) -> int {
    let k = index(clamped(quot(x, reach()), lit(0, 1), count((cells - 1) as usize)));
    if k > cells - 1 {
        cells - 1
    } else {
        k as int
    }
}

/// Place of the cell that `p` falls into.
pub open spec fn home<T: Scalar>(p: Vec2<T>, cols: int, rows: int) -> int {
    place(slot(p.x, cols), slot(p.y, rows), cols)
}

/// Those of the first `upto` particles that fall into cell `c`, in order.
pub open spec fn bucket<T: Scalar>(
    pos: Seq<Vec2<T>>,
    cols: int,
    rows: int,
    c: int,
    upto: nat,
) -> Seq<usize>
    decreases upto,
{
    if upto == 0 {
        seq![]
    } else {
        let before = bucket(pos, cols, rows, c, (upto - 1) as nat);
        if home(pos[upto - 1], cols, rows) == c {
            before.push((upto - 1) as usize)
        } else {
            before
        }
    }
}

/// The first `upto` particles sorted into the cells of the grid.
pub open spec fn sorted<T: Scalar>(
    pos: Seq<Vec2<T>>,
    cols: int,
    rows: int,
    upto: nat,
) -> Seq<Seq<usize>> {
    Seq::new((cols * rows) as nat, |c: int| bucket(pos, cols, rows, c, upto))
}

/// Particles in the cells of row `y`, from column `x0` up to but not including
/// column `x`.
pub open spec fn in_row(grid: Seq<Seq<usize>>, cols: int, y: int, x0: int, x: int) -> Seq<usize>
    decreases x - x0,
{
    if x <= x0 {
        seq![]
    } else {
        in_row(grid, cols, y, x0, x - 1) + grid[place(x - 1, y, cols)]
    }
}

/// Particles in the cells of columns `x0` to `x1` and of the rows from `y0` up
/// to but not including `y`, row by row.
pub open spec fn in_block(
    grid: Seq<Seq<usize>>,
    cols: int,
    x0: int,
    x1: int,
    y0: int,
    y: int,
) -> Seq<usize>
    decreases y - y0,
{
    if y <= y0 {
        seq![]
    } else {
        in_block(grid, cols, x0, x1, y0, y - 1) + in_row(grid, cols, y - 1, x0, x1 + 1)
    }
}

/// The cell before `c`, or `c` itself at the edge of the grid.
pub open spec fn cell_before(c: int) -> int {
    if c > 0 {
        c - 1
    } else {
        0
    }
}

/// The cell after `c`, or `c` itself at the edge of a grid of `cells` cells.
pub open spec fn cell_after(c: int, cells: int) -> int {
    if c + 1 < cells {
        c + 1
    } else {
        cells - 1
    }
}

/// Particles in the cell of `p` and the cells that touch it.
pub open spec fn nearby<T: Scalar>(
    p: Vec2<T>,
    grid: Seq<Seq<usize>>,
    cols: int,
    rows: int,
) -> Seq<usize> {
    let cx = slot(p.x, cols);
    let cy = slot(p.y, rows);
    in_block(
        grid,
        cols,
        cell_before(cx),
        cell_after(cx, cols),
        cell_before(cy),
        cell_after(cy, rows) + 1,
    )
}

/// The lists of a grid of cells.
pub open spec fn lists(grid: Seq<Vec<usize>>) -> Seq<Seq<usize>> {
    Seq::new(grid.len(), |c: int| grid[c]@)
}

/// Whether the grid over the container can be indexed.
pub fn grid_fits<T: Scalar>(bounds: &Bounds<T>) -> (fits: bool)
    requires
        exact::<T>(),
    ensures
        fits == indexable(*bounds),
{
    let (cols, rows): (usize, usize) = (cells_over(bounds.w), cells_over(bounds.h));
    if cols == usize::MAX || rows == usize::MAX {
        return false;
    }
    (cols + 1).checked_mul(rows + 1).is_some()
}

/// Whole cells that a side of the given length takes up, at least one.
pub(crate) fn cells_over<T: Scalar>(side: T) -> (k: usize)
    requires
        exact::<T>(),
    ensures
        k == span(side),
{
    side.over(T::ratio(16, 1)).ceil().upper(T::ratio(1, 1)).to_index()
}

/// Cell along one axis that coordinate `x` falls into.
fn slot_of<T: Scalar>(x: T, cells: usize) -> (k: usize)
    requires
        exact::<T>(),
        cells >= 1,
    ensures
        k == slot(x, cells as int),
        k < cells,
{
    let k: usize = x.over(T::ratio(16, 1)).clamp(
        T::ratio(0, 1),
        T::of_count(cells - 1),
    ).to_index();
    if k > cells - 1 {
        cells - 1
    } else {
        k
    }
}

/// Column and row of the cell that `p` falls into.
pub fn cell_of<T: Scalar>(p: Vec2<T>, cols: usize, rows: usize) -> (c: (usize, usize))
    requires
        exact::<T>(),
        cols >= 1,
        rows >= 1,
    ensures
        c.0 == slot(p.x, cols as int),
        c.1 == slot(p.y, rows as int),
        c.0 < cols,
        c.1 < rows,
{
    (slot_of(p.x, cols), slot_of(p.y, rows))
}

/// The particles in the cell of `p` and the cells that touch it.
pub fn for_neighbors<T: Scalar>(
    p: Vec2<T>,
    grid: &Vec<Vec<usize>>,
    cols: usize,
    rows: usize,
) -> (near: Vec<usize>)
    requires
        exact::<T>(),
        cols >= 1,
        rows >= 1,
        grid@.len() == cols * rows,
    ensures
        near@ == nearby(p, lists(grid@), cols as int, rows as int),
{
    let (cx, cy): (usize, usize) = cell_of(p, cols, rows);
    let x0: usize = if cx > 0 { cx - 1 } else { 0 };
    let y0: usize = if cy > 0 { cy - 1 } else { 0 };
    let x1: usize = if cx < cols - 1 { cx + 1 } else { cols - 1 };
    let y1: usize = if cy < rows - 1 { cy + 1 } else { rows - 1 };
    let ghost cells = lists(grid@);
    let ghost w = cols as int;
    let size: usize = grid.len();
    let mut near: Vec<usize> = Vec::new();
    let mut y: usize = y0;
    while y <= y1
        invariant
            y0 <= y <= y1 + 1,
            x0 <= x1 < cols,
            y1 < rows,
            w == cols,
            size == cols * rows,
            grid@.len() == size,
            cells == lists(grid@),
            near@ == in_block(cells, w, x0 as int, x1 as int, y0 as int, y as int),
        decreases y1 + 1 - y,
    {
        let ghost done = near@;
        let mut x: usize = x0;
        while x <= x1
            invariant
                x0 <= x <= x1 + 1,
                x0 <= x1 < cols,
                y0 <= y <= y1 < rows,
                w == cols,
                size == cols * rows,
                grid@.len() == size,
                cells == lists(grid@),
                near@ == done + in_row(cells, w, y as int, x0 as int, x as int),
            decreases x1 + 1 - x,
        {
            proof {
                lemma_place_in_grid(x as int, y as int, cols as int, rows as int);
                assert(cols * y == w * y);
                assert(y * cols == cols * y) by (nonlinear_arith);
            }
            let k: usize = y * cols + x;
            let list: &Vec<usize> = &grid[k];
            let ghost so_far = near@;
            let mut m: usize = 0;
            while m < list.len()
                invariant
                    m <= list@.len(),
                    near@ == so_far + list@.subrange(0, m as int),
                decreases list.len() - m,
            {
                near.push(list[m]);
                m = m + 1;
                assert(near@ =~= so_far + list@.subrange(0, m as int));
            }
            assert(list@.subrange(0, list@.len() as int) =~= list@);
            assert(cells[place(x as int, y as int, w)] == list@);
            x = x + 1;
            assert(near@ =~= done + in_row(cells, w, y as int, x0 as int, x as int));
        }
        y = y + 1;
    }
    near
}

/// Sort the particles into the cells of the grid, reusing the lists of the
/// previous grid where it has the same extent.
pub(crate) fn sort_particles<T: Scalar>(
    grid: &mut Vec<Vec<usize>>,
    reusable: bool,
    pos: &Vec<Vec2<T>>,
    cols: usize,
    rows: usize,
)
    requires
        exact::<T>(),
        cols >= 1,
        rows >= 1,
        cols * rows <= usize::MAX,
        reusable ==> old(grid)@.len() == cols * rows,
    ensures
        lists(final(grid)@) == sorted(pos@, cols as int, rows as int, pos@.len()),
{
    let size: usize = cols * rows;
    if !reusable {
        *grid = Vec::new();
        let mut c: usize = 0;
        while c < size
            invariant
                c <= size,
                grid@.len() == c,
                forall|k: int| 0 <= k < c ==> #[trigger] grid@[k]@ == Seq::<usize>::empty(),
            decreases size - c,
        {
            grid.push(Vec::new());
            c = c + 1;
        }
    } else {
        let mut c: usize = 0;
        while c < size
            invariant
                c <= size,
                grid@.len() == size,
                forall|k: int| 0 <= k < c ==> #[trigger] grid@[k]@ == Seq::<usize>::empty(),
            decreases size - c,
        {
            grid[c].clear();
            c = c + 1;
        }
    }
    let mut i: usize = 0;
    while i < pos.len()
        invariant
            exact::<T>(),
            cols >= 1,
            rows >= 1,
            size == cols * rows,
            i <= pos@.len(),
            grid@.len() == size,
            forall|c: int|
                0 <= c < size ==> #[trigger] grid@[c]@ == bucket(
                    pos@,
                    cols as int,
                    rows as int,
                    c,
                    i as nat,
                ),
        decreases pos.len() - i,
    {
        let (cx, cy): (usize, usize) = cell_of(pos[i], cols, rows);
        proof {
            lemma_place_in_grid(cx as int, cy as int, cols as int, rows as int);
            assert(cy * cols == cols * cy) by (nonlinear_arith);
        }
        let k: usize = cy * cols + cx;
        grid[k].push(i);
        i = i + 1;
    }
    assert(lists(grid@) =~= sorted(pos@, cols as int, rows as int, pos@.len()));
}

/// All of `list` are less than `n`.
pub open spec fn all_below(list: Seq<usize>, n: int) -> bool {
    forall|k: int| 0 <= k < list.len() ==> #[trigger] list[k] < n
}

/// `list` is in ascending order, and nothing occurs in it twice.
pub open spec fn ascending(list: Seq<usize>) -> bool {
    forall|k: int, m: int| 0 <= k < m < list.len() ==> #[trigger] list[k] < #[trigger] list[m]
}

/// All particles of `list` fall into cell `c`.
pub open spec fn all_at_home<T: Scalar>(
    list: Seq<usize>,
    pos: Seq<Vec2<T>>,
    cols: int,
    rows: int,
    c: int,
) -> bool {
    forall|k: int| 0 <= k < list.len() ==> home(pos[#[trigger] list[k] as int], cols, rows) == c
}

/// A cell lists indices of particles, each of them in that cell, in ascending
/// order.
pub proof fn lemma_bucket<T: Scalar>(
    pos: Seq<Vec2<T>>,
    cols: int,
    rows: int,
    c: int,
    upto: nat,
)
    requires
        upto <= pos.len() <= usize::MAX,
    ensures
        all_below(bucket(pos, cols, rows, c, upto), upto as int),
        all_at_home(bucket(pos, cols, rows, c, upto), pos, cols, rows, c),
        ascending(bucket(pos, cols, rows, c, upto)),
    decreases upto,
{
    if upto > 0 {
        lemma_bucket(pos, cols, rows, c, (upto - 1) as nat);
        let before = bucket(pos, cols, rows, c, (upto - 1) as nat);
        let list = bucket(pos, cols, rows, c, upto);
        assert forall|k: int| 0 <= k < before.len() implies #[trigger] list[k] == before[k]
            && before[k] < upto - 1 by {}
    }
}

/// What stands in a row of cells of the grid are indices of particles.
proof fn lemma_in_row_are_particles<T: Scalar>(
    pos: Seq<Vec2<T>>,
    cols: int,
    rows: int,
    y: int,
    x0: int,
    x: int,
)
    requires
        pos.len() <= usize::MAX,
        0 <= y < rows,
        0 <= x0,
        x <= cols,
    ensures
        all_below(
            in_row(sorted(pos, cols, rows, pos.len()), cols, y, x0, x),
            pos.len() as int,
        ),
    decreases x - x0,
{
    if x > x0 {
        lemma_in_row_are_particles(pos, cols, rows, y, x0, x - 1);
        lemma_place_in_grid(x - 1, y, cols, rows);
        lemma_bucket(pos, cols, rows, place(x - 1, y, cols), pos.len());
    }
}

/// What stands in a block of cells of the grid are indices of particles.
proof fn lemma_in_block_are_particles<T: Scalar>(
    pos: Seq<Vec2<T>>,
    cols: int,
    rows: int,
    x0: int,
    x1: int,
    y0: int,
    y: int,
)
    requires
        pos.len() <= usize::MAX,
        0 <= y0,
        y <= rows,
        0 <= x0,
        x1 < cols,
    ensures
        all_below(
            in_block(sorted(pos, cols, rows, pos.len()), cols, x0, x1, y0, y),
            pos.len() as int,
        ),
    decreases y - y0,
{
    if y > y0 {
        lemma_in_block_are_particles(pos, cols, rows, x0, x1, y0, y - 1);
        lemma_in_row_are_particles(pos, cols, rows, y - 1, x0, x1 + 1);
    }
}

/// The neighbours that the grid gives are particles.
pub proof fn lemma_nearby_are_particles<T: Scalar>(
    p: Vec2<T>,
    pos: Seq<Vec2<T>>,
    cols: int,
    rows: int,
)
    requires
        pos.len() <= usize::MAX,
        cols >= 1,
        rows >= 1,
    ensures
        all_below(
            nearby(p, sorted(pos, cols, rows, pos.len()), cols, rows),
            pos.len() as int,
        ),
{
    let cx = slot(p.x, cols);
    let cy = slot(p.y, rows);
    lemma_in_block_are_particles(
        pos,
        cols,
        rows,
        cell_before(cx),
        cell_after(cx, cols),
        cell_before(cy),
        cell_after(cy, rows) + 1,
    );
}

/// A cell of the grid lists a particle if, and only if, the particle falls into
/// that cell. It lists none twice.
pub proof fn law_cell_lists_its_particles<T: Scalar>(
    pos: Seq<Vec2<T>>,
    cols: int,
    rows: int,
    c: int,
    i: usize,
)
    requires
        pos.len() <= usize::MAX,
        cols >= 1,
        rows >= 1,
        0 <= c < cols * rows,
        i < pos.len(),
    ensures
        sorted(pos, cols, rows, pos.len())[c].contains(i) <==> home(
            pos[i as int],
            cols,
            rows,
        ) == c,
        sorted(pos, cols, rows, pos.len())[c].no_duplicates(),
{
    lemma_bucket(pos, cols, rows, c, pos.len());
    if home(pos[i as int], cols, rows) == c {
        lemma_bucket_has(pos, cols, rows, c, pos.len(), i);
    }
}

/// Every particle falls into a cell of the grid.
pub proof fn law_every_particle_has_a_cell<T: Scalar>(p: Vec2<T>, cols: int, rows: int)
    requires
        cols >= 1,
        rows >= 1,
    ensures
        0 <= home(p, cols, rows) < cols * rows,
{
    lemma_place_in_grid(slot(p.x, cols), slot(p.y, rows), cols, rows);
}

/// A particle is in the list of the cell that it falls into.
proof fn lemma_bucket_has<T: Scalar>(
    pos: Seq<Vec2<T>>,
    cols: int,
    rows: int,
    c: int,
    upto: nat,
    i: usize,
)
    requires
        i < upto <= pos.len() <= usize::MAX,
        home(pos[i as int], cols, rows) == c,
    ensures
        bucket(pos, cols, rows, c, upto).contains(i),
    decreases upto,
{
    let list = bucket(pos, cols, rows, c, upto);
    if i == upto - 1 {
        assert(list.last() == i);
    } else {
        lemma_bucket_has(pos, cols, rows, c, (upto - 1) as nat, i);
        let before = bucket(pos, cols, rows, c, (upto - 1) as nat);
        let k = choose|k: int| 0 <= k < before.len() && before[k] == i;
        assert(list[k] == i);
    }
}

/// Particle `i` falls into row `y` of the grid, and into a column from `x0` up
/// to but not including `x`.
pub open spec fn lies_in_row<T: Scalar>(
    pos: Seq<Vec2<T>>,
    cols: int,
    rows: int,
    y: int,
    x0: int,
    x: int,
    i: usize,
) -> bool {
    &&& i < pos.len()
    &&& slot(pos[i as int].y, rows) == y
    &&& x0 <= slot(pos[i as int].x, cols) < x
}

/// A row of cells lists the particles that fall into it, each once.
proof fn lemma_in_row<T: Scalar>(
    pos: Seq<Vec2<T>>,
    cols: int,
    rows: int,
    y: int,
    x0: int,
    x: int,
)
    requires
        pos.len() <= usize::MAX,
        cols >= 1,
        rows >= 1,
        0 <= y < rows,
        0 <= x0,
        x <= cols,
    ensures
        in_row(sorted(pos, cols, rows, pos.len()), cols, y, x0, x).no_duplicates(),
        forall|i: usize|
            in_row(sorted(pos, cols, rows, pos.len()), cols, y, x0, x).contains(i)
                <==> #[trigger] lies_in_row(pos, cols, rows, y, x0, x, i),
    decreases x - x0,
{
    let grid = sorted(pos, cols, rows, pos.len());
    let list = in_row(grid, cols, y, x0, x);
    if x > x0 {
        lemma_in_row(pos, cols, rows, y, x0, x - 1);
        let before = in_row(grid, cols, y, x0, x - 1);
        let c = place(x - 1, y, cols);
        lemma_place_in_grid(x - 1, y, cols, rows);
        lemma_bucket(pos, cols, rows, c, pos.len());
        let cell = grid[c];
        assert forall|i: usize| cell.contains(i) implies #[trigger] lies_in_row(
            pos,
            cols,
            rows,
            y,
            x - 1,
            x,
            i,
        ) by {
            let p = pos[i as int];
            lemma_col_row_of_place(x - 1, y, cols);
            lemma_col_row_of_place(slot(p.x, cols), slot(p.y, rows), cols);
        }
        assert forall|i: usize|
            list.contains(i) <==> #[trigger] lies_in_row(pos, cols, rows, y, x0, x, i) by {
            if lies_in_row(pos, cols, rows, y, x0, x, i) {
                if lies_in_row(pos, cols, rows, y, x0, x - 1, i) {
                    assert(before.contains(i));
                    let k = choose|k: int| 0 <= k < before.len() && before[k] == i;
                    assert(list[k] == i);
                } else {
                    lemma_bucket_has(pos, cols, rows, c, pos.len(), i);
                    let k = choose|k: int| 0 <= k < cell.len() && cell[k] == i;
                    assert(list[before.len() + k] == i);
                }
            }
            if list.contains(i) {
                let k = choose|k: int| 0 <= k < list.len() && list[k] == i;
                if k < before.len() {
                    assert(before[k] == i);
                    assert(lies_in_row(pos, cols, rows, y, x0, x - 1, i));
                } else {
                    assert(cell[k - before.len()] == i);
                    assert(lies_in_row(pos, cols, rows, y, x - 1, x, i));
                }
            }
        }
        assert forall|k: int, m: int| 0 <= k < m < list.len() implies list[k] != list[m] by {
            if k < before.len() && m >= before.len() {
                assert(before.contains(before[k]));
                assert(lies_in_row(pos, cols, rows, y, x0, x - 1, list[k]));
                assert(cell.contains(cell[m - before.len()]));
                assert(lies_in_row(pos, cols, rows, y, x - 1, x, list[m]));
            }
        }
    }
}

/// Particle `i` falls into a column from `x0` to `x1`, and into a row from `y0`
/// up to but not including `y`.
pub open spec fn lies_in_block<T: Scalar>(
    pos: Seq<Vec2<T>>,
    cols: int,
    rows: int,
    x0: int,
    x1: int,
    y0: int,
    y: int,
    i: usize,
) -> bool {
    &&& i < pos.len()
    &&& y0 <= slot(pos[i as int].y, rows) < y
    &&& x0 <= slot(pos[i as int].x, cols) <= x1
}

/// A block of cells lists the particles that fall into it, each once.
proof fn lemma_in_block<T: Scalar>(
    pos: Seq<Vec2<T>>,
    cols: int,
    rows: int,
    x0: int,
    x1: int,
    y0: int,
    y: int,
)
    requires
        pos.len() <= usize::MAX,
        cols >= 1,
        rows >= 1,
        0 <= y0,
        y <= rows,
        0 <= x0,
        x1 < cols,
    ensures
        in_block(sorted(pos, cols, rows, pos.len()), cols, x0, x1, y0, y).no_duplicates(),
        forall|i: usize|
            in_block(sorted(pos, cols, rows, pos.len()), cols, x0, x1, y0, y).contains(i)
                <==> #[trigger] lies_in_block(pos, cols, rows, x0, x1, y0, y, i),
    decreases y - y0,
{
    let grid = sorted(pos, cols, rows, pos.len());
    let list = in_block(grid, cols, x0, x1, y0, y);
    if y > y0 {
        lemma_in_block(pos, cols, rows, x0, x1, y0, y - 1);
        lemma_in_row(pos, cols, rows, y - 1, x0, x1 + 1);
        let before = in_block(grid, cols, x0, x1, y0, y - 1);
        let line = in_row(grid, cols, y - 1, x0, x1 + 1);
        assert forall|i: usize|
            list.contains(i) <==> #[trigger] lies_in_block(pos, cols, rows, x0, x1, y0, y, i) by {
            if lies_in_block(pos, cols, rows, x0, x1, y0, y, i) {
                if lies_in_block(pos, cols, rows, x0, x1, y0, y - 1, i) {
                    assert(before.contains(i));
                    let k = choose|k: int| 0 <= k < before.len() && before[k] == i;
                    assert(list[k] == i);
                } else {
                    assert(lies_in_row(pos, cols, rows, y - 1, x0, x1 + 1, i));
                    let k = choose|k: int| 0 <= k < line.len() && line[k] == i;
                    assert(list[before.len() + k] == i);
                }
            }
            if list.contains(i) {
                let k = choose|k: int| 0 <= k < list.len() && list[k] == i;
                if k < before.len() {
                    assert(before[k] == i);
                    assert(lies_in_block(pos, cols, rows, x0, x1, y0, y - 1, i));
                } else {
                    assert(line[k - before.len()] == i);
                    assert(lies_in_row(pos, cols, rows, y - 1, x0, x1 + 1, i));
                }
            }
        }
        assert forall|k: int, m: int| 0 <= k < m < list.len() implies list[k] != list[m] by {
            if k < before.len() && m >= before.len() {
                assert(before.contains(before[k]));
                assert(lies_in_block(pos, cols, rows, x0, x1, y0, y - 1, list[k]));
                assert(line.contains(line[m - before.len()]));
                assert(lies_in_row(pos, cols, rows, y - 1, x0, x1 + 1, list[m]));
            }
        }
    }
}

/// Cells `a` and `b` along one axis are the same or touch.
pub open spec fn touch(a: int, b: int) -> bool {
    a - 1 <= b <= a + 1
}

/// The neighbour search visits a particle if, and only if, its cell is the cell
/// of `p` or touches it. It visits none twice.
pub proof fn law_neighbors_are_the_touching_cells<T: Scalar>(
    p: Vec2<T>,
    pos: Seq<Vec2<T>>,
    cols: int,
    rows: int,
    i: usize,
)
    requires
        pos.len() <= usize::MAX,
        cols >= 1,
        rows >= 1,
        i < pos.len(),
    ensures
        nearby(p, sorted(pos, cols, rows, pos.len()), cols, rows).contains(i) <==> touch(
            slot(p.x, cols),
            slot(pos[i as int].x, cols),
        ) && touch(slot(p.y, rows), slot(pos[i as int].y, rows)),
        nearby(p, sorted(pos, cols, rows, pos.len()), cols, rows).no_duplicates(),
{
    let cx = slot(p.x, cols);
    let cy = slot(p.y, rows);
    let (x0, x1) = (cell_before(cx), cell_after(cx, cols));
    let (y0, y) = (cell_before(cy), cell_after(cy, rows) + 1);
    lemma_in_block(pos, cols, rows, x0, x1, y0, y);
    assert(nearby(p, sorted(pos, cols, rows, pos.len()), cols, rows).contains(i)
        <==> lies_in_block(pos, cols, rows, x0, x1, y0, y, i));
}

} // verus!
