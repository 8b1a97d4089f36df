//! The claim grid: a row-major grid of cells over the playfield, flood-filled from
//! the balls. Cells a ball can reach are free; every other open cell is claimed.

use vstd::prelude::*;
use crate::types::Axis;

verus! {

/// State of one claim-grid cell.
#[derive(Debug, Clone, Copy, PartialEq, Eq, Structural)]
pub enum ClaimCell {
    /// Not reached by any ball (claimed territory once the fill has run).
    Open,
    /// Covered by a solid wall.
    Barrier,
    /// Reachable from a ball.
    Free,
}

/// Smallest number of columns and rows a claim grid is built with.
pub const MIN_GRID_CELLS: usize = 16;

/// Flat index of cell `(c, r)` in a row-major grid of `cols` columns.
pub open spec fn flat(cols: int, c: int, r: int) -> int {
    r * cols + c
}

/// Column of flat index `i`.
pub open spec fn col_of(cols: int, i: int) -> int {
    i % cols
}

/// Row of flat index `i`.
pub open spec fn row_of(cols: int, i: int) -> int {
    i / cols
}

/// `j` is one of the four neighbours of `i` in a grid of `cols` columns and `len` cells.
pub open spec fn adjacent(cols: int, len: int, i: int, j: int) -> bool {
    &&& 0 <= i < len
    &&& 0 <= j < len
    &&& {
        ||| (j == i + 1 && col_of(cols, i) != cols - 1)
        ||| (j == i - 1 && col_of(cols, i) != 0)
        ||| j == i + cols
        ||| j == i - cols
    }
}

/// Coordinates of a flat index, and the flat index of coordinates, agree.
pub proof fn lemma_flat_coords(cols: int, rows: int, c: int, r: int)
    requires
        cols >= 1,
        0 <= c < cols,
        0 <= r < rows,
    ensures
        0 <= flat(cols, c, r) < rows * cols,
        flat(cols, c, r) < cols * rows,
        col_of(cols, flat(cols, c, r)) == c,
        row_of(cols, flat(cols, c, r)) == r,
{
    assert(0 <= r * cols + c < rows * cols && rows * cols == cols * rows) by (nonlinear_arith)
        requires
            cols >= 1,
            0 <= c < cols,
            0 <= r < rows,
    ;
    vstd::arithmetic::div_mod::lemma_fundamental_div_mod_converse(r * cols + c, cols, r, c);
}

/// A flat index is rebuilt from its column and row.
pub proof fn lemma_coords_of_flat(cols: int, rows: int, i: int)
    requires
        cols >= 1,
        0 <= i < rows * cols || 0 <= i < cols * rows,
    ensures
        0 <= col_of(cols, i) < cols,
        0 <= row_of(cols, i) < rows,
        i == flat(cols, col_of(cols, i), row_of(cols, i)),
{
    assert(rows * cols == cols * rows) by (nonlinear_arith);
    vstd::arithmetic::div_mod::lemma_fundamental_div_mod(i, cols);
    let q = i / cols;
    let m = i % cols;
    assert(0 <= m < cols) by {
        vstd::arithmetic::div_mod::lemma_mod_bound(i, cols);
    }
    assert(0 <= q < rows) by (nonlinear_arith)
        requires
            i == cols * q + m,
            0 <= m < cols,
            0 <= i < rows * cols,
            cols >= 1,
    ;
    assert(i == q * cols + m) by (nonlinear_arith)
        requires
            i == cols * q + m,
    ;
}

/// Number of cells of `s` that hold `v`.
pub open spec fn count_of(s: Seq<ClaimCell>, v: ClaimCell) -> nat
    decreases s.len(),
{
    if s.len() == 0 {
        0
    } else {
        count_of(s.drop_last(), v) + if s.last() == v {
            1nat
        } else {
            0nat
        }
    }
}

/// Overwriting one cell changes each count by at most the cells it replaces and adds.
pub proof fn lemma_count_update(s: Seq<ClaimCell>, n: int, b: ClaimCell, v: ClaimCell)
    requires
        0 <= n < s.len(),
    ensures
        count_of(s.update(n, b), v) + (if s[n] == v {
            1int
        } else {
            0int
        }) == count_of(s, v) + (if b == v {
            1int
        } else {
            0int
        }),
    decreases s.len(),
{
    if n == s.len() - 1 {
        assert(s.update(n, b).drop_last() =~= s.drop_last());
    } else {
        lemma_count_update(s.drop_last(), n, b, v);
        assert(s.update(n, b).drop_last() =~= s.drop_last().update(n, b));
    }
}

/// Every cell is open, a barrier or free, so the three counts add up to the number of
/// cells (and the free cells never outnumber them).
pub proof fn law_cell_counts_partition(s: Seq<ClaimCell>)
    ensures
        count_of(s, ClaimCell::Open) + count_of(s, ClaimCell::Barrier) + count_of(s, ClaimCell::Free) == s.len(),
        count_of(s, ClaimCell::Free) <= s.len(),
    decreases s.len(),
{
    if s.len() > 0 {
        law_cell_counts_partition(s.drop_last());
    }
}

/// Flat index of a seed given as (column, row).
pub open spec fn seed_index(cols: int, s: (usize, usize)) -> int {
    flat(cols, s.0 as int, s.1 as int)
}

/// `i` is where the fill starts for a ball in cell `s` of grid `g`: the ball's own cell
/// when it is open, or an open neighbour when the ball's cell is a barrier.
pub open spec fn starts_from(g: Seq<ClaimCell>, cols: int, s: (usize, usize), i: int) -> bool {
    let k = seed_index(cols, s);
    &&& 0 <= i < g.len()
    &&& g[i] == ClaimCell::Open
    &&& (i == k || (0 <= k < g.len() && g[k] == ClaimCell::Barrier && adjacent(cols, g.len() as int, k, i)))
}

/// `i` is a starting cell for one of the balls.
pub open spec fn is_start(g: Seq<ClaimCell>, cols: int, seeds: Seq<(usize, usize)>, i: int) -> bool {
    exists|j: int| 0 <= j < seeds.len() && #[trigger] starts_from(g, cols, seeds[j], i)
}

/// Step `k` of `path` moves to a neighbouring cell.
pub open spec fn path_step(g: Seq<ClaimCell>, cols: int, path: Seq<int>, k: int) -> bool {
    adjacent(cols, g.len() as int, path[k], path[k + 1])
}

/// A non-empty walk through open cells of `g`, each step to a neighbour.
pub open spec fn open_path(g: Seq<ClaimCell>, cols: int, path: Seq<int>) -> bool {
    &&& path.len() > 0
    &&& forall|k: int| 0 <= k < path.len() ==> 0 <= #[trigger] path[k] < g.len() && g[path[k]] == ClaimCell::Open
    &&& forall|k: int| 0 <= k < path.len() - 1 ==> #[trigger] path_step(g, cols, path, k)
}

/// Cell `i` of `g` can be reached from a ball through open cells.
pub open spec fn reachable(g: Seq<ClaimCell>, cols: int, seeds: Seq<(usize, usize)>, i: int) -> bool {
    exists|path: Seq<int>|
        #[trigger] open_path(g, cols, path) && is_start(g, cols, seeds, path[0]) && path.last() == i
}

/// The grid after filling from the balls: barriers stay, cells a ball reaches become
/// free, all other cells stay open (claimed).
pub open spec fn filled(g: Seq<ClaimCell>, cols: int, seeds: Seq<(usize, usize)>, i: int) -> ClaimCell {
    if g[i] == ClaimCell::Barrier {
        ClaimCell::Barrier
    } else if reachable(g, cols, seeds, i) {
        ClaimCell::Free
    } else {
        ClaimCell::Open
    }
}

/// No neighbour of cell `i` is open.
pub open spec fn settled(g: Seq<ClaimCell>, cols: int, i: int) -> bool {
    forall|j: int| #[trigger] adjacent(cols, g.len() as int, i, j) ==> g[j] != ClaimCell::Open
}

/// `b` is `a` with possibly some open cells turned free.
#[verifier::opaque]
pub open spec fn only_frees(a: Seq<ClaimCell>, b: Seq<ClaimCell>) -> bool {
    &&& a.len() == b.len()
    &&& forall|x: int|
        0 <= x < a.len() ==> #[trigger] b[x] == a[x] || (a[x] == ClaimCell::Open && b[x] == ClaimCell::Free)
}

/// Freeing open cells composes.
pub proof fn lemma_only_frees_trans(a: Seq<ClaimCell>, b: Seq<ClaimCell>, c: Seq<ClaimCell>)
    requires
        only_frees(a, b),
        only_frees(b, c),
    ensures
        only_frees(a, c),
{
    reveal(only_frees);
    assert forall|x: int| 0 <= x < a.len() implies #[trigger] c[x] == a[x] || (a[x] == ClaimCell::Open
        && c[x] == ClaimCell::Free) by {
        assert(b[x] == a[x] || (a[x] == ClaimCell::Open && b[x] == ClaimCell::Free));
        assert(c[x] == b[x] || (b[x] == ClaimCell::Open && c[x] == ClaimCell::Free));
    }
}

/// What freeing open cells means for one cell.
pub proof fn lemma_only_frees_at(a: Seq<ClaimCell>, b: Seq<ClaimCell>, x: int)
    requires
        only_frees(a, b),
        0 <= x < a.len(),
    ensures
        a.len() == b.len(),
        b[x] == a[x] || (a[x] == ClaimCell::Open && b[x] == ClaimCell::Free),
{
    reveal(only_frees);
}

/// Nothing changes.
pub proof fn lemma_only_frees_refl(a: Seq<ClaimCell>)
    ensures
        only_frees(a, a),
{
    reveal(only_frees);
}

/// The right-hand neighbour of a cell not in the last column is inside the grid.
pub proof fn lemma_right_neighbour(cols: int, rows: int, k: int)
    requires
        cols >= 1,
        rows >= 1,
        0 <= k < cols * rows,
    ensures
        k % cols != cols - 1 ==> k + 1 < cols * rows,
        k % cols != 0 ==> k >= 1,
        cols <= cols * rows,
{
    if k == 0 {
        assert(0int % cols == 0) by (nonlinear_arith)
            requires
                cols >= 1,
        ;
    }
    assert(rows * cols == cols * rows) by (nonlinear_arith);
    lemma_coords_of_flat(cols, rows, k);
    assert(cols <= cols * rows) by (nonlinear_arith)
        requires
            rows >= 1,
            cols >= 1,
    ;
    if k % cols != cols - 1 {
        assert(k + 1 < cols * rows) by (nonlinear_arith)
            requires
                k == (k / cols) * cols + k % cols,
                0 <= k % cols < cols - 1,
                0 <= k / cols < rows,
        ;
    }
}

/// The four possible neighbours of cell `k` are not open.
pub open spec fn four_settled(g: Seq<ClaimCell>, cols: int, k: int) -> bool {
    &&& (k % cols != 0 ==> g[k - 1] != ClaimCell::Open)
    &&& (k % cols != cols - 1 && k + 1 < g.len() ==> g[k + 1] != ClaimCell::Open)
    &&& (k >= cols ==> g[k - cols] != ClaimCell::Open)
    &&& (k + cols < g.len() ==> g[k + cols] != ClaimCell::Open)
}

/// Settling the four neighbours settles the cell.
pub proof fn lemma_four_settled(g: Seq<ClaimCell>, cols: int, k: int)
    requires
        four_settled(g, cols, k),
    ensures
        settled(g, cols, k),
{
}

/// Invariant of the fill: barriers unchanged, free cells reachable, the work stack holds
/// free cells, and every free cell off the stack (but `exc`) has no open neighbour.
#[verifier::opaque]
pub open spec fn fill_inv(
    g0: Seq<ClaimCell>,
    g: Seq<ClaimCell>,
    cols: int,
    seeds: Seq<(usize, usize)>,
    stack: Seq<usize>,
    exc: int,
) -> bool {
    &&& g.len() == g0.len()
    &&& forall|i: int| 0 <= i < g.len() ==> (#[trigger] g[i] == ClaimCell::Barrier) == (g0[i] == ClaimCell::Barrier)
    &&& forall|i: int| 0 <= i < g0.len() ==> g0[i] != ClaimCell::Free
    &&& forall|i: int| 0 <= i < g.len() && #[trigger] g[i] == ClaimCell::Free ==> reachable(g0, cols, seeds, i)
    &&& forall|k: int| 0 <= k < stack.len() ==> #[trigger] stack[k] < g.len() && g[stack[k] as int] == ClaimCell::Free
    &&& forall|i: int|
        0 <= i < g.len() && i != exc && #[trigger] g[i] == ClaimCell::Free && !stack.contains(i as usize)
            ==> settled(g, cols, i)
}

/// Once the excepted cell is settled, the fill invariant holds without exception.
pub proof fn lemma_inv_restore(
    g0: Seq<ClaimCell>,
    g: Seq<ClaimCell>,
    cols: int,
    seeds: Seq<(usize, usize)>,
    stack: Seq<usize>,
    exc: int,
)
    requires
        fill_inv(g0, g, cols, seeds, stack, exc),
        settled(g, cols, exc),
    ensures
        fill_inv(g0, g, cols, seeds, stack, -1),
{
    reveal(fill_inv);
}

/// A reachable cell's open neighbour is reachable.
pub proof fn lemma_reach_extend(g: Seq<ClaimCell>, cols: int, seeds: Seq<(usize, usize)>, i: int, n: int)
    requires
        reachable(g, cols, seeds, i),
        adjacent(cols, g.len() as int, i, n),
        g[n] == ClaimCell::Open,
    ensures
        reachable(g, cols, seeds, n),
{
    let path = choose|path: Seq<int>|
        #[trigger] open_path(g, cols, path) && is_start(g, cols, seeds, path[0]) && path.last() == i;
    let p2 = path.push(n);
    assert forall|k: int| 0 <= k < p2.len() - 1 implies #[trigger] path_step(g, cols, p2, k) by {
        if k < path.len() - 1 {
            assert(path_step(g, cols, path, k));
        }
    }
    assert forall|k: int| 0 <= k < p2.len() implies 0 <= #[trigger] p2[k] < g.len() && g[p2[k]] == ClaimCell::Open by {
        if k < path.len() {
            assert(path[k] == p2[k]);
        }
    }
    assert(open_path(g, cols, p2));
    assert(p2[0] == path[0]);
}

/// A starting cell is reachable.
pub proof fn lemma_reach_start(g: Seq<ClaimCell>, cols: int, seeds: Seq<(usize, usize)>, j: int, i: int)
    requires
        0 <= j < seeds.len(),
        starts_from(g, cols, seeds[j], i),
    ensures
        reachable(g, cols, seeds, i),
{
    let p = seq![i];
    assert(open_path(g, cols, p));
    assert(is_start(g, cols, seeds, p[0]));
}

/// When every start is free and every free cell is settled, each cell of an open path
/// from a start is free.
pub proof fn lemma_path_free(
    g0: Seq<ClaimCell>,
    g: Seq<ClaimCell>,
    cols: int,
    seeds: Seq<(usize, usize)>,
    path: Seq<int>,
    k: int,
)
    requires
        g.len() == g0.len(),
        forall|i: int| 0 <= i < g.len() ==> (#[trigger] g[i] == ClaimCell::Barrier) == (g0[i] == ClaimCell::Barrier),
        forall|i: int| 0 <= i < g.len() && #[trigger] g[i] == ClaimCell::Free ==> settled(g, cols, i),
        forall|i: int| #[trigger] is_start(g0, cols, seeds, i) ==> g[i] == ClaimCell::Free,
        open_path(g0, cols, path),
        is_start(g0, cols, seeds, path[0]),
        0 <= k < path.len(),
    ensures
        g[path[k]] == ClaimCell::Free,
    decreases k,
{
    if k > 0 {
        lemma_path_free(g0, g, cols, seeds, path, k - 1);
        assert(path_step(g0, cols, path, k - 1));
        let a = path[k - 1];
        let b = path[k];
        assert(settled(g, cols, a));
        assert(adjacent(cols, g.len() as int, a, b));
        assert(g[b] != ClaimCell::Open);
        assert(g0[b] == ClaimCell::Open);
    }
}

/// A block of whole cells: columns `col..col + width`, rows `row..row + height`.
#[derive(Debug, Clone, Copy, PartialEq, Eq, Structural)]
pub struct CellRect {
    pub col: usize,
    pub row: usize,
    pub width: usize,
    pub height: usize,
}

/// Cell `(c, r)` lies in `rect`.
pub open spec fn in_cell_rect(rect: CellRect, c: int, r: int) -> bool {
    &&& rect.col <= c < rect.col + rect.width
    &&& rect.row <= r < rect.row + rect.height
}

/// Cell `(c, r)` lies in one of `rects`.
pub open spec fn covered(rects: Seq<CellRect>, c: int, r: int) -> bool {
    exists|k: int| 0 <= k < rects.len() && #[trigger] in_cell_rect(rects[k], c, r)
}

/// `rects` tile exactly the cells of `g` that hold `target`: each is a non-empty block
/// inside the grid made only of `target` cells, no two share a cell, and every `target`
/// cell lies in one of them.
pub open spec fn exact_cover(g: Seq<ClaimCell>, cols: int, rows: int, target: ClaimCell, rects: Seq<CellRect>) -> bool {
    &&& forall|k: int|
        0 <= k < rects.len() ==> #[trigger] rects[k].width >= 1 && rects[k].height >= 1 && rects[k].col
            + rects[k].width <= cols && rects[k].row + rects[k].height <= rows
    &&& forall|k: int, c: int, r: int|
        0 <= k < rects.len() && #[trigger] in_cell_rect(rects[k], c, r) ==> g[flat(cols, c, r)] == target
    &&& forall|k1: int, k2: int, c: int, r: int|
        0 <= k1 < rects.len() && 0 <= k2 < rects.len() && k1 != k2 && #[trigger] in_cell_rect(rects[k1], c, r)
            ==> !#[trigger] in_cell_rect(rects[k2], c, r)
    &&& forall|i: int| 0 <= i < g.len() && #[trigger] g[i] == target ==> covered(rects, col_of(cols, i), row_of(cols, i))
}

/// Block `k` of `rects` is the one the row-by-row scan picks after blocks `0..k`: its
/// top-left cell is the first `target` cell (in row-major order) that no earlier block
/// covers; its first row cannot be extended one cell to the right, and it cannot be
/// extended one row down, without taking in a cell that is not `target` or is already
/// covered.
pub open spec fn greedy_block(
    g: Seq<ClaimCell>,
    cols: int,
    rows: int,
    target: ClaimCell,
    rects: Seq<CellRect>,
    k: int,
) -> bool {
    let before = rects.subrange(0, k);
    let b = rects[k];
    let p = flat(cols, b.col as int, b.row as int);
    &&& g[p] == target
    &&& !covered(before, b.col as int, b.row as int)
    &&& forall|i: int|
        0 <= i < p && #[trigger] g[i] == target ==> covered(before, col_of(cols, i), row_of(cols, i))
    &&& (b.col + b.width == cols || g[flat(cols, b.col + b.width, b.row as int)] != target || covered(
        before,
        b.col + b.width,
        b.row as int,
    ))
    &&& (b.row + b.height == rows || exists|c: int|
        b.col <= c < b.col + b.width && (g[#[trigger] flat(cols, c, b.row + b.height)] != target || covered(
            before,
            c,
            b.row + b.height,
        )))
}

/// A row-major grid of claim cells.
pub struct ClaimGrid {
    cols: usize,
    rows: usize,
    cells: Vec<ClaimCell>,
}

impl View for ClaimGrid {
    type V = Seq<ClaimCell>;

    closed spec fn view(&self) -> Seq<ClaimCell> {
        self.cells@
    }
}

impl ClaimGrid {
    /// Number of columns.
    pub closed spec fn width(&self) -> int {
        self.cols as int
    }

    /// Number of rows.
    pub closed spec fn height(&self) -> int {
        self.rows as int
    }

    /// The grid holds exactly `width * height` cells, at least one of each.
    pub closed spec fn wf(&self) -> bool {
        &&& self.cols >= 1
        &&& self.rows >= 1
        &&& self.cells@.len() == self.cols * self.rows
        &&& self.cols * self.rows <= usize::MAX
    }

    /// Shape facts that follow from well-formedness.
    pub proof fn lemma_shape(&self)
        requires
            self.wf(),
        ensures
            self.width() >= 1,
            self.height() >= 1,
            self@.len() == self.width() * self.height(),
            self@.len() == self.height() * self.width(),
            self@.len() <= usize::MAX,
    {
        assert(self.height() * self.width() == self.width() * self.height()) by (nonlinear_arith);
    }

    /// A grid of `max(columns, 16)` by `max(rows, 16)` open cells.
    pub fn new(columns: u32, rows: usize) -> (g: ClaimGrid)
        requires
            (if columns >= 16 { columns as int } else { 16 }) * (if rows >= 16 { rows as int } else { 16 })
                <= usize::MAX,
        ensures
            g.wf(),
            g.width() == if columns >= 16 { columns as int } else { 16 },
            g.height() == if rows >= 16 { rows as int } else { 16 },
            g@.len() == g.width() * g.height(),
            forall|i: int| 0 <= i < g@.len() ==> g@[i] == ClaimCell::Open,
    {
        let cols: usize = if columns as usize >= MIN_GRID_CELLS { columns as usize } else { MIN_GRID_CELLS };
        let rows: usize = if rows >= MIN_GRID_CELLS { rows } else { MIN_GRID_CELLS };
        let total: usize = cols * rows;
        let mut cells: Vec<ClaimCell> = Vec::new();
        let mut k: usize = 0;
        while k < total
            invariant
                k <= total,
                cells@.len() == k,
                forall|i: int| 0 <= i < k ==> cells@[i] == ClaimCell::Open,
            decreases total - k,
        {
            cells.push(ClaimCell::Open);
            k = k + 1;
        }
        ClaimGrid { cols, rows, cells }
    }

    /// Number of columns.
    pub fn cols(&self) -> (n: usize)
        ensures
            n == self.width(),
    {
        self.cols
    }

    /// Number of rows.
    pub fn rows(&self) -> (n: usize)
        ensures
            n == self.height(),
    {
        self.rows
    }

    /// The cell at column `c`, row `r`.
    pub fn get(&self, c: usize, r: usize) -> (cell: ClaimCell)
        requires
            self.wf(),
            c < self.width(),
            r < self.height(),
        ensures
            cell == self@[flat(self.width(), c as int, r as int)],
    {
        proof {
            lemma_flat_coords(self.cols as int, self.rows as int, c as int, r as int);
            self.lemma_shape();
        }
        self.cells[r * self.cols + c]
    }

    /// Mark the cell at column `c`, row `r` as a barrier.
    pub fn set_barrier(&mut self, c: usize, r: usize)
        requires
            old(self).wf(),
            c < old(self).width(),
            r < old(self).height(),
        ensures
            final(self).wf(),
            final(self).width() == old(self).width(),
            final(self).height() == old(self).height(),
            final(self)@ == old(self)@.update(
                flat(old(self).width(), c as int, r as int),
                ClaimCell::Barrier,
            ),
    {
        proof {
            lemma_flat_coords(self.cols as int, self.rows as int, c as int, r as int);
            self.lemma_shape();
        }
        let i = r * self.cols + c;
        self.cells.set(i, ClaimCell::Barrier);
    }

    /// Turn cell `n` free and put it on the work stack if it is still open.
    fn visit(
        &mut self,
        stack: &mut Vec<usize>,
        n: usize,
        Ghost(g0): Ghost<Seq<ClaimCell>>,
        Ghost(seeds): Ghost<Seq<(usize, usize)>>,
        Ghost(exc): Ghost<int>,
    )
        requires
            old(self).wf(),
            n < old(self)@.len(),
            fill_inv(g0, old(self)@, old(self).width(), seeds, old(stack)@, exc),
            old(self)@[n as int] == ClaimCell::Open ==> reachable(g0, old(self).width(), seeds, n as int),
        ensures
            final(self).wf(),
            final(self).width() == old(self).width(),
            final(self).height() == old(self).height(),
            fill_inv(g0, final(self)@, old(self).width(), seeds, final(stack)@, exc),
            final(self)@.len() == old(self)@.len(),
            only_frees(old(self)@, final(self)@),
            final(self)@[n as int] != ClaimCell::Open,
            count_of(final(self)@, ClaimCell::Open) + final(stack)@.len() == count_of(old(self)@, ClaimCell::Open)
                + old(stack)@.len(),
    {
        proof {
            reveal(fill_inv);
            reveal(only_frees);
        }
        if self.cells[n] == ClaimCell::Open {
            proof {
                lemma_count_update(self.cells@, n as int, ClaimCell::Free, ClaimCell::Open);
            }
            let ghost g = self.cells@;
            let ghost st = stack@;
            self.cells.set(n, ClaimCell::Free);
            stack.push(n);
            proof {
                let cols = self.cols as int;
                let g2 = self.cells@;
                let st2 = stack@;
                assert forall|i: int| 0 <= i < g2.len() implies (#[trigger] g2[i] == ClaimCell::Barrier)
                    == (g0[i] == ClaimCell::Barrier) by {
                    assert(g[i] == ClaimCell::Barrier <==> g0[i] == ClaimCell::Barrier);
                }
                assert forall|i: int| 0 <= i < g2.len() && #[trigger] g2[i] == ClaimCell::Free
                    implies reachable(g0, cols, seeds, i) by {
                    if i != n {
                        assert(g[i] == ClaimCell::Free);
                    }
                }
                assert forall|k: int| 0 <= k < st2.len() implies #[trigger] st2[k] < g2.len()
                    && g2[st2[k] as int] == ClaimCell::Free by {
                    if k < st.len() {
                        assert(st2[k] == st[k]);
                        assert(g[st[k] as int] == ClaimCell::Free);
                    }
                }
                assert forall|i: int|
                    0 <= i < g2.len() && i != exc && #[trigger] g2[i] == ClaimCell::Free && !st2.contains(
                        i as usize,
                    ) implies settled(g2, cols, i) by {
                    assert(st2[st.len() as int] == n);
                    assert(i != n);
                    assert(!st.contains(i as usize)) by {
                        if st.contains(i as usize) {
                            let k = choose|k: int| 0 <= k < st.len() && st[k] == i as usize;
                            assert(st2[k] == i as usize);
                        }
                    }
                    assert(g[i] == ClaimCell::Free);
                    assert(settled(g, cols, i));
                    assert forall|j: int| #[trigger] adjacent(cols, g2.len() as int, i, j) implies g2[j]
                        != ClaimCell::Open by {
                        assert(adjacent(cols, g.len() as int, i, j));
                    }
                }
            }
        }
    }

    /// Visit the four neighbours of cell `k`.
    fn visit_neighbours(
        &mut self,
        stack: &mut Vec<usize>,
        k: usize,
        Ghost(g0): Ghost<Seq<ClaimCell>>,
        Ghost(seeds): Ghost<Seq<(usize, usize)>>,
        Ghost(exc): Ghost<int>,
    )
        requires
            old(self).wf(),
            k < old(self)@.len(),
            fill_inv(g0, old(self)@, old(self).width(), seeds, old(stack)@, exc),
            forall|n: int|
                #[trigger] adjacent(old(self).width(), old(self)@.len() as int, k as int, n) && old(self)@[n]
                    == ClaimCell::Open ==> reachable(g0, old(self).width(), seeds, n),
        ensures
            final(self).wf(),
            final(self).width() == old(self).width(),
            final(self).height() == old(self).height(),
            final(self)@.len() == old(self)@.len(),
            fill_inv(g0, final(self)@, old(self).width(), seeds, final(stack)@, exc),
            four_settled(final(self)@, old(self).width(), k as int),
            only_frees(old(self)@, final(self)@),
            count_of(final(self)@, ClaimCell::Open) + final(stack)@.len() == count_of(old(self)@, ClaimCell::Open)
                + old(stack)@.len(),
    {
        let cols = self.cols;
        let len = self.cells.len();
        let ghost g_in = self@;
        proof {
            self.lemma_shape();
            lemma_only_frees_refl(g_in);
            lemma_right_neighbour(cols as int, self.rows as int, k as int);
        }
        let has_left = k % cols != 0;
        let has_right = k % cols != cols - 1;
        let has_up = k >= cols;
        let has_down = k < len - cols;
        if has_left {
            proof {
                assert(adjacent(cols as int, len as int, k as int, k - 1));
            }
            self.visit(stack, k - 1, Ghost(g0), Ghost(seeds), Ghost(exc));
        } else {
            proof {
                lemma_only_frees_refl(g_in);
            }
        }
        let ghost g1 = self@;
        if has_right {
            proof {
                assert(adjacent(cols as int, len as int, k as int, k + 1));
                lemma_only_frees_at(g_in, g1, k + 1);
            }
            self.visit(stack, k + 1, Ghost(g0), Ghost(seeds), Ghost(exc));
        } else {
            proof {
                lemma_only_frees_refl(g1);
            }
        }
        let ghost g2 = self@;
        proof {
            lemma_only_frees_trans(g_in, g1, g2);
            if has_left {
                lemma_only_frees_at(g1, g2, k - 1);
            }
        }
        if has_up {
            proof {
                assert(adjacent(cols as int, len as int, k as int, k - cols));
                lemma_only_frees_at(g_in, g2, k - cols);
            }
            self.visit(stack, k - cols, Ghost(g0), Ghost(seeds), Ghost(exc));
        } else {
            proof {
                lemma_only_frees_refl(g2);
            }
        }
        let ghost g3 = self@;
        proof {
            lemma_only_frees_trans(g_in, g2, g3);
            if has_left {
                lemma_only_frees_at(g2, g3, k - 1);
            }
            if has_right {
                lemma_only_frees_at(g2, g3, k + 1);
            }
        }
        if has_down {
            proof {
                assert(adjacent(cols as int, len as int, k as int, k + cols));
                lemma_only_frees_at(g_in, g3, k + cols);
            }
            self.visit(stack, k + cols, Ghost(g0), Ghost(seeds), Ghost(exc));
        } else {
            proof {
                lemma_only_frees_refl(g3);
            }
        }
        proof {
            let g = self@;
            lemma_only_frees_trans(g_in, g3, g);
            if has_left {
                lemma_only_frees_at(g3, g, k - 1);
            }
            if has_right {
                lemma_only_frees_at(g3, g, k + 1);
            }
            if has_up {
                lemma_only_frees_at(g3, g, k - cols);
            }
            assert(four_settled(g, cols as int, k as int));
        }
    }

    /// Flood-fill from the balls' cells: every open cell a ball can reach through open
    /// cells becomes free; barriers and unreachable cells are left as they are.
    /// A ball standing on a barrier cell starts the fill from its open neighbours.
    pub fn fill_from_balls(&mut self, seeds: &Vec<(usize, usize)>)
        requires
            old(self).wf(),
            forall|j: int|
                0 <= j < seeds@.len() ==> (#[trigger] seeds@[j]).0 < old(self).width() && seeds@[j].1
                    < old(self).height(),
            forall|i: int| 0 <= i < old(self)@.len() ==> old(self)@[i] != ClaimCell::Free,
        ensures
            final(self).wf(),
            final(self).width() == old(self).width(),
            final(self).height() == old(self).height(),
            final(self)@.len() == old(self)@.len(),
            forall|i: int|
                0 <= i < old(self)@.len() ==> #[trigger] final(self)@[i] == filled(
                    old(self)@,
                    old(self).width(),
                    seeds@,
                    i,
                ),
    {
        let ghost g0 = self.cells@;
        let ghost sd = seeds@;
        let cols = self.cols;
        let len = self.cells.len();
        proof {
            self.lemma_shape();
        }
        let mut stack: Vec<usize> = Vec::new();
        let mut j: usize = 0;
        proof {
            reveal(fill_inv);
        }
        while j < seeds.len()
            invariant
                self.wf(),
                self.cols == cols,
                self.rows == old(self).rows,
                len == g0.len(),
                self@.len() == len,
                g0 == old(self)@,
                sd == seeds@,
                len == cols * self.rows,
                j <= sd.len(),
                forall|jj: int|
                    0 <= jj < sd.len() ==> (#[trigger] sd[jj]).0 < cols && sd[jj].1 < self.rows,
                fill_inv(g0, self@, cols as int, sd, stack@, -1),
                forall|jj: int, i: int|
                    0 <= jj < j && #[trigger] starts_from(g0, cols as int, sd[jj], i) ==> self@[i]
                        == ClaimCell::Free,
            decreases sd.len() - j,
        {
            let (c, r) = seeds[j];
            proof {
                lemma_flat_coords(cols as int, self.rows as int, c as int, r as int);
            }
            let k = r * cols + c;
            let ghost before = self@;
            proof {
                lemma_only_frees_refl(before);
            }
            if self.cells[k] == ClaimCell::Open {
                proof {
                    reveal(fill_inv);
                    assert(starts_from(g0, cols as int, sd[j as int], k as int));
                    lemma_reach_start(g0, cols as int, sd, j as int, k as int);
                }
                self.visit(&mut stack, k, Ghost(g0), Ghost(sd), Ghost(-1));
            } else if self.cells[k] == ClaimCell::Barrier {
                proof {
                    reveal(fill_inv);
                    assert forall|n: int|
                        #[trigger] adjacent(cols as int, len as int, k as int, n) && self@[n] == ClaimCell::Open
                            implies reachable(g0, cols as int, sd, n) by {
                        assert(starts_from(g0, cols as int, sd[j as int], n));
                        lemma_reach_start(g0, cols as int, sd, j as int, n);
                    }
                }
                self.visit_neighbours(&mut stack, k, Ghost(g0), Ghost(sd), Ghost(-1));
            }
            proof {
                reveal(fill_inv);
                let g = self@;
                assert forall|jj: int, i: int|
                    0 <= jj < j + 1 && #[trigger] starts_from(g0, cols as int, sd[jj], i) implies g[i]
                        == ClaimCell::Free by {
                    lemma_only_frees_at(before, g, i);
                    if jj < j {
                        assert(before[i] == ClaimCell::Free);
                    } else {
                        assert(g0[i] == ClaimCell::Open);
                        assert(g[i] != ClaimCell::Barrier);
                        if i != k {
                            assert(g0[k as int] == ClaimCell::Barrier);
                            assert(adjacent(cols as int, len as int, k as int, i));
                            lemma_four_settled(g, cols as int, k as int);
                        }
                    }
                }
            }
            j = j + 1;
        }
        proof {
            assert forall|i: int| #[trigger] is_start(g0, cols as int, sd, i) implies self@[i]
                == ClaimCell::Free by {
                let jj = choose|jj: int| 0 <= jj < sd.len() && #[trigger] starts_from(g0, cols as int, sd[jj], i);
            }
        }
        while stack.len() > 0
            invariant
                self.wf(),
                self.cols == cols,
                self.rows == old(self).rows,
                len == g0.len(),
                self@.len() == len,
                g0 == old(self)@,
                sd == seeds@,
                fill_inv(g0, self@, cols as int, sd, stack@, -1),
                forall|i: int| #[trigger] is_start(g0, cols as int, sd, i) ==> self@[i] == ClaimCell::Free,
            decreases count_of(self@, ClaimCell::Open) + stack@.len(),
        {
            let ghost st0 = stack@;
            let ghost g_start = self@;
            let i = stack.pop().unwrap();
            proof {
                self.pop_keeps_inv(g0, sd, st0, stack@, i);
                reveal(fill_inv);
                assert forall|n: int|
                    #[trigger] adjacent(cols as int, len as int, i as int, n) && self@[n] == ClaimCell::Open
                        implies reachable(g0, cols as int, sd, n) by {
                    lemma_reach_extend(g0, cols as int, sd, i as int, n);
                }
            }
            self.visit_neighbours(&mut stack, i, Ghost(g0), Ghost(sd), Ghost(i as int));
            proof {
                let g = self@;
                lemma_only_frees_at(g_start, g, i as int);
                assert(g[i as int] == ClaimCell::Free);
                lemma_four_settled(g, cols as int, i as int);
                lemma_inv_restore(g0, g, cols as int, sd, stack@, i as int);
                assert forall|x: int| #[trigger] is_start(g0, cols as int, sd, x) implies g[x]
                    == ClaimCell::Free by {
                    assert(g_start[x] == ClaimCell::Free);
                    assert(0 <= x < len) by {
                        reveal(fill_inv);
                        let jj = choose|jj: int| 0 <= jj < sd.len() && #[trigger] starts_from(g0, cols as int, sd[jj], x);
                    }
                    lemma_only_frees_at(g_start, g, x);
                }
            }
        }
        proof {
            reveal(fill_inv);
            let g = self@;
            assert forall|i: int| 0 <= i < g0.len() implies #[trigger] g[i] == filled(
                g0,
                cols as int,
                sd,
                i,
            ) by {
                if g0[i] == ClaimCell::Barrier {
                } else if reachable(g0, cols as int, sd, i) {
                    let path = choose|path: Seq<int>|
                        #[trigger] open_path(g0, cols as int, path) && is_start(g0, cols as int, sd, path[0])
                            && path.last() == i;
                    assert forall|x: int| 0 <= x < g.len() && #[trigger] g[x] == ClaimCell::Free implies settled(
                        g,
                        cols as int,
                        x,
                    ) by {
                        assert(!stack@.contains(x as usize));
                    }
                    lemma_path_free(g0, g, cols as int, sd, path, path.len() - 1);
                } else {
                    assert(g[i] != ClaimCell::Free);
                    assert(g[i] != ClaimCell::Barrier);
                }
            }
        }
    }

    /// Popping cell `i` off the stack keeps the fill invariant with `i` as the exception.
    proof fn pop_keeps_inv(
        &self,
        g0: Seq<ClaimCell>,
        seeds: Seq<(usize, usize)>,
        st0: Seq<usize>,
        st1: Seq<usize>,
        i: usize,
    )
        requires
            self.wf(),
            fill_inv(g0, self@, self.width(), seeds, st0, -1),
            st0.len() > 0,
            st1 == st0.drop_last(),
            i == st0.last(),
        ensures
            fill_inv(g0, self@, self.width(), seeds, st1, i as int),
            i < self@.len(),
            self@[i as int] == ClaimCell::Free,
            reachable(g0, self.width(), seeds, i as int),
    {
        reveal(fill_inv);
        let g = self@;
        let cols = self.width();
        self.lemma_shape();
        assert(st0 =~= st1.push(i));
        assert forall|x: int|
            0 <= x < g.len() && x != i && #[trigger] g[x] == ClaimCell::Free && !st1.contains(x as usize)
                implies settled(g, cols, x) by {
            assert(!st0.contains(x as usize)) by {
                if st0.contains(x as usize) {
                    let k = choose|k: int| 0 <= k < st0.len() && st0[k] == x as usize;
                    if k < st1.len() {
                        assert(st1[k] == x as usize);
                    }
                }
            }
        }
        assert forall|k: int| 0 <= k < st1.len() implies #[trigger] st1[k] < g.len() && g[st1[k] as int]
            == ClaimCell::Free by {
            assert(st0[k] == st1[k]);
        }
        assert(st0[st0.len() - 1] == i);
    }

    /// Number of cells holding `v`.
    pub fn count_cells(&self, v: ClaimCell) -> (n: usize)
        requires
            self.wf(),
        ensures
            n == count_of(self@, v),
            n <= self@.len(),
    {
        let len = self.cells.len();
        let mut n: usize = 0;
        let mut i: usize = 0;
        while i < len
            invariant
                len == self@.len(),
                i <= len,
                n == count_of(self@.subrange(0, i as int), v),
                n <= i,
            decreases len - i,
        {
            proof {
                assert(self@.subrange(0, i + 1).drop_last() =~= self@.subrange(0, i as int));
            }
            if self.cells[i] == v {
                n = n + 1;
            }
            i = i + 1;
        }
        proof {
            assert(self@.subrange(0, len as int) =~= self@);
        }
        n
    }

    /// Whether every cell of row `r`, columns `c0..c1`, holds `target` and is not yet visited.
    fn run_unclaimed(&self, visited: &Vec<bool>, target: ClaimCell, r: usize, c0: usize, c1: usize) -> (ok: bool)
        requires
            self.wf(),
            visited@.len() == self@.len(),
            r < self.height(),
            c0 <= c1 <= self.width(),
        ensures
            ok == forall|c: int|
                c0 <= c < c1 ==> !visited@[#[trigger] flat(self.width(), c, r as int)] && self@[flat(
                    self.width(),
                    c,
                    r as int,
                )] == target,
    {
        let mut c = c0;
        while c < c1
            invariant
                self.wf(),
                visited@.len() == self@.len(),
                r < self.height(),
                c0 <= c <= c1 <= self.width(),
                forall|x: int|
                    c0 <= x < c ==> !visited@[#[trigger] flat(self.width(), x, r as int)] && self@[flat(
                        self.width(),
                        x,
                        r as int,
                    )] == target,
            decreases c1 - c,
        {
            proof {
                lemma_flat_coords(self.cols as int, self.rows as int, c as int, r as int);
            }
            let i = r * self.cols + c;
            if visited[i] || self.cells[i] != target {
                return false;
            }
            c = c + 1;
        }
        true
    }

    /// Set `visited` for every cell of `rect`.
    fn mark_visited(&self, visited: &mut Vec<bool>, rect: CellRect)
        requires
            self.wf(),
            old(visited)@.len() == self@.len(),
            rect.col + rect.width <= self.width(),
            rect.row + rect.height <= self.height(),
        ensures
            final(visited)@.len() == old(visited)@.len(),
            forall|i: int|
                0 <= i < self@.len() ==> #[trigger] final(visited)@[i] == (old(visited)@[i] || in_cell_rect(
                    rect,
                    col_of(self.width(), i),
                    row_of(self.width(), i),
                )),
    {
        let ghost v0 = visited@;
        let cols = self.cols;
        let mut r = rect.row;
        while r < rect.row + rect.height
            invariant
                self.wf(),
                cols == self.cols,
                visited@.len() == self@.len(),
                rect.col + rect.width <= self.width(),
                rect.row + rect.height <= self.height(),
                rect.row <= r <= rect.row + rect.height,
                forall|i: int|
                    0 <= i < self@.len() ==> #[trigger] visited@[i] == (v0[i] || (in_cell_rect(
                        rect,
                        col_of(cols as int, i),
                        row_of(cols as int, i),
                    ) && row_of(cols as int, i) < r)),
            decreases rect.row + rect.height - r,
        {
            let mut c = rect.col;
            while c < rect.col + rect.width
                invariant
                    self.wf(),
                    cols == self.cols,
                    visited@.len() == self@.len(),
                    rect.col + rect.width <= self.width(),
                    rect.row + rect.height <= self.height(),
                    rect.row <= r < rect.row + rect.height,
                    rect.col <= c <= rect.col + rect.width,
                    forall|i: int|
                        0 <= i < self@.len() ==> #[trigger] visited@[i] == (v0[i] || (in_cell_rect(
                            rect,
                            col_of(cols as int, i),
                            row_of(cols as int, i),
                        ) && (row_of(cols as int, i) < r || (row_of(cols as int, i) == r && col_of(
                            cols as int,
                            i,
                        ) < c)))),
                decreases rect.col + rect.width - c,
            {
                proof {
                    lemma_flat_coords(self.cols as int, self.rows as int, c as int, r as int);
                    self.lemma_shape();
                }
                let idx = r * cols + c;
                let ghost before = visited@;
                visited.set(idx, true);
                proof {
                    assert forall|i: int| 0 <= i < self@.len() implies #[trigger] visited@[i] == (v0[i] || (
                    in_cell_rect(rect, col_of(cols as int, i), row_of(cols as int, i)) && (row_of(cols as int, i)
                        < r || (row_of(cols as int, i) == r && col_of(cols as int, i) < c + 1)))) by {
                        lemma_coords_of_flat(self.cols as int, self.rows as int, i);
                        if i != idx {
                            assert(visited@[i] == before[i]);
                        }
                    }
                }
                c = c + 1;
            }
            r = r + 1;
        }
    }

    /// The block the scan adds at flat position `p` is the greedy choice after `rects`.
    proof fn lemma_new_block_greedy(
        &self,
        target: ClaimCell,
        vis: Seq<bool>,
        rects: Seq<CellRect>,
        rect: CellRect,
        p: int,
    )
        requires
            self.wf(),
            vis.len() == self@.len(),
            forall|i: int|
                0 <= i < self@.len() ==> #[trigger] vis[i] == covered(
                    rects,
                    col_of(self.width(), i),
                    row_of(self.width(), i),
                ),
            0 <= p < self@.len(),
            p == flat(self.width(), rect.col as int, rect.row as int),
            rect.col < self.width(),
            rect.row < self.height(),
            rect.width >= 1,
            rect.height >= 1,
            rect.col + rect.width <= self.width(),
            rect.row + rect.height <= self.height(),
            self@[p] == target,
            !vis[p],
            forall|i: int| 0 <= i < p && #[trigger] self@[i] == target ==> vis[i],
            rect.col + rect.width == self.width() || self@[flat(self.width(), rect.col + rect.width, rect.row as int)]
                != target || vis[flat(self.width(), rect.col + rect.width, rect.row as int)],
            rect.row + rect.height == self.height() || exists|c: int|
                rect.col <= c < rect.col + rect.width && (self@[#[trigger] flat(
                    self.width(),
                    c,
                    rect.row + rect.height,
                )] != target || vis[flat(self.width(), c, rect.row + rect.height)]),
        ensures
            greedy_block(self@, self.width(), self.height(), target, rects.push(rect), rects.len() as int),
    {
        let cols = self.width();
        let rows = self.height();
        let nr = rects.push(rect);
        let k = rects.len() as int;
        assert(nr.subrange(0, k) =~= rects);
        assert(nr[k] == rect);
        lemma_flat_coords(cols, rows, rect.col as int, rect.row as int);
        assert(!covered(rects, rect.col as int, rect.row as int));
        if rect.col + rect.width < cols {
            lemma_flat_coords(cols, rows, rect.col + rect.width, rect.row as int);
        }
        if rect.row + rect.height < rows {
            let c = choose|c: int|
                rect.col <= c < rect.col + rect.width && (self@[#[trigger] flat(cols, c, rect.row + rect.height)]
                    != target || vis[flat(cols, c, rect.row + rect.height)]);
            lemma_flat_coords(cols, rows, c, rect.row + rect.height);
            assert(self@[flat(cols, c, rect.row + rect.height)] != target || covered(
                rects,
                c,
                rect.row + rect.height,
            ));
        }
    }

    /// Cover the cells holding `target` with disjoint blocks, scanning row by row: each
    /// block starts at the first cell not yet covered, takes the longest run of such cells
    /// to its right, then grows downwards while the rows below match in full.
    pub fn merge_matching_cells(&self, target: ClaimCell) -> (rects: Vec<CellRect>)
        requires
            self.wf(),
        ensures
            exact_cover(self@, self.width(), self.height(), target, rects@),
            forall|k: int|
                0 <= k < rects@.len() ==> #[trigger] greedy_block(
                    self@,
                    self.width(),
                    self.height(),
                    target,
                    rects@,
                    k,
                ),
    {
        let cols = self.cols;
        let rows = self.rows;
        let len = self.cells.len();
        proof {
            self.lemma_shape();
        }
        let mut visited: Vec<bool> = Vec::new();
        let mut k: usize = 0;
        while k < len
            invariant
                k <= len,
                visited@.len() == k,
                forall|i: int| 0 <= i < k ==> !visited@[i],
            decreases len - k,
        {
            visited.push(false);
            k = k + 1;
        }
        let mut rects: Vec<CellRect> = Vec::new();
        let mut p: usize = 0;
        while p < len
            invariant
                self.wf(),
                cols == self.cols,
                rows == self.rows,
                len == self@.len(),
                len == cols * rows,
                p <= len,
                visited@.len() == len,
                forall|i: int|
                    0 <= i < len ==> #[trigger] visited@[i] == covered(
                        rects@,
                        col_of(cols as int, i),
                        row_of(cols as int, i),
                    ),
                forall|i: int| 0 <= i < p && #[trigger] self@[i] == target ==> visited@[i],
                forall|kk: int|
                    0 <= kk < rects@.len() ==> #[trigger] greedy_block(
                        self@,
                        cols as int,
                        rows as int,
                        target,
                        rects@,
                        kk,
                    ),
                forall|kk: int|
                    0 <= kk < rects@.len() ==> #[trigger] rects@[kk].width >= 1 && rects@[kk].height >= 1
                        && rects@[kk].col + rects@[kk].width <= cols && rects@[kk].row + rects@[kk].height
                        <= rows,
                forall|kk: int, c: int, r: int|
                    0 <= kk < rects@.len() && #[trigger] in_cell_rect(rects@[kk], c, r) ==> self@[flat(
                        cols as int,
                        c,
                        r,
                    )] == target,
                forall|k1: int, k2: int, c: int, r: int|
                    0 <= k1 < rects@.len() && 0 <= k2 < rects@.len() && k1 != k2 && #[trigger] in_cell_rect(
                        rects@[k1],
                        c,
                        r,
                    ) ==> !#[trigger] in_cell_rect(rects@[k2], c, r),
            decreases len - p,
        {
            if !visited[p] && self.cells[p] == target {
                proof {
                    lemma_coords_of_flat(cols as int, rows as int, p as int);
                }
                let c0 = p % cols;
                let r0 = p / cols;
                let mut c1 = c0 + 1;
                while c1 < cols && self.run_unclaimed(&visited, target, r0, c1, c1 + 1)
                    invariant
                        self.wf(),
                        cols == self.cols,
                        rows == self.rows,
                        len == self@.len(),
                        visited@.len() == len,
                        c0 < c1 <= cols,
                        r0 < rows,
                        forall|x: int|
                            c0 <= x < c1 ==> !visited@[#[trigger] flat(cols as int, x, r0 as int)] && self@[flat(
                                cols as int,
                                x,
                                r0 as int,
                            )] == target,
                    decreases cols - c1,
                {
                    c1 = c1 + 1;
                }
                let mut r1 = r0 + 1;
                while r1 < rows && self.run_unclaimed(&visited, target, r1, c0, c1)
                    invariant
                        self.wf(),
                        cols == self.cols,
                        rows == self.rows,
                        len == self@.len(),
                        visited@.len() == len,
                        c0 < c1 <= cols,
                        r0 < r1 <= rows,
                        forall|x: int, y: int|
                            c0 <= x < c1 && r0 <= y < r1 ==> !visited@[#[trigger] flat(cols as int, x, y)]
                                && self@[flat(cols as int, x, y)] == target,
                    decreases rows - r1,
                {
                    proof {
                        assert forall|x: int, y: int|
                            c0 <= x < c1 && r0 <= y < r1 + 1 implies !visited@[#[trigger] flat(cols as int, x, y)]
                            && self@[flat(cols as int, x, y)] == target by {
                            if y == r1 {
                            }
                        }
                    }
                    r1 = r1 + 1;
                }
                proof {
                    assert(c1 == cols || self@[flat(cols as int, c1 as int, r0 as int)] != target
                        || visited@[flat(cols as int, c1 as int, r0 as int)]);
                    assert(r1 == rows || exists|c: int|
                        c0 <= c < c1 && (self@[#[trigger] flat(cols as int, c, r1 as int)] != target
                            || visited@[flat(cols as int, c, r1 as int)]));
                }
                let rect = CellRect { col: c0, row: r0, width: c1 - c0, height: r1 - r0 };
                let ghost old_rects = rects@;
                let ghost old_vis = visited@;
                self.mark_visited(&mut visited, rect);
                rects.push(rect);
                proof {
                    let nr = rects@;
                    assert(nr.len() == old_rects.len() + 1);
                    assert(nr[old_rects.len() as int] == rect);
                    assert forall|kk: int| 0 <= kk < old_rects.len() implies nr[kk] == old_rects[kk] by {
                    }
                    // Cells of the new block were all unvisited, so no earlier block holds them.
                    assert forall|c: int, r: int| #[trigger] in_cell_rect(rect, c, r) implies !covered(
                        old_rects,
                        c,
                        r,
                    ) && self@[flat(cols as int, c, r)] == target by {
                        lemma_flat_coords(cols as int, rows as int, c, r);
                        let i = flat(cols as int, c, r);
                        assert(!old_vis[i]);
                    }
                    assert forall|i: int| 0 <= i < len implies #[trigger] visited@[i] == covered(
                        nr,
                        col_of(cols as int, i),
                        row_of(cols as int, i),
                    ) by {
                        let c = col_of(cols as int, i);
                        let r = row_of(cols as int, i);
                        if covered(old_rects, c, r) {
                            let kk = choose|kk: int| 0 <= kk < old_rects.len() && #[trigger] in_cell_rect(old_rects[kk], c, r);
                            assert(in_cell_rect(nr[kk], c, r));
                        }
                        if in_cell_rect(rect, c, r) {
                            assert(in_cell_rect(nr[old_rects.len() as int], c, r));
                        }
                        if covered(nr, c, r) {
                            let kk = choose|kk: int| 0 <= kk < nr.len() && #[trigger] in_cell_rect(nr[kk], c, r);
                            if kk < old_rects.len() {
                                assert(in_cell_rect(old_rects[kk], c, r));
                            }
                        }
                    }
                    assert forall|k1: int, k2: int, c: int, r: int|
                        0 <= k1 < nr.len() && 0 <= k2 < nr.len() && k1 != k2 && #[trigger] in_cell_rect(
                            nr[k1],
                            c,
                            r,
                        ) implies !#[trigger] in_cell_rect(nr[k2], c, r) by {
                        if k1 == old_rects.len() {
                            if in_cell_rect(nr[k2], c, r) {
                                assert(in_cell_rect(old_rects[k2], c, r));
                            }
                        } else if k2 == old_rects.len() {
                            assert(in_cell_rect(old_rects[k1], c, r));
                        } else {
                            assert(in_cell_rect(old_rects[k1], c, r));
                        }
                    }
                    assert forall|kk: int, c: int, r: int|
                        0 <= kk < nr.len() && #[trigger] in_cell_rect(nr[kk], c, r) implies self@[flat(
                            cols as int,
                            c,
                            r,
                        )] == target by {
                        if kk < old_rects.len() {
                            assert(in_cell_rect(old_rects[kk], c, r));
                        }
                    }
                    assert(in_cell_rect(rect, c0 as int, r0 as int));
                    assert(visited@[p as int]);
                    self.lemma_new_block_greedy(target, old_vis, old_rects, rect, p as int);
                    assert forall|kk: int| 0 <= kk < nr.len() implies #[trigger] greedy_block(
                        self@,
                        cols as int,
                        rows as int,
                        target,
                        nr,
                        kk,
                    ) by {
                        if kk < old_rects.len() {
                            assert(nr.subrange(0, kk) =~= old_rects.subrange(0, kk));
                            assert(greedy_block(self@, cols as int, rows as int, target, old_rects, kk));
                        } else {
                            assert(nr.subrange(0, kk) =~= old_rects);
                        }
                    }
                }
            }
            p = p + 1;
        }
        rects
    }

    /// The part of the index range `lo..hi` that lies in `0..bound`, as indices.
    pub fn clip_range(lo: i64, hi: i64, bound: usize) -> (r: (usize, usize))
        ensures
            r.0 == if lo <= 0 { 0 } else if lo < bound { lo as int } else { bound as int },
            r.1 == if hi <= 0 { 0 } else if hi < bound { hi as int } else { bound as int },
            r.1 <= bound,
    {
        (Self::clip(lo, bound), Self::clip(hi, bound))
    }

    /// Clip `v` to `0..=bound`, as an index.
    fn clip(v: i64, bound: usize) -> (k: usize)
        ensures
            k == if v <= 0 { 0 } else if v < bound { v as int } else { bound as int },
    {
        if v <= 0 {
            0
        } else if (v as u64) < (bound as u64) {
            v as usize
        } else {
            bound
        }
    }

    /// Mark as barrier the one-cell-thick line of a wall: for a vertical wall the cells of
    /// column `line` in rows `from..to`, for a horizontal wall the cells of row `line` in
    /// columns `from..to`, clipped to the grid.
    pub fn mark_wall_centerline(&mut self, axis: Axis, line: usize, from: i64, to: i64)
        requires
            old(self).wf(),
            line < (match axis {
                Axis::Vertical => old(self).width(),
                Axis::Horizontal => old(self).height(),
            }),
        ensures
            final(self).wf(),
            final(self).width() == old(self).width(),
            final(self).height() == old(self).height(),
            final(self)@.len() == old(self)@.len(),
            forall|i: int|
                0 <= i < old(self)@.len() ==> #[trigger] final(self)@[i] == if on_centerline(
                    old(self).width(),
                    axis,
                    line as int,
                    from as int,
                    to as int,
                    i,
                ) {
                    ClaimCell::Barrier
                } else {
                    old(self)@[i]
                },
            forall|c: int, r: int|
                0 <= c < old(self).width() && 0 <= r < old(self).height() ==> #[trigger] final(self)@[flat(
                    old(self).width(),
                    c,
                    r,
                )] == if centerline_cell(
                    old(self).width(),
                    old(self).height(),
                    axis,
                    line as int,
                    from as int,
                    to as int,
                    c,
                    r,
                ) {
                    ClaimCell::Barrier
                } else {
                    old(self)@[flat(old(self).width(), c, r)]
                },
    {
        let ghost old_cells = self.cells@;
        let cols = self.cols;
        let n = match axis {
            Axis::Vertical => self.rows,
            Axis::Horizontal => self.cols,
        };
        let lo = Self::clip(from, n);
        let hi = Self::clip(to, n);
        let mut k = lo;
        proof {
            self.lemma_shape();
        }
        while k < hi
            invariant
                self.wf(),
                self.cols == cols,
                self.rows == old(self).rows,
                self.cols == old(self).cols,
                hi == (if to <= 0 { 0 } else if to < n { to as int } else { n as int }),
                n == (match axis {
                    Axis::Vertical => self.rows as int,
                    Axis::Horizontal => self.cols as int,
                }),
                line < (match axis {
                    Axis::Vertical => self.cols as int,
                    Axis::Horizontal => self.rows as int,
                }),
                lo <= k,
                k <= hi || k == lo,
                hi <= n,
                lo == (if from <= 0 { 0 } else if from < n { from as int } else { n as int }),
                self.cells@.len() == old_cells.len(),
                forall|i: int|
                    0 <= i < old_cells.len() ==> #[trigger] self.cells@[i] == if on_centerline(
                        cols as int,
                        axis,
                        line as int,
                        from as int,
                        k as int,
                        i,
                    ) {
                        ClaimCell::Barrier
                    } else {
                        old_cells[i]
                    },
            decreases hi - k,
        {
            let (c, r) = match axis {
                Axis::Vertical => (line, k),
                Axis::Horizontal => (k, line),
            };
            proof {
                lemma_flat_coords(self.cols as int, self.rows as int, c as int, r as int);
                self.lemma_shape();
            }
            let idx = r * self.cols + c;
            let ghost before = self.cells@;
            self.cells.set(idx, ClaimCell::Barrier);
            proof {
                assert forall|i: int| 0 <= i < old_cells.len() implies #[trigger] self.cells@[i]
                    == if on_centerline(cols as int, axis, line as int, from as int, k + 1, i) {
                    ClaimCell::Barrier
                } else {
                    old_cells[i]
                } by {
                    lemma_coords_of_flat(self.cols as int, self.rows as int, i);
                    if i != idx {
                        assert(before[i] == self.cells@[i]);
                    }
                }
            }
            k = k + 1;
        }
        proof {
            assert forall|i: int| 0 <= i < old_cells.len() implies #[trigger] self.cells@[i]
                == if on_centerline(cols as int, axis, line as int, from as int, to as int, i) {
                ClaimCell::Barrier
            } else {
                old_cells[i]
            } by {
                lemma_coords_of_flat(self.cols as int, self.rows as int, i);
                let p = match axis {
                    Axis::Vertical => row_of(cols as int, i),
                    Axis::Horizontal => col_of(cols as int, i),
                };
                assert(0 <= p < n);
                assert((from <= p < to) == (from <= p < k));
                assert(on_centerline(cols as int, axis, line as int, from as int, to as int, i)
                    == on_centerline(cols as int, axis, line as int, from as int, k as int, i));
            }
        }
        proof {
            assert forall|c: int, r: int|
                0 <= c < self.cols && 0 <= r < self.rows implies #[trigger] self@[flat(cols as int, c, r)]
                == if centerline_cell(cols as int, self.rows as int, axis, line as int, from as int, to as int, c, r) {
                ClaimCell::Barrier
            } else {
                old_cells[flat(cols as int, c, r)]
            } by {
                law_centerline_cells(cols as int, self.rows as int, axis, line as int, from as int, to as int, c, r);
                lemma_flat_coords(cols as int, self.rows as int, c, r);
            }
        }
    }
}

/// Cell `(c, r)` of a grid of `cols` by `rows` is on the wall line at `line`, within the
/// run `from..to` clipped to the grid: column `line` and a row in `max(from, 0)..min(to,
/// rows)` for a vertical wall; row `line` and a column in `max(from, 0)..min(to, cols)`
/// for a horizontal one.
pub open spec fn centerline_cell(
    cols: int,
    rows: int,
    axis: Axis,
    line: int,
    from: int,
    to: int,
    c: int,
    r: int,
) -> bool {
    let lo = if from > 0 {
        from
    } else {
        0
    };
    match axis {
        Axis::Vertical => c == line && lo <= r && r < (if to < rows {
            to
        } else {
            rows
        }),
        Axis::Horizontal => r == line && lo <= c && c < (if to < cols {
            to
        } else {
            cols
        }),
    }
}

/// In columns and rows: the cells marked for a wall line are exactly the cells of that
/// line whose position along the wall lies in the clipped run.
pub proof fn law_centerline_cells(
    cols: int,
    rows: int,
    axis: Axis,
    line: int,
    from: int,
    to: int,
    c: int,
    r: int,
)
    requires
        cols >= 1,
        0 <= c < cols,
        0 <= r < rows,
    ensures
        on_centerline(cols, axis, line, from, to, flat(cols, c, r)) == centerline_cell(
            cols,
            rows,
            axis,
            line,
            from,
            to,
            c,
            r,
        ),
{
    lemma_flat_coords(cols, rows, c, r);
}

/// Cell `i` lies on the centerline run `from..to` of a wall of the given axis at `line`.
pub open spec fn on_centerline(cols: int, axis: Axis, line: int, from: int, to: int, i: int) -> bool {
    match axis {
        Axis::Vertical => col_of(cols, i) == line && from <= row_of(cols, i) < to,
        Axis::Horizontal => row_of(cols, i) == line && from <= col_of(cols, i) < to,
    }
}


/// No open cell outside `region` is next to an open cell inside it: walls seal it off.
pub open spec fn sealed(g: Seq<ClaimCell>, cols: int, region: Set<int>) -> bool {
    forall|a: int, b: int|
        !region.contains(a) && region.contains(b) && #[trigger] adjacent(cols, g.len() as int, a, b)
            ==> g[a] != ClaimCell::Open || g[b] != ClaimCell::Open
}

/// An open path from outside a sealed region never enters it.
proof fn lemma_path_stays_out(g: Seq<ClaimCell>, cols: int, region: Set<int>, path: Seq<int>, k: int)
    requires
        sealed(g, cols, region),
        open_path(g, cols, path),
        !region.contains(path[0]),
        0 <= k < path.len(),
    ensures
        !region.contains(path[k]),
    decreases k,
{
    if k > 0 {
        lemma_path_stays_out(g, cols, region, path, k - 1);
        assert(path_step(g, cols, path, k - 1));
        assert(g[path[k - 1]] == ClaimCell::Open);
        assert(g[path[k]] == ClaimCell::Open);
    }
}

/// A region sealed off by walls in which no ball starts is claimed: none of its cells
/// becomes free.
pub proof fn law_sealed_region_without_balls_is_claimed(
    g: Seq<ClaimCell>,
    cols: int,
    seeds: Seq<(usize, usize)>,
    region: Set<int>,
    i: int,
)
    requires
        sealed(g, cols, region),
        forall|x: int| region.contains(x) ==> !#[trigger] is_start(g, cols, seeds, x),
        region.contains(i),
        0 <= i < g.len(),
    ensures
        filled(g, cols, seeds, i) != ClaimCell::Free,
{
    if reachable(g, cols, seeds, i) {
        let path = choose|path: Seq<int>|
            #[trigger] open_path(g, cols, path) && is_start(g, cols, seeds, path[0]) && path.last() == i;
        lemma_path_stays_out(g, cols, region, path, path.len() - 1);
    }
}

/// A ball on an open cell keeps that cell free, and so every open cell connected to it.
pub proof fn law_ball_region_is_free(g: Seq<ClaimCell>, cols: int, seeds: Seq<(usize, usize)>, j: int, path: Seq<int>)
    requires
        0 <= j < seeds.len(),
        0 <= seed_index(cols, seeds[j]) < g.len(),
        g[seed_index(cols, seeds[j])] == ClaimCell::Open,
        open_path(g, cols, path),
        path[0] == seed_index(cols, seeds[j]),
    ensures
        filled(g, cols, seeds, seed_index(cols, seeds[j])) == ClaimCell::Free,
        filled(g, cols, seeds, path.last()) == ClaimCell::Free,
{
    assert(starts_from(g, cols, seeds[j], path[0]));
    assert(is_start(g, cols, seeds, path[0]));
    lemma_reach_start(g, cols, seeds, j, seed_index(cols, seeds[j]));
    assert(path[path.len() - 1] == path.last());
    assert(g[path.last()] == ClaimCell::Open);
}

/// Barriers are never freed and never removed by the fill.
pub proof fn law_fill_keeps_barriers(g: Seq<ClaimCell>, cols: int, seeds: Seq<(usize, usize)>, i: int)
    requires
        0 <= i < g.len(),
    ensures
        (filled(g, cols, seeds, i) == ClaimCell::Barrier) == (g[i] == ClaimCell::Barrier),
{
}


/// The grid with its free cells turned back into open ones.
pub open spec fn unfilled(g: Seq<ClaimCell>) -> Seq<ClaimCell> {
    Seq::new(g.len(), |i: int| if g[i] == ClaimCell::Free { ClaimCell::Open } else { g[i] })
}

/// Claiming is idempotent: clearing the free marks of a filled grid gives back the grid
/// before the fill, so filling again from the same balls gives the same cells.
pub proof fn law_claim_is_idempotent(g: Seq<ClaimCell>, cols: int, seeds: Seq<(usize, usize)>)
    requires
        forall|i: int| 0 <= i < g.len() ==> g[i] != ClaimCell::Free,
    ensures
        unfilled(Seq::new(g.len(), |i: int| filled(g, cols, seeds, i))) == g,
        Seq::new(g.len(), |i: int| filled(unfilled(Seq::new(g.len(), |j: int| filled(g, cols, seeds, j))), cols, seeds, i))
            == Seq::new(g.len(), |i: int| filled(g, cols, seeds, i)),
{
    let f = Seq::new(g.len(), |i: int| filled(g, cols, seeds, i));
    assert(unfilled(f) =~= g);
}

} // verus!
