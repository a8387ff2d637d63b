//! Uniform bucket grid over the simulation domain.
//!
//! The domain is divided into square cells whose side equals the kernel
//! support diameter, so that every particle within kernel range of a point
//! lies in the 3x3 block of cells around the point's own cell.  Cells store
//! particle indices, never particle data; the grid is rebuilt from scratch
//! every step.  Mapping a world position to its cell coordinates is the
//! caller's concern: the grid itself works purely on cell coordinates.

use vstd::prelude::*;

verus! {

/// One bucket of the grid: the indices of the particles whose positions
/// fall inside this cell's square, in insertion order.
pub struct Cell {
    particles: Vec<u32>,
}

impl View for Cell {
    type V = Seq<u32>;

    closed spec fn view(&self) -> Seq<u32> {
        self.particles@
    }
}

/// A `grid_width` x `grid_height` array of cells in row-major order.
pub struct Grid {
    grid: Vec<Cell>,
    grid_width: u64,
    grid_height: u64,
}

impl Grid {
    /// Number of cell columns.
    pub closed spec fn spec_width(&self) -> u64 {
        self.grid_width
    }

    /// Number of cell rows.
    pub closed spec fn spec_height(&self) -> u64 {
        self.grid_height
    }

    /// The grid is well formed: at least one cell in each direction, and
    /// exactly one bucket per cell.
    pub closed spec fn wf(&self) -> bool {
        &&& 1 <= self.grid_width
        &&& 1 <= self.grid_height
        &&& self.grid_width * self.grid_height <= usize::MAX
        &&& self.grid@.len() == self.grid_width * self.grid_height
    }

    /// The indices stored in cell `(gx, gy)`, in insertion order.
    pub closed spec fn spec_cell(&self, gx: int, gy: int) -> Seq<u32> {
        self.grid@[gy * self.grid_width + gx]@
    }

    /// Whether `(gx, gy)` names a cell of this grid.
    pub open spec fn cell_in_range(&self, gx: int, gy: int) -> bool {
        &&& 0 <= gx < self.spec_width()
        &&& 0 <= gy < self.spec_height()
    }

    /// The contents of cell `(gx, gy)`, or the empty sequence when the
    /// coordinates fall outside the grid (rows and columns are never wrapped).
    pub open spec fn block_cell(&self, gx: int, gy: int) -> Seq<u32> {
        if self.cell_in_range(gx, gy) {
            self.spec_cell(gx, gy)
        } else {
            Seq::empty()
        }
    }

    /// What a neighbour query at cell `(gx, gy)` returns: the concatenation
    /// of the cells of the 3x3 block around it, each in-range cell exactly
    /// once, in a fixed traversal order.
    pub open spec fn neighbours_seq(&self, gx: int, gy: int) -> Seq<u32> {
        self.block_cell(gx, gy) + self.block_cell(gx + 1, gy) + self.block_cell(gx, gy + 1)
            + self.block_cell(gx + 1, gy + 1) + self.block_cell(gx - 1, gy) + self.block_cell(
            gx,
            gy - 1,
        ) + self.block_cell(gx - 1, gy - 1) + self.block_cell(gx + 1, gy - 1) + self.block_cell(
            gx - 1,
            gy + 1,
        )
    }
}

/// Row-major cell indices are in bounds and injective.
proof fn lemma_row_major_index(w: int, h: int, gx: int, gy: int)
    requires
        0 <= gx < w,
        0 <= gy < h,
    ensures
        0 <= gy * w + gx < w * h,
        forall|x: int, y: int|
            0 <= x < w && 0 <= y < h && #[trigger] (y * w + x) == gy * w + gx ==> x == gx && y
                == gy,
{
    assert(0 <= gy * w + gx < w * h) by (nonlinear_arith)
        requires
            0 <= gx < w,
            0 <= gy < h,
    ;
    assert forall|x: int, y: int|
        0 <= x < w && 0 <= y < h && #[trigger] (y * w + x) == gy * w + gx implies x == gx && y
        == gy by {
        assert(x == gx && y == gy) by (nonlinear_arith)
            requires
                0 <= x < w,
                0 <= y < h,
                0 <= gx < w,
                0 <= gy < h,
                y * w + x == gy * w + gx,
        ;
    }
}

/// Allocates an empty grid of `grid_width * grid_height` cells.
pub fn create_grid(grid_width: u64, grid_height: u64) -> (g: Grid)
    requires
        1 <= grid_width,
        1 <= grid_height,
        grid_width * grid_height <= usize::MAX,
    ensures
        g.wf(),
        g.spec_width() == grid_width,
        g.spec_height() == grid_height,
        forall|gx: int, gy: int|
            g.cell_in_range(gx, gy) ==> #[trigger] g.spec_cell(gx, gy) == Seq::<u32>::empty(),
{
    proof {
        assert(grid_width * grid_height <= u64::MAX) by (nonlinear_arith)
            requires
                grid_width * grid_height <= usize::MAX,
                usize::MAX <= u64::MAX,
        ;
    }
    let n: usize = (grid_width * grid_height) as usize;
    let mut cells: Vec<Cell> = Vec::new();
    let mut i: usize = 0;
    while i < n
        invariant
            i <= n,
            cells@.len() == i,
            forall|j: int| 0 <= j < i ==> #[trigger] cells@[j]@ == Seq::<u32>::empty(),
        decreases n - i,
    {
        cells.push(Cell { particles: Vec::new() });
        i = i + 1;
    }
    let g = Grid { grid: cells, grid_width, grid_height };
    proof {
        assert forall|gx: int, gy: int| g.cell_in_range(gx, gy) implies #[trigger] g.spec_cell(
            gx,
            gy,
        ) == Seq::<u32>::empty() by {
            lemma_row_major_index(grid_width as int, grid_height as int, gx, gy);
        }
    }
    g
}

impl Grid {
    /// Number of cell columns.
    pub fn width(&self) -> (w: u64)
        ensures
            w == self.spec_width(),
    {
        self.grid_width
    }

    /// Number of cell rows.
    pub fn height(&self) -> (h: u64)
        ensures
            h == self.spec_height(),
    {
        self.grid_height
    }

    /// Position of cell `(gx, gy)` in the row-major bucket array.
    fn grid_index(&self, gx: u64, gy: u64) -> (i: usize)
        requires
            self.wf(),
            gx < self.spec_width(),
            gy < self.spec_height(),
        ensures
            i == gy * self.spec_width() + gx,
            i < self.grid@.len(),
    {
        proof {
            lemma_row_major_index(
                self.grid_width as int,
                self.grid_height as int,
                gx as int,
                gy as int,
            );
        }
        (gy * self.grid_width + gx) as usize
    }

    /// Appends `index` to the bucket of cell `(gx, gy)`; all other cells are
    /// untouched.
    pub fn add_particle(&mut self, index: u32, gx: u64, gy: u64)
        requires
            old(self).wf(),
            gx < old(self).spec_width(),
            gy < old(self).spec_height(),
        ensures
            final(self).wf(),
            final(self).spec_width() == old(self).spec_width(),
            final(self).spec_height() == old(self).spec_height(),
            final(self).spec_cell(gx as int, gy as int) == old(self).spec_cell(
                gx as int,
                gy as int,
            ).push(index),
            forall|x: int, y: int|
                old(self).cell_in_range(x, y) && !(x == gx && y == gy)
                    ==> #[trigger] final(self).spec_cell(x, y) == old(self).spec_cell(x, y),
    {
        let i = self.grid_index(gx, gy);
        self.grid[i].particles.push(index);
        proof {
            lemma_row_major_index(
                self.grid_width as int,
                self.grid_height as int,
                gx as int,
                gy as int,
            );
            assert forall|x: int, y: int|
                old(self).cell_in_range(x, y) && !(x == gx && y == gy)
                    implies #[trigger] final(self).spec_cell(x, y) == old(self).spec_cell(x, y) by {
                lemma_row_major_index(
                    self.grid_width as int,
                    self.grid_height as int,
                    x,
                    y,
                );
            }
        }
    }

    /// Appends the contents of cell `(gx, gy)` to `dst`.
    fn append_cell(&self, dst: &mut Vec<u32>, gx: u64, gy: u64)
        requires
            self.wf(),
            gx < self.spec_width(),
            gy < self.spec_height(),
        ensures
            final(dst)@ == old(dst)@ + self.spec_cell(gx as int, gy as int),
    {
        let i = self.grid_index(gx, gy);
        let cell = &self.grid[i];
        let mut k: usize = 0;
        while k < cell.particles.len()
            invariant
                k <= cell.particles.len(),
                dst@ == old(dst)@ + cell.particles@.take(k as int),
            decreases cell.particles.len() - k,
        {
            dst.push(cell.particles[k]);
            proof {
                assert(cell.particles@.take(k + 1) == cell.particles@.take(k as int).push(
                    cell.particles@[k as int],
                ));
            }
            k = k + 1;
        }
        proof {
            assert(cell.particles@.take(cell.particles@.len() as int) == cell.particles@);
        }
    }

    /// Collects the indices stored in the 3x3 block of cells centered on
    /// `(gx, gy)`, skipping rows and columns that fall outside the grid.
    /// Each in-range cell is traversed exactly once, so an index appears in
    /// the result exactly as often as it stands in those cells.
    pub fn get_neighbours(&self, gx: u64, gy: u64) -> (r: Vec<u32>)
        requires
            self.wf(),
            gx < self.spec_width(),
            gy < self.spec_height(),
        ensures
            r@ == self.neighbours_seq(gx as int, gy as int),
    {
        let mut neighbours: Vec<u32> = Vec::new();
        self.append_cell(&mut neighbours, gx, gy);
        if gx + 1 < self.grid_width {
            self.append_cell(&mut neighbours, gx + 1, gy);
        }
        if gy + 1 < self.grid_height {
            self.append_cell(&mut neighbours, gx, gy + 1);
        }
        if gx + 1 < self.grid_width && gy + 1 < self.grid_height {
            self.append_cell(&mut neighbours, gx + 1, gy + 1);
        }
        if gx > 0 {
            self.append_cell(&mut neighbours, gx - 1, gy);
        }
        if gy > 0 {
            self.append_cell(&mut neighbours, gx, gy - 1);
        }
        if gx > 0 && gy > 0 {
            self.append_cell(&mut neighbours, gx - 1, gy - 1);
        }
        if gx + 1 < self.grid_width && gy > 0 {
            self.append_cell(&mut neighbours, gx + 1, gy - 1);
        }
        if gx > 0 && gy + 1 < self.grid_height {
            self.append_cell(&mut neighbours, gx - 1, gy + 1);
        }
        proof {
            assert(neighbours@ =~= self.neighbours_seq(gx as int, gy as int));
        }
        neighbours
    }
}

/// An element of either operand is an element of the concatenation.
proof fn lemma_add_contains<A>(a: Seq<A>, b: Seq<A>, x: A)
    requires
        a.contains(x) || b.contains(x),
    ensures
        (a + b).contains(x),
{
    if a.contains(x) {
        let i = choose|i: int| 0 <= i < a.len() && a[i] == x;
        assert((a + b)[i] == x);
    } else {
        let i = choose|i: int| 0 <= i < b.len() && b[i] == x;
        assert((a + b)[a.len() + i] == x);
    }
}

/// Law: the neighbour query has no false negatives at the cell level.  Every
/// index stored in a cell at most one row and one column away from the query
/// cell - and cells are as wide as the kernel support diameter, so this
/// covers every particle within kernel range of the query cell - appears in
/// the query's result.
pub proof fn lemma_neighbours_complete(g: Grid, gx: int, gy: int, px: int, py: int, index: u32)
    requires
        g.wf(),
        g.cell_in_range(gx, gy),
        g.cell_in_range(px, py),
        -1 <= px - gx <= 1,
        -1 <= py - gy <= 1,
        g.spec_cell(px, py).contains(index),
    ensures
        g.neighbours_seq(gx, gy).contains(index),
{
    let s1 = g.block_cell(gx, gy);
    let s2 = s1 + g.block_cell(gx + 1, gy);
    let s3 = s2 + g.block_cell(gx, gy + 1);
    let s4 = s3 + g.block_cell(gx + 1, gy + 1);
    let s5 = s4 + g.block_cell(gx - 1, gy);
    let s6 = s5 + g.block_cell(gx, gy - 1);
    let s7 = s6 + g.block_cell(gx - 1, gy - 1);
    let s8 = s7 + g.block_cell(gx + 1, gy - 1);
    let s9 = s8 + g.block_cell(gx - 1, gy + 1);
    assert(g.block_cell(px, py) == g.spec_cell(px, py));
    assert(s2.contains(index) ==> s3.contains(index)) by {
        if s2.contains(index) {
            lemma_add_contains(s2, g.block_cell(gx, gy + 1), index);
        }
    }
    assert(s3.contains(index) ==> s4.contains(index)) by {
        if s3.contains(index) {
            lemma_add_contains(s3, g.block_cell(gx + 1, gy + 1), index);
        }
    }
    assert(s4.contains(index) ==> s5.contains(index)) by {
        if s4.contains(index) {
            lemma_add_contains(s4, g.block_cell(gx - 1, gy), index);
        }
    }
    assert(s5.contains(index) ==> s6.contains(index)) by {
        if s5.contains(index) {
            lemma_add_contains(s5, g.block_cell(gx, gy - 1), index);
        }
    }
    assert(s6.contains(index) ==> s7.contains(index)) by {
        if s6.contains(index) {
            lemma_add_contains(s6, g.block_cell(gx - 1, gy - 1), index);
        }
    }
    assert(s7.contains(index) ==> s8.contains(index)) by {
        if s7.contains(index) {
            lemma_add_contains(s7, g.block_cell(gx + 1, gy - 1), index);
        }
    }
    assert(s8.contains(index) ==> s9.contains(index)) by {
        if s8.contains(index) {
            lemma_add_contains(s8, g.block_cell(gx - 1, gy + 1), index);
        }
    }
    if px == gx && py == gy {
        assert(s2.contains(index)) by {
            lemma_add_contains(s1, g.block_cell(gx + 1, gy), index);
        }
    } else if px == gx + 1 && py == gy {
        assert(s2.contains(index)) by {
            lemma_add_contains(s1, g.block_cell(gx + 1, gy), index);
        }
    } else if px == gx && py == gy + 1 {
        assert(s3.contains(index)) by {
            lemma_add_contains(s2, g.block_cell(gx, gy + 1), index);
        }
    } else if px == gx + 1 && py == gy + 1 {
        assert(s4.contains(index)) by {
            lemma_add_contains(s3, g.block_cell(gx + 1, gy + 1), index);
        }
    } else if px == gx - 1 && py == gy {
        assert(s5.contains(index)) by {
            lemma_add_contains(s4, g.block_cell(gx - 1, gy), index);
        }
    } else if px == gx && py == gy - 1 {
        assert(s6.contains(index)) by {
            lemma_add_contains(s5, g.block_cell(gx, gy - 1), index);
        }
    } else if px == gx - 1 && py == gy - 1 {
        assert(s7.contains(index)) by {
            lemma_add_contains(s6, g.block_cell(gx - 1, gy - 1), index);
        }
    } else if px == gx + 1 && py == gy - 1 {
        assert(s8.contains(index)) by {
            lemma_add_contains(s7, g.block_cell(gx + 1, gy - 1), index);
        }
    } else {
        assert(px == gx - 1 && py == gy + 1);
        assert(s9.contains(index)) by {
            lemma_add_contains(s8, g.block_cell(gx - 1, gy + 1), index);
        }
    }
    assert(g.neighbours_seq(gx, gy) == s9);
}

} // verus!

