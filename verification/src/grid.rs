//! Grids of 8x8 coefficient blocks.
//!
//! The storage is an `ndarray` two-dimensional array of `i64` with one row
//! per block and 64 columns. Verus cannot look inside that array, so the
//! grid is described by [`grid_blocks`], and the four functions that touch
//! the array are trusted to behave as their contracts say.

use vstd::prelude::*;

verus! {

/// Number of coefficients in one block.
pub const BLOCK_LEN: usize = 64;

/// An ordered sequence of blocks, each holding 64 signed coefficients.
#[verifier::external_body]
pub struct BlockGrid {
    cells: ndarray::Array2<i64>,
}

/// The blocks that a grid holds, in order; each block lists its
/// coefficients by column index.
pub uninterp spec fn grid_blocks(g: BlockGrid) -> Seq<Seq<i64>>;

/// True when every block of `blocks` has exactly 64 coefficients.
pub open spec fn all_blocks_full(blocks: Seq<Seq<i64>>) -> bool {
    forall|n: int| 0 <= n < blocks.len() ==> (#[trigger] blocks[n]).len() == 64
}

/// Every coefficient of every block lies within `low..=high`.
pub open spec fn all_within(blocks: Seq<Seq<i64>>, low: int, high: int) -> bool {
    forall|n: int, i: int|
        0 <= n < blocks.len() && 0 <= i < 64 ==> low <= #[trigger] blocks[n][i] <= high
}

/// A block of 64 zero coefficients.
pub open spec fn zero_block() -> Seq<i64> {
    Seq::new(64, |i: int| 0i64)
}

/// Trusted: `ndarray::Array2::<i64>::zeros((count, 64))`. The array has
/// `count` rows of 64 zeros. The call panics when the element count or the
/// byte size of the buffer exceeds `isize::MAX`, which `requires` excludes.
#[verifier::external_body]
fn cells_zeros(count: usize) -> (g: BlockGrid)
    requires
        count * 512 <= isize::MAX,
    ensures
        grid_blocks(g) == Seq::new(count as nat, |n: int| zero_block()),
{
    BlockGrid { cells: ndarray::Array2::<i64>::zeros((count, 64)) }
}

/// Trusted: `ndarray::ArrayBase::dim` on a two-dimensional array; its first
/// component is the number of rows.
#[verifier::external_body]
fn cells_rows(g: &BlockGrid) -> (count: usize)
    ensures
        count == grid_blocks(*g).len(),
{
    g.cells.dim().0
}

/// Trusted: indexing `ndarray::Array2` with `[n, i]` reads the element in
/// row `n`, column `i`. Indexing panics out of bounds, which `requires`
/// excludes.
#[verifier::external_body]
fn cells_get(g: &BlockGrid, n: usize, i: usize) -> (v: i64)
    requires
        n < grid_blocks(*g).len(),
        i < grid_blocks(*g)[n as int].len(),
    ensures
        v == grid_blocks(*g)[n as int][i as int],
{
    g.cells[[n, i]]
}

/// Trusted: assigning through `IndexMut` of `ndarray::Array2` at `[n, i]`
/// replaces that one element and leaves every other element as it was.
#[verifier::external_body]
fn cells_set(g: &mut BlockGrid, n: usize, i: usize, v: i64)
    requires
        n < grid_blocks(*old(g)).len(),
        i < grid_blocks(*old(g))[n as int].len(),
    ensures
        grid_blocks(*final(g)) == grid_blocks(*old(g)).update(
            n as int,
            grid_blocks(*old(g))[n as int].update(i as int, v),
        ),
{
    g.cells[[n, i]] = v;
}

impl View for BlockGrid {
    type V = Seq<Seq<i64>>;

    open spec fn view(&self) -> Seq<Seq<i64>> {
        grid_blocks(*self)
    }
}

impl BlockGrid {
    /// Every block has 64 coefficients.
    pub open spec fn wf(&self) -> bool {
        all_blocks_full(self@)
    }

    /// A grid of `count` blocks, all coefficients zero.
    pub fn new(count: usize) -> (g: BlockGrid)
        requires
            count * 512 <= isize::MAX,
        ensures
            g.wf(),
            g@ == Seq::new(count as nat, |n: int| zero_block()),
    {
        cells_zeros(count)
    }

    /// Number of blocks.
    pub fn len(&self) -> (count: usize)
        ensures
            count == self@.len(),
    {
        cells_rows(self)
    }

    /// Coefficient `i` of block `n`.
    pub fn get(&self, n: usize, i: usize) -> (v: i64)
        requires
            self.wf(),
            n < self@.len(),
            i < 64,
        ensures
            v == self@[n as int][i as int],
    {
        cells_get(self, n, i)
    }

    /// Stores `v` as coefficient `i` of block `n`; nothing else changes.
    pub fn set(&mut self, n: usize, i: usize, v: i64)
        requires
            old(self).wf(),
            n < old(self)@.len(),
            i < 64,
        ensures
            final(self).wf(),
            final(self)@ == old(self)@.update(n as int, old(self)@[n as int].update(i as int, v)),
    {
        cells_set(self, n, i, v);
    }
}

/// A vector of 64 zeros.
pub fn zeros64() -> (v: Vec<i64>)
    ensures
        v@ == Seq::new(64, |i: int| 0i64),
{
    let mut v: Vec<i64> = Vec::new();
    let mut i: usize = 0;
    while i < 64
        invariant
            i <= 64,
            v@.len() == i,
            forall|k: int| 0 <= k < i ==> v@[k] == 0,
        decreases 64 - i,
    {
        v.push(0);
        i += 1;
    }
    assert(v@ =~= Seq::new(64, |i: int| 0i64));
    v
}

/// Replaces block `n` of the grid by the 64 coefficients in `block`.
pub fn write_block(grid: &mut BlockGrid, n: usize, block: &Vec<i64>)
    requires
        old(grid).wf(),
        n < old(grid)@.len(),
        block@.len() == 64,
    ensures
        final(grid).wf(),
        final(grid)@ == old(grid)@.update(n as int, block@),
{
    let mut i: usize = 0;
    while i < 64
        invariant
            grid.wf(),
            i <= 64,
            n < grid@.len(),
            block@.len() == 64,
            grid@.len() == old(grid)@.len(),
            forall|m: int| 0 <= m < grid@.len() && m != n ==> grid@[m] == old(grid)@[m],
            forall|k: int| 0 <= k < i ==> grid@[n as int][k] == block@[k],
        decreases 64 - i,
    {
        grid.set(n, i, block[i]);
        i += 1;
    }
    assert(grid@[n as int] =~= block@);
    assert(grid@ =~= old(grid)@.update(n as int, block@));
}

/// The deep view of a vector of vectors of integers lists the views of the
/// inner vectors.
pub proof fn lemma_rows_deep_view(rows: Vec<Vec<i64>>)
    ensures
        rows.deep_view().len() == rows@.len(),
        forall|m: int| 0 <= m < rows@.len() ==> #[trigger] rows.deep_view()[m] == rows@[m]@,
{
    assert forall|m: int| 0 <= m < rows@.len() implies #[trigger] rows.deep_view()[m]
        == rows@[m]@ by {
        assert(rows@[m].deep_view() =~= rows@[m]@);
    }
}

impl BlockGrid {
    /// A grid that holds the given blocks, or `None` when the byte size of
    /// the grid would exceed `isize::MAX` or some block has not exactly 64
    /// coefficients.
    pub fn from_rows(rows: &Vec<Vec<i64>>) -> (res: Option<BlockGrid>)
        ensures
            res matches Some(g) ==> g.wf() && g@ == rows.deep_view(),
            res is Some <==> rows@.len() * 512 <= isize::MAX && all_blocks_full(rows.deep_view()),
    {
        let count = rows.len();
        if count > (isize::MAX as usize) / 512 {
            return None;
        }
        let mut grid = BlockGrid::new(count);
        let mut n: usize = 0;
        while n < count
            invariant
                grid.wf(),
                grid@.len() == count,
                count == rows@.len(),
                n <= count,
                forall|m: int| 0 <= m < n ==> #[trigger] grid@[m] == rows@[m]@,
                forall|m: int| 0 <= m < n ==> (#[trigger] rows@[m])@.len() == 64,
            decreases count - n,
        {
            if rows[n].len() != 64 {
                proof {
                    lemma_rows_deep_view(*rows);
                    assert(rows.deep_view()[n as int].len() != 64);
                }
                return None;
            }
            let mut i: usize = 0;
            while i < 64
                invariant
                    grid.wf(),
                    grid@.len() == count,
                    count == rows@.len(),
                    n < count,
                    i <= 64,
                    rows@[n as int]@.len() == 64,
                    forall|m: int| 0 <= m < n ==> #[trigger] grid@[m] == rows@[m]@,
                    forall|k: int| 0 <= k < i ==> grid@[n as int][k] == rows@[n as int]@[k],
                decreases 64 - i,
            {
                grid.set(n, i, rows[n][i]);
                i += 1;
            }
            assert(grid@[n as int] =~= rows@[n as int]@);
            n += 1;
        }
        proof {
            lemma_rows_deep_view(*rows);
        }
        assert(grid@ =~= rows.deep_view());
        Some(grid)
    }

    /// The blocks of the grid, one vector of 64 coefficients per block.
    pub fn to_rows(&self) -> (rows: Vec<Vec<i64>>)
        requires
            self.wf(),
        ensures
            rows.deep_view() == self@,
    {
        let count = self.len();
        let mut rows: Vec<Vec<i64>> = Vec::new();
        let mut n: usize = 0;
        while n < count
            invariant
                self.wf(),
                count == self@.len(),
                n <= count,
                rows@.len() == n,
                forall|m: int| 0 <= m < n ==> (#[trigger] rows@[m])@ == self@[m],
            decreases count - n,
        {
            let mut row: Vec<i64> = Vec::new();
            let mut i: usize = 0;
            while i < 64
                invariant
                    self.wf(),
                    n < self@.len(),
                    i <= 64,
                    row@.len() == i,
                    forall|k: int| 0 <= k < i ==> row@[k] == self@[n as int][k],
                decreases 64 - i,
            {
                row.push(self.get(n, i));
                i += 1;
            }
            assert(row@ =~= self@[n as int]);
            rows.push(row);
            n += 1;
        }
        proof {
            lemma_rows_deep_view(rows);
        }
        assert(rows.deep_view() =~= self@);
        rows
    }
}

} // verus!
