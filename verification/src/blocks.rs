//! Planes to grids of 8x8 blocks, and back.
//!
//! A plane of `height x width` samples is cut into `(height / 8) * (width
//! / 8)` blocks, row of blocks by row of blocks. Block `y * (width / 8) +
//! x` holds the samples of rows `8y .. 8y + 8` and columns `8x .. 8x + 8`,
//! row by row. Rows and columns beyond the last whole block belong to no
//! block.

use vstd::prelude::*;
use vstd::arithmetic::div_mod::{lemma_fundamental_div_mod, lemma_fundamental_div_mod_converse};
use crate::grid::{all_within, write_block, BlockGrid};
use crate::image::{axis_len, is_plane_shape, plane_fits, Plane};

verus! {

/// The number of blocks that a plane of `height x width` samples is cut
/// into.
pub open spec fn block_count(height: nat, width: nat) -> nat {
    (height / 8) * (width / 8)
}

/// The blocks that a plane of the given width is cut into, each sample
/// widened to a signed integer.
pub open spec fn blocks_of_plane(samples: Seq<Seq<u8>>, width: nat) -> Seq<Seq<i64>> {
    Seq::new(
        block_count(samples.len(), width),
        |n: int|
            Seq::new(
                64,
                |k: int|
                    samples[8 * (n / (width as int / 8)) + k / 8][8 * (n % (width as int / 8)) + k
                        % 8] as i64,
            ),
    )
}

/// The plane of `height x width` samples that the blocks are cut from,
/// each coefficient narrowed to 8 bits. Samples beyond the last whole block
/// are 0.
pub open spec fn plane_of_blocks(height: nat, width: nat, blocks: Seq<Seq<i64>>) -> Seq<Seq<u8>> {
    Seq::new(
        height,
        |r: int|
            Seq::new(
                width,
                |c: int|
                    if r < 8 * (height / 8) && c < 8 * (width / 8) {
                        blocks[(r / 8) * (width as int / 8) + c / 8][8 * (r % 8) + c % 8] as u8
                    } else {
                        0u8
                    },
            ),
    )
}

/// Block `y * blocks_x + x` of a plane holds the sample of row `8y + i`,
/// column `8x + j` at position `8i + j`.
pub proof fn lemma_block_holds_square(
    samples: Seq<Seq<u8>>,
    width: nat,
    y: int,
    x: int,
    i: int,
    j: int,
)
    requires
        0 <= y < samples.len() / 8,
        0 <= x < width / 8,
        0 <= i < 8,
        0 <= j < 8,
    ensures
        0 <= y * (width as int / 8) + x < block_count(samples.len(), width),
        blocks_of_plane(samples, width)[y * (width as int / 8) + x][8 * i + j] == samples[8 * y
            + i][8 * x + j] as i64,
{
    let bx = width as int / 8;
    let by = samples.len() as int / 8;
    lemma_block_index(by, bx, y, x);
}

/// Rows and columns of blocks number the blocks without gaps: block `y *
/// blocks_x + x` lies within the grid, in row `y` and column `x`.
pub proof fn lemma_block_index(by: int, bx: int, y: int, x: int)
    requires
        0 <= y < by,
        0 <= x < bx,
    ensures
        0 <= y * bx <= y * bx + x < by * bx,
        (y * bx + x) / bx == y,
        (y * bx + x) % bx == x,
{
    assert(y * bx + x < by * bx) by (nonlinear_arith)
        requires
            0 <= y < by,
            0 <= x < bx,
    ;
    assert(0 <= y * bx) by (nonlinear_arith)
        requires
            0 <= y,
            0 < bx,
    ;
    assert(y * bx == bx * y) by (nonlinear_arith);
    lemma_fundamental_div_mod_converse(y * bx + x, bx, y, x);
}

/// Cuts a plane into blocks.
pub fn reshape_into_blocks(plane: &Plane) -> (blocks: BlockGrid)
    requires
        plane.wf(),
        block_count(plane.spec_height(), plane.spec_width()) * 512 <= isize::MAX,
    ensures
        blocks.wf(),
        blocks@ == blocks_of_plane(plane@, plane.spec_width()),
        all_within(blocks@, 0, 255),
{
    let height = plane.height();
    let width = plane.width();
    let blocks_y = height / 8;
    let blocks_x = width / 8;
    let ghost target = blocks_of_plane(plane@, plane.spec_width());
    assert(blocks_y * blocks_x == block_count(height as nat, width as nat));
    let mut blocks = BlockGrid::new(blocks_y * blocks_x);
    let mut n: usize = 0;
    let mut y: usize = 0;
    while y < blocks_y
        invariant
            plane.wf(),
            height == plane.spec_height(),
            width == plane.spec_width(),
            blocks_y == height / 8,
            blocks_x == width / 8,
            target == blocks_of_plane(plane@, plane.spec_width()),
            blocks.wf(),
            blocks@.len() == blocks_y * blocks_x,
            blocks_y * blocks_x <= usize::MAX,
            y <= blocks_y,
            n == y * blocks_x,
            forall|m: int| 0 <= m < n ==> #[trigger] blocks@[m] == target[m],
        decreases blocks_y - y,
    {
        let mut x: usize = 0;
        while x < blocks_x
            invariant
                plane.wf(),
                height == plane.spec_height(),
                width == plane.spec_width(),
                blocks_y == height / 8,
                blocks_x == width / 8,
                target == blocks_of_plane(plane@, plane.spec_width()),
                blocks.wf(),
                blocks@.len() == blocks_y * blocks_x,
                blocks_y * blocks_x <= usize::MAX,
                y < blocks_y,
                x <= blocks_x,
                n == y * blocks_x + x,
                forall|m: int| 0 <= m < n ==> #[trigger] blocks@[m] == target[m],
            decreases blocks_x - x,
        {
            proof {
                lemma_block_index(blocks_y as int, blocks_x as int, y as int, x as int);
            }
            assert(n < blocks_y * blocks_x);
            let mut block: Vec<i64> = Vec::new();
            let mut k: usize = 0;
            while k < 64
                invariant
                    plane.wf(),
                    height == plane.spec_height(),
                    width == plane.spec_width(),
                    blocks_y == height / 8,
                    blocks_x == width / 8,
                    y < blocks_y,
                    x < blocks_x,
                    k <= 64,
                    block@.len() == k,
                    forall|q: int|
                        0 <= q < k ==> block@[q] == plane@[8 * y + q / 8][8 * x + q % 8] as i64,
                decreases 64 - k,
            {
                block.push(plane.get(y * 8 + k / 8, x * 8 + k % 8) as i64);
                k += 1;
            }
            assert(block@ =~= target[n as int]);
            write_block(&mut blocks, n, &block);
            n += 1;
            x += 1;
        }
        y += 1;
        assert(n == y * blocks_x) by (nonlinear_arith)
            requires
                n == (y - 1) * blocks_x + blocks_x,
        ;
    }
    assert(blocks@ =~= target);
    blocks
}

/// Puts blocks back together as a plane of `height x width` samples. The
/// coefficients are narrowed to 8 bits as they are, without clamping;
/// blocks beyond the `(height / 8) * (width / 8)` that the plane holds are
/// not read.
pub fn reshape_into_plane(height: usize, width: usize, blocks: &BlockGrid) -> (plane: Plane)
    requires
        blocks.wf(),
        plane_fits(height as int, width as int),
        blocks@.len() >= block_count(height as nat, width as nat),
    ensures
        plane.wf(),
        plane.spec_height() == height,
        plane.spec_width() == width,
        plane@ == plane_of_blocks(height as nat, width as nat, blocks@),
{
    let mut plane = Plane::new(height, width);
    let blocks_y = height / 8;
    let blocks_x = width / 8;
    let ghost target = plane_of_blocks(height as nat, width as nat, blocks@);
    assert(blocks_y * blocks_x <= axis_len(height as int) * axis_len(width as int))
        by (nonlinear_arith)
        requires
            0 <= blocks_y <= height <= axis_len(height as int),
            0 <= blocks_x <= width <= axis_len(width as int),
    ;
    let mut r: usize = 0;
    while r < blocks_y * 8
        invariant
            blocks.wf(),
            blocks@.len() >= block_count(height as nat, width as nat),
            blocks_y == height / 8,
            blocks_x == width / 8,
            blocks_y * blocks_x <= usize::MAX,
            target == plane_of_blocks(height as nat, width as nat, blocks@),
            plane.wf(),
            plane.spec_height() == height,
            plane.spec_width() == width,
            r <= blocks_y * 8,
            forall|i: int| 0 <= i < r ==> #[trigger] plane@[i] == target[i],
            forall|i: int, j: int|
                r <= i < height && 0 <= j < width ==> #[trigger] plane@[i][j] == 0,
        decreases blocks_y * 8 - r,
    {
        let mut c: usize = 0;
        while c < blocks_x * 8
            invariant
                blocks.wf(),
                blocks@.len() >= block_count(height as nat, width as nat),
                blocks_y == height / 8,
                blocks_x == width / 8,
                blocks_y * blocks_x <= usize::MAX,
                target == plane_of_blocks(height as nat, width as nat, blocks@),
                plane.wf(),
                plane.spec_height() == height,
                plane.spec_width() == width,
                r < blocks_y * 8,
                c <= blocks_x * 8,
                forall|i: int| 0 <= i < r ==> #[trigger] plane@[i] == target[i],
                forall|j: int| 0 <= j < c ==> #[trigger] plane@[r as int][j] == target[r as int][j],
                forall|j: int| c <= j < width ==> #[trigger] plane@[r as int][j] == 0,
                forall|i: int, j: int|
                    r < i < height && 0 <= j < width ==> #[trigger] plane@[i][j] == 0,
            decreases blocks_x * 8 - c,
        {
            proof {
                lemma_block_index(blocks_y as int, blocks_x as int, r as int / 8, c as int / 8);
            }
            assert((r / 8) * blocks_x + c / 8 < blocks_y * blocks_x);
            let n = (r / 8) * blocks_x + c / 8;
            let v = blocks.get(n, (r % 8) * 8 + c % 8);
            plane.set(r, c, #[verifier::truncate] (v as u8));
            c += 1;
        }
        assert(plane@[r as int] =~= target[r as int]);
        r += 1;
    }
    assert(plane@ =~= target) by {
        assert forall|i: int| 0 <= i < height implies #[trigger] plane@[i] =~= target[i] by {}
    }
    plane
}

/// Cutting a plane whose sides are multiples of 8 into blocks and putting
/// the blocks together again gives the plane back.
pub proof fn lemma_plane_of_blocks_of_plane(samples: Seq<Seq<u8>>, width: nat)
    requires
        is_plane_shape(samples, width),
        samples.len() % 8 == 0,
        width % 8 == 0,
    ensures
        plane_of_blocks(samples.len(), width, blocks_of_plane(samples, width)) == samples,
{
    let height = samples.len();
    let bx = width as int / 8;
    let by = height as int / 8;
    let blocks = blocks_of_plane(samples, width);
    let back = plane_of_blocks(height, width, blocks);
    assert forall|r: int| 0 <= r < height implies #[trigger] back[r] == samples[r] by {
        assert forall|c: int| 0 <= c < width implies back[r][c] == samples[r][c] by {
            lemma_block_index(by, bx, r / 8, c / 8);
        }
        assert(back[r] =~= samples[r]);
    }
    assert(back =~= samples);
}

/// Two planes that agree on every sample that lies in a whole block are cut
/// into the same blocks: rows and columns beyond the last whole block are
/// ignored.
pub proof fn lemma_partial_blocks_ignored(
    a: Seq<Seq<u8>>,
    width_a: nat,
    b: Seq<Seq<u8>>,
    width_b: nat,
)
    requires
        a.len() / 8 == b.len() / 8,
        width_a / 8 == width_b / 8,
        forall|r: int, c: int|
            0 <= r < 8 * (a.len() / 8) && 0 <= c < 8 * (width_a / 8) ==> a[r][c] == b[r][c],
    ensures
        blocks_of_plane(a, width_a) == blocks_of_plane(b, width_b),
{
    let bx = width_a as int / 8;
    let by = a.len() as int / 8;
    let ba = blocks_of_plane(a, width_a);
    let bb = blocks_of_plane(b, width_b);
    assert forall|n: int| 0 <= n < ba.len() implies #[trigger] ba[n] == bb[n] by {
        assert(0 <= n < by * bx);
        assert(bx > 0) by (nonlinear_arith)
            requires
                0 <= n < by * bx,
                bx >= 0,
        ;
        lemma_fundamental_div_mod(n, bx);
        assert(0 <= n / bx < by) by (nonlinear_arith)
            requires
                0 <= n < by * bx,
                bx > 0,
                n == bx * (n / bx) + n % bx,
                0 <= n % bx < bx,
        ;
        assert(ba[n] =~= bb[n]);
    }
    assert(ba =~= bb);
}

/// Coefficients within `0..=255` are narrowed to samples without loss:
/// every sample that lies in a whole block is the coefficient it was made
/// from.
pub proof fn lemma_samples_are_exact(height: nat, width: nat, blocks: Seq<Seq<i64>>, r: int, c: int)
    requires
        0 <= r < 8 * (height / 8),
        0 <= c < 8 * (width / 8),
        blocks.len() >= block_count(height, width),
        forall|n: int, k: int|
            0 <= n < blocks.len() && 0 <= k < 64 ==> 0 <= #[trigger] blocks[n][k] <= 255,
    ensures
        plane_of_blocks(height, width, blocks)[r][c] == blocks[(r / 8) * (width as int / 8) + c
            / 8][8 * (r % 8) + c % 8],
{
    lemma_block_index(height as int / 8, width as int / 8, r / 8, c / 8);
    let n = (r / 8) * (width as int / 8) + c / 8;
    let k = 8 * (r % 8) + c % 8;
    assert(0 <= blocks[n][k] <= 255);
}

} // verus!
