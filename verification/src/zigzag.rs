//! Raster to zigzag reordering of block coefficients, and back.
//!
//! The entropy coder sees the coefficients of a block in zigzag order, so
//! the same permutation has to be applied when encoding and undone when
//! decoding.

use vstd::prelude::*;
use crate::grid::{write_block, zeros64, BlockGrid};
use crate::tables::{lemma_scan_is_permutation, SCAN_ORDER_TABLE, UNSCAN_ORDER_TABLE};

verus! {

/// The block `b` read in zigzag order: position `i` of the result holds the
/// coefficient at raster position `SCAN_ORDER_TABLE[i]`.
pub open spec fn to_zigzag(b: Seq<i64>) -> Seq<i64> {
    Seq::new(64, |i: int| b[SCAN_ORDER_TABLE[i] as int])
}

/// The block whose zigzag reading is `z`: raster position `j` of the result
/// holds the coefficient at zigzag position `UNSCAN_ORDER_TABLE[j]`.
pub open spec fn from_zigzag(z: Seq<i64>) -> Seq<i64> {
    Seq::new(64, |j: int| z[UNSCAN_ORDER_TABLE[j] as int])
}

/// Undoing the zigzag reordering gives back the block, exactly.
pub proof fn lemma_from_zigzag_to_zigzag(b: Seq<i64>)
    requires
        b.len() == 64,
    ensures
        from_zigzag(to_zigzag(b)) == b,
{
    lemma_scan_is_permutation();
    assert(from_zigzag(to_zigzag(b)) =~= b);
}

/// Reordering a block that was put back in raster order gives the zigzag
/// block again, exactly.
pub proof fn lemma_to_zigzag_from_zigzag(z: Seq<i64>)
    requires
        z.len() == 64,
    ensures
        to_zigzag(from_zigzag(z)) == z,
{
    lemma_scan_is_permutation();
    assert(to_zigzag(from_zigzag(z)) =~= z);
}

/// `from_zigzag(z)` is the one block that holds `z[i]` at raster position
/// `SCAN_ORDER_TABLE[i]` for every `i`.
pub proof fn lemma_from_zigzag_scatters(z: Seq<i64>, r: Seq<i64>)
    requires
        z.len() == 64,
        r.len() == 64,
        forall|i: int| 0 <= i < 64 ==> r[#[trigger] SCAN_ORDER_TABLE[i] as int] == z[i],
    ensures
        r == from_zigzag(z),
{
    lemma_scan_is_permutation();
    assert forall|j: int| 0 <= j < 64 implies r[j] == from_zigzag(z)[j] by {
        let i = UNSCAN_ORDER_TABLE[j] as int;
        assert(SCAN_ORDER_TABLE[i] == j);
    }
    assert(r =~= from_zigzag(z));
}

/// Puts the coefficients of every block of the grid in zigzag order.
pub fn zigzag_order(input: &mut BlockGrid)
    requires
        old(input).wf(),
    ensures
        final(input).wf(),
        final(input)@.len() == old(input)@.len(),
        forall|n: int|
            0 <= n < old(input)@.len() ==> #[trigger] final(input)@[n] == to_zigzag(old(input)@[n]),
{
    let num_blocks = input.len();
    let mut n: usize = 0;
    while n < num_blocks
        invariant
            input.wf(),
            n <= num_blocks,
            num_blocks == input@.len(),
            input@.len() == old(input)@.len(),
            forall|m: int| 0 <= m < n ==> #[trigger] input@[m] == to_zigzag(old(input)@[m]),
            forall|m: int| n <= m < num_blocks ==> #[trigger] input@[m] == old(input)@[m],
        decreases num_blocks - n,
    {
        let ghost before = input@;
        let mut temp: Vec<i64> = Vec::new();
        let mut i: usize = 0;
        while i < 64
            invariant
                input.wf(),
                input@ == before,
                n < input@.len(),
                i <= 64,
                temp@.len() == i,
                forall|k: int| 0 <= k < i ==> temp@[k] == before[n as int][SCAN_ORDER_TABLE[k] as int],
            decreases 64 - i,
        {
            proof {
                lemma_scan_is_permutation();
            }
            let from = SCAN_ORDER_TABLE[i];
            temp.push(input.get(n, from));
            i += 1;
        }
        assert(temp@ =~= to_zigzag(before[n as int]));
        write_block(input, n, &temp);
        n += 1;
    }
}

/// Puts the coefficients of every block of the grid, given in zigzag order,
/// back in raster order.
pub fn unzigzag_order(input: &mut BlockGrid)
    requires
        old(input).wf(),
    ensures
        final(input).wf(),
        final(input)@.len() == old(input)@.len(),
        forall|n: int|
            0 <= n < old(input)@.len() ==> #[trigger] final(input)@[n] == from_zigzag(
                old(input)@[n],
            ),
{
    let num_blocks = input.len();
    let mut n: usize = 0;
    while n < num_blocks
        invariant
            input.wf(),
            n <= num_blocks,
            num_blocks == input@.len(),
            input@.len() == old(input)@.len(),
            forall|m: int| 0 <= m < n ==> #[trigger] input@[m] == from_zigzag(old(input)@[m]),
            forall|m: int| n <= m < num_blocks ==> #[trigger] input@[m] == old(input)@[m],
        decreases num_blocks - n,
    {
        let ghost before = input@;
        let mut temp: Vec<i64> = zeros64();
        let mut i: usize = 0;
        while i < 64
            invariant
                input.wf(),
                input@ == before,
                n < input@.len(),
                i <= 64,
                temp@.len() == 64,
                forall|k: int|
                    0 <= k < i ==> temp@[#[trigger] SCAN_ORDER_TABLE[k] as int]
                        == before[n as int][k],
            decreases 64 - i,
        {
            proof {
                lemma_scan_is_permutation();
            }
            let to = SCAN_ORDER_TABLE[i];
            let ghost prev = temp@;
            temp.set(to, input.get(n, i));
            assert forall|k: int| 0 <= k < i + 1 implies temp@[#[trigger] SCAN_ORDER_TABLE[k] as int]
                == before[n as int][k] by {
                if k < i {
                    assert(UNSCAN_ORDER_TABLE[SCAN_ORDER_TABLE[k] as int] == k);
                    assert(UNSCAN_ORDER_TABLE[SCAN_ORDER_TABLE[i as int] as int] == i);
                    assert(SCAN_ORDER_TABLE[k] != to);
                    assert(prev[SCAN_ORDER_TABLE[k] as int] == before[n as int][k]);
                }
            }
            i += 1;
        }
        proof {
            lemma_from_zigzag_scatters(before[n as int], temp@);
        }
        write_block(input, n, &temp);
        n += 1;
    }
}

} // verus!
