//! Differential coding of the DC values of a grid.
//!
//! The DC value of every block but the first is replaced by its difference
//! from the DC value of the block before it; decoding adds the differences
//! up again. All other coefficients stay as they are. The step loses
//! nothing.

use vstd::prelude::*;
use crate::grid::BlockGrid;

verus! {

/// The DC value of block `i` as it is stored by differential coding: the
/// value itself for the first block, the difference from the block before
/// for every other block.
pub open spec fn delta_of(blocks: Seq<Seq<i64>>, i: int) -> int {
    if i <= 0 {
        blocks[0][0] as int
    } else {
        blocks[i][0] - blocks[i - 1][0]
    }
}

/// The sum of the DC values of the blocks `0..=i`.
pub open spec fn running_sum(blocks: Seq<Seq<i64>>, i: int) -> int
    decreases i,
{
    if i <= 0 {
        blocks[0][0] as int
    } else {
        running_sum(blocks, i - 1) + blocks[i][0]
    }
}

/// Replaces the DC value of every block but the first by its difference
/// from the DC value of the block before it.
pub fn delta_encode(input: &mut BlockGrid)
    requires
        old(input).wf(),
        old(input)@.len() >= 1,
        forall|i: int|
            1 <= i < old(input)@.len() ==> i64::MIN <= #[trigger] delta_of(old(input)@, i)
                <= i64::MAX,
    ensures
        final(input).wf(),
        final(input)@.len() == old(input)@.len(),
        forall|i: int|
            0 <= i < old(input)@.len() ==> #[trigger] final(input)@[i] == old(input)@[i].update(
                0,
                delta_of(old(input)@, i) as i64,
            ),
{
    let count = input.len();
    let mut prev = input.get(0, 0);
    assert(input@[0] =~= old(input)@[0].update(0, delta_of(old(input)@, 0) as i64));
    let mut i: usize = 1;
    while i < count
        invariant
            input.wf(),
            count == input@.len(),
            input@.len() == old(input)@.len(),
            old(input).wf(),
            1 <= i <= count,
            prev == old(input)@[i - 1][0],
            forall|k: int|
                1 <= k < old(input)@.len() ==> i64::MIN <= #[trigger] delta_of(old(input)@, k)
                    <= i64::MAX,
            forall|k: int|
                0 <= k < i ==> #[trigger] input@[k] == old(input)@[k].update(
                    0,
                    delta_of(old(input)@, k) as i64,
                ),
            forall|k: int| i <= k < count ==> #[trigger] input@[k] == old(input)@[k],
        decreases count - i,
    {
        let curr = input.get(i, 0);
        assert(i64::MIN <= delta_of(old(input)@, i as int) <= i64::MAX);
        input.set(i, 0, curr - prev);
        prev = curr;
        i += 1;
    }
}

/// Replaces the DC value of every block by the sum of the DC values up to
/// and including it, which undoes `delta_encode`.
pub fn delta_decode(input: &mut BlockGrid)
    requires
        old(input).wf(),
        forall|i: int|
            0 <= i < old(input)@.len() ==> i64::MIN <= #[trigger] running_sum(old(input)@, i)
                <= i64::MAX,
    ensures
        final(input).wf(),
        final(input)@.len() == old(input)@.len(),
        forall|i: int|
            0 <= i < old(input)@.len() ==> #[trigger] final(input)@[i] == old(input)@[i].update(
                0,
                running_sum(old(input)@, i) as i64,
            ),
{
    let count = input.len();
    if count == 0 {
        return ;
    }
    assert(input@[0] =~= old(input)@[0].update(0, running_sum(old(input)@, 0) as i64));
    let mut i: usize = 1;
    while i < count
        invariant
            input.wf(),
            count == input@.len(),
            input@.len() == old(input)@.len(),
            old(input).wf(),
            1 <= i <= count,
            forall|k: int|
                0 <= k < old(input)@.len() ==> i64::MIN <= #[trigger] running_sum(old(input)@, k)
                    <= i64::MAX,
            forall|k: int|
                0 <= k < i ==> #[trigger] input@[k] == old(input)@[k].update(
                    0,
                    running_sum(old(input)@, k) as i64,
                ),
            forall|k: int| i <= k < count ==> #[trigger] input@[k] == old(input)@[k],
        decreases count - i,
    {
        let before = input.get(i - 1, 0);
        let here = input.get(i, 0);
        assert(i64::MIN <= running_sum(old(input)@, i as int) <= i64::MAX);
        assert(i64::MIN <= running_sum(old(input)@, i - 1) <= i64::MAX);
        input.set(i, 0, here + before);
        i += 1;
    }
}

/// Adding up the differences gives back the DC values: decoding undoes
/// encoding.
pub proof fn lemma_running_sum_of_deltas(blocks: Seq<Seq<i64>>, coded: Seq<Seq<i64>>, i: int)
    requires
        0 <= i < blocks.len(),
        coded.len() == blocks.len(),
        forall|k: int| 0 <= k < blocks.len() ==> (#[trigger] coded[k])[0] == delta_of(blocks, k),
    ensures
        running_sum(coded, i) == blocks[i][0],
    decreases i,
{
    assert(coded[0][0] == delta_of(blocks, 0));
    if i > 0 {
        lemma_running_sum_of_deltas(blocks, coded, i - 1);
        assert(coded[i][0] == delta_of(blocks, i));
    }
}

} // verus!
