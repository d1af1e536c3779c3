//! The integer steps around the block transform.
//!
//! Before the forward transform every sample is moved from `0..=255` to
//! `-128..=127`. Before the inverse transform every quantized coefficient
//! is multiplied by its quantization step; after it every value is clamped
//! to `-128..=127` and moved back to `0..=255`. The transform itself, and
//! the division by the quantization step with rounding, work on
//! floating-point numbers and are no part of this module.

use vstd::prelude::*;
use crate::grid::{all_within, write_block, BlockGrid};
use crate::tables::{lemma_quantization_steps_positive, QUANTIZATION_TABLE};

verus! {

/// Every sample of the block moved down by 128.
pub open spec fn centered(block: Seq<i64>) -> Seq<i64> {
    Seq::new(64, |i: int| (block[i] - 128) as i64)
}

/// Every coefficient of the block multiplied by its quantization step.
pub open spec fn dequantized(block: Seq<i64>) -> Seq<i64> {
    Seq::new(64, |i: int| (block[i] * QUANTIZATION_TABLE[i]) as i64)
}

/// `v` clamped to `-128..=127`, then moved up by 128.
pub open spec fn restored_value(v: i64) -> i64 {
    if v < -128 {
        0
    } else if v > 127 {
        255
    } else {
        (v + 128) as i64
    }
}

/// Every value of the block clamped to `-128..=127` and moved up by 128.
pub open spec fn restored(block: Seq<i64>) -> Seq<i64> {
    Seq::new(64, |i: int| restored_value(block[i]))
}

/// Every block of the list centered.
pub open spec fn centered_blocks(blocks: Seq<Seq<i64>>) -> Seq<Seq<i64>> {
    Seq::new(blocks.len(), |n: int| centered(blocks[n]))
}

/// Every block of the list dequantized.
pub open spec fn dequantized_blocks(blocks: Seq<Seq<i64>>) -> Seq<Seq<i64>> {
    Seq::new(blocks.len(), |n: int| dequantized(blocks[n]))
}

/// Every block of the list restored.
pub open spec fn restored_blocks(blocks: Seq<Seq<i64>>) -> Seq<Seq<i64>> {
    Seq::new(blocks.len(), |n: int| restored(blocks[n]))
}

/// Every coefficient of every block can be multiplied by its quantization
/// step without leaving the range of `i64`.
pub open spec fn products_fit(blocks: Seq<Seq<i64>>) -> bool {
    forall|n: int, i: int|
        0 <= n < blocks.len() && 0 <= i < 64 ==> i64::MIN <= #[trigger] blocks[n][i]
            * QUANTIZATION_TABLE[i] <= i64::MAX
}

/// `a / q` rounded to the nearest integer, a half rounded up, for `a` that
/// is not negative: the whole part of the quotient, and one more when the
/// remainder is at least half of `q`.
pub open spec fn rounded_up_quotient(a: int, q: int) -> int {
    a / q + if 2 * (a % q) >= q {
        1int
    } else {
        0int
    }
}

/// `a / q` rounded to the nearest integer, a half rounded away from zero.
pub open spec fn rounded_quotient(a: int, q: int) -> int {
    if a >= 0 {
        rounded_up_quotient(a, q)
    } else {
        -rounded_up_quotient(-a, q)
    }
}

/// Every coefficient of the block divided by its quantization step and
/// rounded to the nearest integer, a half rounded away from zero.
pub open spec fn quantized(block: Seq<i64>) -> Seq<i64> {
    Seq::new(64, |j: int| rounded_quotient(block[j] as int, QUANTIZATION_TABLE[j] as int) as i64)
}

/// Every block of the list quantized.
pub open spec fn quantized_blocks(blocks: Seq<Seq<i64>>) -> Seq<Seq<i64>> {
    Seq::new(blocks.len(), |n: int| quantized(blocks[n]))
}

/// Coefficients of at most 11 bits can be multiplied by their quantization
/// steps.
pub proof fn lemma_small_products_fit(blocks: Seq<Seq<i64>>)
    requires
        all_within(blocks, -2047, 2047),
    ensures
        products_fit(blocks),
{
    lemma_quantization_steps_positive();
    assert forall|n: int, i: int| 0 <= n < blocks.len() && 0 <= i < 64 implies i64::MIN
        <= #[trigger] blocks[n][i] * QUANTIZATION_TABLE[i] <= i64::MAX by {
        let v = blocks[n][i] as int;
        let q = QUANTIZATION_TABLE[i] as int;
        assert(-2047 <= blocks[n][i] <= 2047);
        assert(-0x10_0000 <= v * q <= 0x10_0000) by (nonlinear_arith)
            requires
                -2047 <= v <= 2047,
                10 <= q <= 121,
        ;
    }
}

/// Tells whether every coefficient of the grid lies within `low..=high`.
pub fn all_in_range(blocks: &BlockGrid, low: i64, high: i64) -> (ok: bool)
    requires
        blocks.wf(),
    ensures
        ok == all_within(blocks@, low as int, high as int),
{
    let count = blocks.len();
    let mut n: usize = 0;
    while n < count
        invariant
            blocks.wf(),
            count == blocks@.len(),
            n <= count,
            forall|m: int, i: int|
                0 <= m < n && 0 <= i < 64 ==> low <= #[trigger] blocks@[m][i] <= high,
        decreases count - n,
    {
        let mut i: usize = 0;
        while i < 64
            invariant
                blocks.wf(),
                n < blocks@.len(),
                i <= 64,
                forall|k: int| 0 <= k < i ==> low <= #[trigger] blocks@[n as int][k] <= high,
            decreases 64 - i,
        {
            let v = blocks.get(n, i);
            if v < low || v > high {
                return false;
            }
            i += 1;
        }
        n += 1;
    }
    true
}

/// Moves every sample of the grid down by 128.
pub fn center_samples(blocks: &mut BlockGrid)
    requires
        old(blocks).wf(),
        all_within(old(blocks)@, i64::MIN + 128, i64::MAX as int),
    ensures
        final(blocks).wf(),
        final(blocks)@.len() == old(blocks)@.len(),
        forall|n: int|
            0 <= n < old(blocks)@.len() ==> #[trigger] final(blocks)@[n] == centered(
                old(blocks)@[n],
            ),
{
    let count = blocks.len();
    let mut n: usize = 0;
    while n < count
        invariant
            blocks.wf(),
            count == blocks@.len(),
            blocks@.len() == old(blocks)@.len(),
            all_within(old(blocks)@, i64::MIN + 128, i64::MAX as int),
            n <= count,
            forall|m: int| 0 <= m < n ==> #[trigger] blocks@[m] == centered(old(blocks)@[m]),
            forall|m: int| n <= m < count ==> #[trigger] blocks@[m] == old(blocks)@[m],
        decreases count - n,
    {
        let mut block: Vec<i64> = Vec::new();
        let mut i: usize = 0;
        while i < 64
            invariant
                blocks.wf(),
                n < blocks@.len(),
                blocks@[n as int] == old(blocks)@[n as int],
                blocks@.len() == old(blocks)@.len(),
                all_within(old(blocks)@, i64::MIN + 128, i64::MAX as int),
                i <= 64,
                block@.len() == i,
                forall|k: int| 0 <= k < i ==> block@[k] == old(blocks)@[n as int][k] - 128,
            decreases 64 - i,
        {
            let v = blocks.get(n, i);
            assert(old(blocks)@[n as int][i as int] >= i64::MIN + 128);
            block.push(v - 128);
            i += 1;
        }
        assert(block@ =~= centered(old(blocks)@[n as int]));
        write_block(blocks, n, &block);
        n += 1;
    }
}

/// Multiplies every coefficient of the grid by its quantization step. No
/// product may leave the range of `i64`.
pub fn dequantize(blocks: &mut BlockGrid)
    requires
        old(blocks).wf(),
        products_fit(old(blocks)@),
    ensures
        final(blocks).wf(),
        final(blocks)@.len() == old(blocks)@.len(),
        forall|n: int|
            0 <= n < old(blocks)@.len() ==> #[trigger] final(blocks)@[n] == dequantized(
                old(blocks)@[n],
            ),
{
    let count = blocks.len();
    let mut n: usize = 0;
    while n < count
        invariant
            blocks.wf(),
            count == blocks@.len(),
            blocks@.len() == old(blocks)@.len(),
            products_fit(old(blocks)@),
            n <= count,
            forall|m: int| 0 <= m < n ==> #[trigger] blocks@[m] == dequantized(old(blocks)@[m]),
            forall|m: int| n <= m < count ==> #[trigger] blocks@[m] == old(blocks)@[m],
        decreases count - n,
    {
        let mut block: Vec<i64> = Vec::new();
        let mut i: usize = 0;
        while i < 64
            invariant
                blocks.wf(),
                n < blocks@.len(),
                blocks@[n as int] == old(blocks)@[n as int],
                blocks@.len() == old(blocks)@.len(),
                products_fit(old(blocks)@),
                i <= 64,
                block@.len() == i,
                forall|k: int|
                    0 <= k < i ==> block@[k] == old(blocks)@[n as int][k] * QUANTIZATION_TABLE[k],
            decreases 64 - i,
        {
            let v = blocks.get(n, i);
            let step = QUANTIZATION_TABLE[i];
            assert(i64::MIN <= old(blocks)@[n as int][i as int] * QUANTIZATION_TABLE[i as int]
                <= i64::MAX);
            block.push(v * step);
            i += 1;
        }
        assert(block@ =~= dequantized(old(blocks)@[n as int]));
        write_block(blocks, n, &block);
        n += 1;
    }
}

/// Clamps every value of the grid to `-128..=127` and moves it up by 128,
/// so that every value ends within `0..=255`.
pub fn restore_samples(blocks: &mut BlockGrid)
    requires
        old(blocks).wf(),
    ensures
        final(blocks).wf(),
        final(blocks)@.len() == old(blocks)@.len(),
        forall|n: int|
            0 <= n < old(blocks)@.len() ==> #[trigger] final(blocks)@[n] == restored(
                old(blocks)@[n],
            ),
        all_within(final(blocks)@, 0, 255),
{
    let count = blocks.len();
    let mut n: usize = 0;
    while n < count
        invariant
            blocks.wf(),
            count == blocks@.len(),
            blocks@.len() == old(blocks)@.len(),
            n <= count,
            forall|m: int| 0 <= m < n ==> #[trigger] blocks@[m] == restored(old(blocks)@[m]),
            forall|m: int| n <= m < count ==> #[trigger] blocks@[m] == old(blocks)@[m],
        decreases count - n,
    {
        let mut block: Vec<i64> = Vec::new();
        let mut i: usize = 0;
        while i < 64
            invariant
                blocks.wf(),
                n < blocks@.len(),
                blocks@[n as int] == old(blocks)@[n as int],
                i <= 64,
                block@.len() == i,
                forall|k: int|
                    0 <= k < i ==> block@[k] == restored_value(old(blocks)@[n as int][k]),
            decreases 64 - i,
        {
            let v = blocks.get(n, i);
            let r: i64 = if v < -128 {
                0
            } else if v > 127 {
                255
            } else {
                v + 128
            };
            block.push(r);
            i += 1;
        }
        assert(block@ =~= restored(old(blocks)@[n as int]));
        write_block(blocks, n, &block);
        n += 1;
    }
    assert(all_within(blocks@, 0, 255)) by {
        assert forall|m: int, i: int| 0 <= m < blocks@.len() && 0 <= i < 64 implies 0
            <= #[trigger] blocks@[m][i] <= 255 by {
            assert(blocks@[m] == restored(old(blocks)@[m]));
        }
    }
}

/// Divides every coefficient of the grid by its quantization step and
/// rounds to the nearest integer, a half away from zero.
pub fn quantize(blocks: &mut BlockGrid)
    requires
        old(blocks).wf(),
    ensures
        final(blocks).wf(),
        final(blocks)@.len() == old(blocks)@.len(),
        forall|n: int|
            0 <= n < old(blocks)@.len() ==> #[trigger] final(blocks)@[n] == quantized(
                old(blocks)@[n],
            ),
{
    let count = blocks.len();
    let mut n: usize = 0;
    while n < count
        invariant
            blocks.wf(),
            count == blocks@.len(),
            blocks@.len() == old(blocks)@.len(),
            n <= count,
            forall|m: int| 0 <= m < n ==> #[trigger] blocks@[m] == quantized(old(blocks)@[m]),
            forall|m: int| n <= m < count ==> #[trigger] blocks@[m] == old(blocks)@[m],
        decreases count - n,
    {
        let mut block: Vec<i64> = Vec::new();
        let mut j: usize = 0;
        while j < 64
            invariant
                blocks.wf(),
                n < blocks@.len(),
                blocks@[n as int] == old(blocks)@[n as int],
                j <= 64,
                block@.len() == j,
                forall|k: int|
                    0 <= k < j ==> block@[k] == rounded_quotient(
                        old(blocks)@[n as int][k] as int,
                        QUANTIZATION_TABLE[k] as int,
                    ),
            decreases 64 - j,
        {
            proof {
                lemma_quantization_steps_positive();
            }
            let v = blocks.get(n, j);
            let step = QUANTIZATION_TABLE[j];
            block.push(round_quotient(v, step));
            j += 1;
        }
        assert(block@ =~= quantized(old(blocks)@[n as int]));
        write_block(blocks, n, &block);
        n += 1;
    }
}

/// `a / q` rounded to the nearest integer, a half rounded away from zero.
pub fn round_quotient(a: i64, q: i64) -> (r: i64)
    requires
        2 <= q,
    ensures
        r == rounded_quotient(a as int, q as int),
{
    let size: i128 = if a >= 0 {
        a as i128
    } else {
        -(a as i128)
    };
    let step = q as i128;
    let whole = size / step;
    let rest = size % step;
    assert(0 <= 2 * whole <= size) by (nonlinear_arith)
        requires
            whole == size / step,
            step >= 2,
            size >= 0,
    ;
    let nearest = if 2 * rest >= step {
        whole + 1
    } else {
        whole
    };
    if a >= 0 {
        nearest as i64
    } else {
        (-nearest) as i64
    }
}

} // verus!
