//! What is written by the entropy coder is read back exactly.

use vstd::prelude::*;
use vstd::arithmetic::power2::lemma2_to64;
use crate::category::{lemma_value_bits_round_trip, size_category, value_bits};
use crate::codes::ac_code;
use crate::entropy::{
    ac_bits, are_codable_blocks, block_bits, blocks_bits, dc_bits, decode_ac, decode_block, decode_blocks,
    decode_coefficient, is_codable_block, lemma_size_category_at_most, zrl_bits,
};
use crate::error::CodecError;
use crate::grid::zero_block;
use crate::huffman::{lemma_decode_ac_symbol_of_code, lemma_decode_dc_size_of_code};

verus! {

/// Reading the value bits of a coefficient of at most 16 bits, with
/// anything after them, gives the coefficient and leaves what came after.
pub proof fn lemma_decode_coefficient_of_value_bits(v: i64, rest: Seq<bool>)
    requires
        -65536 < v < 65536,
    ensures
        decode_coefficient(value_bits(v as int) + rest, size_category(v as int) as int) == Ok::<
            (i64, Seq<bool>),
            CodecError,
        >((v, rest)),
{
    lemma_value_bits_round_trip(v as int, rest);
    if size_category(v as int) == 0 {
        crate::category::lemma_value_code_round_trip(v as int);
        assert(value_bits(v as int) + rest =~= rest);
    }
}

/// Decoding skips sixteen positions for every `ZRL` symbol, as long as the
/// skipped positions hold zeros and lie within the block.
pub proof fn lemma_decode_ac_skips_zrl(count: int, tail: Seq<bool>, pos: int, block: Seq<i64>)
    requires
        0 <= count,
        1 <= pos,
        pos + 16 * count <= 64,
        block.len() == 64,
        forall|k: int| pos <= k < 64 ==> block[k] == 0,
    ensures
        decode_ac(zrl_bits(count) + tail, pos, block) == decode_ac(tail, pos + 16 * count, block),
    decreases count,
{
    if count == 0 {
        assert(zrl_bits(0) + tail =~= tail);
    } else {
        let after = zrl_bits(count - 1) + tail;
        assert(zrl_bits(count) + tail =~= ac_code(15, 0) + after);
        lemma_decode_ac_symbol_of_code(15, 0, after);
        assert(block.update(pos + 15, 0i64) =~= block);
        lemma_decode_ac_skips_zrl(count - 1, tail, pos + 16, block);
    }
}

/// Decoding one AC symbol with its value bits stores the value after the
/// symbol's zero run and goes on behind it.
pub proof fn lemma_decode_ac_takes_symbol(
    run: int,
    v: i64,
    tail: Seq<bool>,
    pos: int,
    block: Seq<i64>,
)
    requires
        0 <= run <= 15,
        v != 0,
        -1023 <= v <= 1023,
        1 <= pos,
        pos + run < 64,
    ensures
        decode_ac(
            ac_code(run, size_category(v as int) as int) + (value_bits(v as int) + tail),
            pos,
            block,
        ) == decode_ac(tail, pos + run + 1, block.update(pos + run, v)),
{
    let size = size_category(v as int) as int;
    let coded = value_bits(v as int) + tail;
    lemma2_to64();
    lemma_size_category_at_most(v as int, 10);
    crate::category::lemma_value_code_round_trip(v as int);
    lemma_decode_ac_symbol_of_code(run, size, coded);
    lemma_decode_coefficient_of_value_bits(v, tail);
}

/// The AC bits from a nonzero coefficient on are the `ZRL` symbols for the
/// zeros before it, its own symbol and value bits, and the bits of what
/// follows.
pub proof fn lemma_ac_bits_at_nonzero(block: Seq<i64>, i: int, run: int, rest: Seq<bool>)
    requires
        0 <= i < 64,
        block[i] != 0,
    ensures
        ac_bits(block, i, run) + rest == zrl_bits(run / 16) + (ac_code(
            run % 16,
            size_category(block[i] as int) as int,
        ) + (value_bits(block[i] as int) + (ac_bits(block, i + 1, 0) + rest))),
{
    let a = zrl_bits(run / 16);
    let b = ac_code(run % 16, size_category(block[i] as int) as int);
    let c = value_bits(block[i] as int);
    let d = ac_bits(block, i + 1, 0);
    assert(ac_bits(block, i, run) == a + b + c + d);
    assert((a + b + c + d) + rest =~= a + (b + (c + (d + rest))));
}

/// Decoding the AC bits of a block from its end gives the block: a last
/// `EOB` where zeros stand unwritten, and nothing otherwise.
pub proof fn lemma_decode_ac_at_end(block: Seq<i64>, run: int, partial: Seq<i64>, rest: Seq<bool>)
    requires
        0 <= run < 64,
        partial == block,
    ensures
        decode_ac(ac_bits(block, 64, run) + rest, 64 - run, partial) == Ok::<
            (Seq<i64>, Seq<bool>),
            CodecError,
        >((block, rest)),
{
    if run > 0 {
        lemma_decode_ac_symbol_of_code(0, 0, rest);
    } else {
        assert(ac_bits(block, 64, run) + rest =~= rest);
    }
}

/// Decoding from a nonzero coefficient on stores that coefficient and goes
/// on with the next position, no zeros unwritten.
pub proof fn lemma_decode_ac_at_nonzero(
    block: Seq<i64>,
    i: int,
    run: int,
    partial: Seq<i64>,
    rest: Seq<bool>,
)
    requires
        1 <= i < 64,
        0 <= run < i,
        block[i] != 0,
        -1023 <= block[i] <= 1023,
        partial.len() == 64,
        forall|k: int| i - run <= k < 64 ==> partial[k] == 0,
    ensures
        decode_ac(ac_bits(block, i, run) + rest, i - run, partial) == decode_ac(
            ac_bits(block, i + 1, 0) + rest,
            i + 1,
            partial.update(i, block[i]),
        ),
{
    let pos = i - run;
    let v = block[i];
    let zrls = run / 16;
    let short = run % 16;
    let tail = ac_bits(block, i + 1, 0) + rest;
    let symbol = ac_code(short, size_category(v as int) as int) + (value_bits(v as int) + tail);
    let at = pos + 16 * zrls;
    assert(at + short == i);
    lemma_ac_bits_at_nonzero(block, i, run, rest);
    lemma_decode_ac_skips_zrl(zrls, symbol, pos, partial);
    lemma_decode_ac_takes_symbol(short, v, tail, at, partial);
}

/// The decoder keeps step with the encoder: the encoder stands before
/// position `i` with `run` zeros unwritten, and the decoder, at position
/// `i - run`, has decoded everything before that and holds zeros from
/// there on.
#[verifier::opaque]
pub open spec fn in_step(block: Seq<i64>, i: int, run: int, partial: Seq<i64>) -> bool {
    &&& block.len() == 64
    &&& partial.len() == 64
    &&& 1 <= i <= 64
    &&& 0 <= run < i
    &&& forall|k: int| 0 <= k < i - run ==> partial[k] == block[k]
    &&& forall|k: int| i - run <= k < 64 ==> partial[k] == 0
    &&& forall|k: int| i - run <= k < i ==> block[k] == 0
}

/// Before the first AC coefficient the decoder, which holds the DC value
/// and zeros, is in step.
pub proof fn lemma_in_step_at_start(block: Seq<i64>)
    requires
        block.len() == 64,
    ensures
        in_step(block, 1, 0, zero_block().update(0, block[0])),
{
    reveal(in_step);
}

/// What being in step means for the next coefficient: a zero lengthens the
/// run; a value is stored by the decoder after its run of zeros; at the end
/// the decoder holds the block.
pub proof fn lemma_in_step_goes_on(block: Seq<i64>, i: int, run: int, partial: Seq<i64>)
    requires
        in_step(block, i, run, partial),
    ensures
        partial.len() == 64,
        1 <= i <= 64,
        0 <= run < i,
        i == 64 ==> partial == block,
        i < 64 && block[i] == 0 ==> in_step(block, i + 1, run + 1, partial),
        i < 64 && block[i] != 0 ==> in_step(block, i + 1, 0, partial.update(i, block[i])),
        forall|k: int| i - run <= k < 64 ==> partial[k] == 0,
{
    reveal(in_step);
    if i == 64 {
        assert(partial =~= block);
    }
}

/// Decoding the AC bits of a block from any point of the encoder's walk
/// gives the block, as long as the decoder is in step with the encoder at
/// that point.
pub proof fn lemma_decode_ac_of_ac_bits(
    block: Seq<i64>,
    i: int,
    run: int,
    partial: Seq<i64>,
    rest: Seq<bool>,
)
    requires
        is_codable_block(block),
        in_step(block, i, run, partial),
    ensures
        decode_ac(ac_bits(block, i, run) + rest, i - run, partial) == Ok::<
            (Seq<i64>, Seq<bool>),
            CodecError,
        >((block, rest)),
    decreases 64 - i,
{
    lemma_in_step_goes_on(block, i, run, partial);
    if i >= 64 {
        lemma_decode_ac_at_end(block, run, partial, rest);
    } else if block[i] == 0 {
        lemma_decode_ac_of_ac_bits(block, i + 1, run + 1, partial, rest);
    } else {
        lemma_decode_ac_at_nonzero(block, i, run, partial, rest);
        lemma_decode_ac_of_ac_bits(block, i + 1, 0, partial.update(i, block[i]), rest);
    }
}

/// Decoding the bits of a block, with anything after them, gives the block
/// and leaves what came after.
pub proof fn lemma_decode_block_of_block_bits(block: Seq<i64>, rest: Seq<bool>)
    requires
        is_codable_block(block),
    ensures
        decode_block(block_bits(block) + rest) == Ok::<(Seq<i64>, Seq<bool>), CodecError>(
            (block, rest),
        ),
{
    let v = block[0];
    let size = size_category(v as int) as int;
    let tail = ac_bits(block, 1, 0) + rest;
    let coded = value_bits(v as int) + tail;
    assert(block_bits(block) + rest =~= crate::codes::dc_code(size) + coded);
    lemma2_to64();
    lemma_size_category_at_most(v as int, 11);
    lemma_decode_dc_size_of_code(size, coded);
    lemma_decode_coefficient_of_value_bits(v, tail);
    lemma_in_step_at_start(block);
    lemma_decode_ac_of_ac_bits(block, 1, 0, zero_block().update(0, v), rest);
}

/// Decoding the bits of a list of blocks, with anything after them, gives
/// the blocks and leaves what came after: entropy coding loses nothing.
pub proof fn lemma_decode_blocks_of_blocks_bits(blocks: Seq<Seq<i64>>, rest: Seq<bool>)
    requires
        are_codable_blocks(blocks),
    ensures
        decode_blocks(blocks_bits(blocks) + rest, blocks.len()) == Ok::<
            (Seq<Seq<i64>>, Seq<bool>),
            CodecError,
        >((blocks, rest)),
    decreases blocks.len(),
{
    if blocks.len() == 0 {
        assert(blocks_bits(blocks) + rest =~= rest);
        assert(blocks =~= Seq::<Seq<i64>>::empty());
    } else {
        let front = blocks.drop_last();
        let last = blocks.last();
        let tail = block_bits(last) + rest;
        assert(blocks_bits(blocks) + rest =~= blocks_bits(front) + tail);
        assert(are_codable_blocks(front)) by {
            assert forall|n: int| 0 <= n < front.len() implies is_codable_block(
                #[trigger] front[n],
            ) by {
                assert(front[n] == blocks[n]);
            }
        }
        lemma_decode_blocks_of_blocks_bits(front, tail);
        lemma_decode_block_of_block_bits(last, rest);
        assert(front.push(last) =~= blocks);
    }
}

/// When every coefficient from position `i` on is zero, all that is
/// written for them is one `EOB`; and nothing at all when no zero stands
/// unwritten, which can only be at the end of the block.
pub proof fn lemma_ac_bits_of_zeros(block: Seq<i64>, i: int, run: int)
    requires
        0 <= i <= 64,
        0 <= run,
        forall|k: int| i <= k < 64 ==> block[k] == 0,
    ensures
        ac_bits(block, i, run) == if run + (64 - i) > 0 {
            ac_code(0, 0)
        } else {
            Seq::<bool>::empty()
        },
    decreases 64 - i,
{
    if i < 64 {
        lemma_ac_bits_of_zeros(block, i + 1, run + 1);
    }
}

/// A block whose AC coefficients are all zero is written as its DC value
/// followed by one `EOB`.
pub proof fn lemma_block_bits_of_dc_only(block: Seq<i64>)
    requires
        forall|k: int| 1 <= k < 64 ==> block[k] == 0,
    ensures
        block_bits(block) == dc_bits(block[0] as int) + ac_code(0, 0),
{
    lemma_ac_bits_of_zeros(block, 1, 0);
}

/// A block that holds sixteen zeros after its DC value, then a nonzero
/// coefficient, is written with exactly one `ZRL` before the symbol of
/// that coefficient, whose run is 0.
pub proof fn lemma_block_bits_of_sixteen_zeros(block: Seq<i64>)
    requires
        forall|k: int| 1 <= k <= 16 ==> block[k] == 0,
        block[17] != 0,
    ensures
        block_bits(block) == dc_bits(block[0] as int) + (ac_code(15, 0) + ac_code(
            0,
            size_category(block[17] as int) as int,
        ) + value_bits(block[17] as int) + ac_bits(block, 18, 0)),
{
    lemma_ac_bits_skips_zeros(block, 1, 0, 16);
    assert(zrl_bits(1) =~= ac_code(15, 0)) by {
        assert(zrl_bits(0) =~= Seq::<bool>::empty());
    }
}

/// Zeros write nothing by themselves: they only lengthen the run.
pub proof fn lemma_ac_bits_skips_zeros(block: Seq<i64>, i: int, run: int, count: int)
    requires
        0 <= i,
        0 <= count,
        i + count <= 64,
        forall|k: int| i <= k < i + count ==> block[k] == 0,
    ensures
        ac_bits(block, i, run) == ac_bits(block, i + count, run + count),
    decreases count,
{
    if count > 0 {
        lemma_ac_bits_skips_zeros(block, i + 1, run + 1, count - 1);
    }
}

} // verus!
