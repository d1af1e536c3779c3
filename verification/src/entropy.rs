//! Entropy coding of coefficient blocks.
//!
//! A block is coded in zigzag order. Its first coefficient, the DC value,
//! is written as the DC code of its size category followed by its value
//! bits. The other 63, the AC values, are written as run-length symbols: a
//! nonzero value is written as the AC code of the pair of the number of
//! zeros before it and its size category, followed by its value bits; a
//! run of more than 15 zeros is first shortened by `ZRL` symbols, each
//! standing for sixteen zeros; zeros at the end of the block are written
//! as one `EOB` symbol. Decoding reads the same symbols back into a block
//! of zeros.

use vstd::prelude::*;
use vstd::arithmetic::power2::{lemma2_to64, lemma_pow2_strictly_increases, pow2};
use crate::bitio::{be_value, lemma_be_value_bound, sink_write, source_read, BitSink, BitSource};
use crate::category::{
    category_of, decode_value, lemma_bit_length_at_most, lemma_decode_value_bound, magnitude,
    offset_code, size_category,
    value_bits, value_of_code,
};
use crate::codes::{ac_code, dc_code};
use crate::error::CodecError;
use crate::grid::{zero_block, BlockGrid};
use crate::huffman::{decode_ac_symbol, decode_dc_size, HuffmanTable};

verus! {

/// The three block grids of one frame: luma, then the two chroma planes.
pub struct EncodedFrame {
    pub y: BlockGrid,
    pub u: BlockGrid,
    pub v: BlockGrid,
}

/// A block that the entropy coder can write: 64 coefficients, the first of
/// at most 11 bits, the others of at most 10 bits.
pub open spec fn is_codable_block(block: Seq<i64>) -> bool {
    &&& block.len() == 64
    &&& -2047 <= block[0] <= 2047
    &&& forall|i: int| 1 <= i < 64 ==> -1023 <= #[trigger] block[i] <= 1023
}

/// Every block of the list can be written.
pub open spec fn are_codable_blocks(blocks: Seq<Seq<i64>>) -> bool {
    forall|n: int| 0 <= n < blocks.len() ==> is_codable_block(#[trigger] blocks[n])
}

/// The bits of a DC value: the code of its size category, then its value
/// bits.
pub open spec fn dc_bits(v: int) -> Seq<bool> {
    dc_code(size_category(v) as int) + value_bits(v)
}

/// `count` times the symbol for sixteen zeros.
pub open spec fn zrl_bits(count: int) -> Seq<bool>
    decreases count,
{
    if count <= 0 {
        Seq::empty()
    } else {
        ac_code(15, 0) + zrl_bits(count - 1)
    }
}

/// The bits of the coefficients `i..64` of a block, when `run` zeros
/// stand unwritten before position `i`.
pub open spec fn ac_bits(block: Seq<i64>, i: int, run: int) -> Seq<bool>
    decreases 64 - i,
{
    if i >= 64 {
        if run > 0 {
            ac_code(0, 0)
        } else {
            Seq::empty()
        }
    } else if block[i] == 0 {
        ac_bits(block, i + 1, run + 1)
    } else {
        zrl_bits(run / 16) + ac_code(run % 16, size_category(block[i] as int) as int)
            + value_bits(block[i] as int) + ac_bits(block, i + 1, 0)
    }
}

/// The bits of one block.
pub open spec fn block_bits(block: Seq<i64>) -> Seq<bool> {
    dc_bits(block[0] as int) + ac_bits(block, 1, 0)
}

/// The bits of a list of blocks, one after the other with nothing between.
pub open spec fn blocks_bits(blocks: Seq<Seq<i64>>) -> Seq<bool>
    decreases blocks.len(),
{
    if blocks.len() == 0 {
        Seq::empty()
    } else {
        blocks_bits(blocks.drop_last()) + block_bits(blocks.last())
    }
}

/// The bits of a frame: its luma blocks, then the blocks of each chroma
/// plane.
pub open spec fn frame_bits(frame: EncodedFrame) -> Seq<bool> {
    blocks_bits(frame.y@) + blocks_bits(frame.u@) + blocks_bits(frame.v@)
}

/// A value within `-(2^s - 1) ..= 2^s - 1` has size category at most `s`.
pub proof fn lemma_size_category_at_most(v: int, s: nat)
    requires
        -pow2(s) < v < pow2(s),
    ensures
        size_category(v) <= s,
{
    lemma_bit_length_at_most(magnitude(v), s);
}

/// Tells whether the entropy coder can write every block of the grid.
pub fn blocks_are_codable(grid: &BlockGrid) -> (ok: bool)
    requires
        grid.wf(),
    ensures
        ok == are_codable_blocks(grid@),
{
    let count = grid.len();
    let mut n: usize = 0;
    while n < count
        invariant
            grid.wf(),
            count == grid@.len(),
            n <= count,
            forall|m: int| 0 <= m < n ==> is_codable_block(#[trigger] grid@[m]),
        decreases count - n,
    {
        let dc = grid.get(n, 0);
        if dc < -2047 || dc > 2047 {
            assert(!is_codable_block(grid@[n as int]));
            return false;
        }
        let mut i: usize = 1;
        while i < 64
            invariant
                grid.wf(),
                n < grid@.len(),
                1 <= i <= 64,
                forall|k: int| 1 <= k < i ==> -1023 <= #[trigger] grid@[n as int][k] <= 1023,
            decreases 64 - i,
        {
            let v = grid.get(n, i);
            if v < -1023 || v > 1023 {
                assert(!is_codable_block(grid@[n as int]));
                return false;
            }
            i += 1;
        }
        n += 1;
    }
    true
}

/// Appends the value bits of `v` to the sink.
pub fn write_value_bits(sink: &mut BitSink, v: i64, size: u32)
    requires
        size == size_category(v as int),
        size <= 16,
    ensures
        final(sink)@ == old(sink)@ + value_bits(v as int),
{
    let code = offset_code(v, size);
    if size > 0 {
        sink_write(sink, size, code);
    } else {
        assert(sink@ + value_bits(v as int) =~= sink@);
    }
}

/// Appends the bits of block `n` of the grid to the sink.
pub fn encode_block(grid: &BlockGrid, n: usize, sink: &mut BitSink, codebook: &HuffmanTable)
    requires
        codebook.wf(),
        grid.wf(),
        n < grid@.len(),
        is_codable_block(grid@[n as int]),
    ensures
        final(sink)@ == old(sink)@ + block_bits(grid@[n as int]),
{
    let ghost block = grid@[n as int];
    let ghost start = sink@;
    proof {
        lemma2_to64();
    }
    let dc = grid.get(n, 0);
    proof {
        lemma_size_category_at_most(dc as int, 11);
    }
    let size = category_of(dc);
    codebook.write_dc_size(sink, size as i64);
    write_value_bits(sink, dc, size);
    assert(sink@ =~= start + dc_bits(block[0] as int));
    let ghost after_dc = sink@;
    let ghost target = after_dc + ac_bits(block, 1, 0);
    let mut run: i64 = 0;
    let mut i: usize = 1;
    while i < 64
        invariant
            codebook.wf(),
            grid.wf(),
            n < grid@.len(),
            block == grid@[n as int],
            is_codable_block(block),
            1 <= i <= 64,
            0 <= run < i,
            sink@ + ac_bits(block, i as int, run as int) == target,
        decreases 64 - i,
    {
        let v = grid.get(n, i);
        if v == 0 {
            run += 1;
        } else {
            let ghost before = sink@;
            let ghost run0 = run;
            while run > 15
                invariant
                    codebook.wf(),
                    0 <= run <= run0,
                    run % 16 == run0 % 16,
                    sink@ + zrl_bits(run as int / 16) == before + zrl_bits(run0 as int / 16),
                decreases run,
            {
                let ghost s0 = sink@;
                codebook.write_ac_symbol(sink, 15, 0);
                run -= 16;
                assert(s0 + zrl_bits((run + 16) as int / 16) =~= sink@ + zrl_bits(
                    run as int / 16,
                ));
            }
            assert(sink@ =~= before + zrl_bits(run0 as int / 16)) by {
                assert(zrl_bits(run as int / 16) =~= Seq::<bool>::empty());
            }
            proof {
                lemma2_to64();
                lemma_size_category_at_most(v as int, 10);
                crate::category::lemma_value_code_round_trip(v as int);
            }
            let size = category_of(v);
            codebook.write_ac_symbol(sink, run, size as i64);
            write_value_bits(sink, v, size);
            assert(sink@ + ac_bits(block, i as int + 1, 0) =~= before + ac_bits(
                block,
                i as int,
                run0 as int,
            ));
            run = 0;
        }
        i += 1;
    }
    if run > 0 {
        codebook.write_ac_symbol(sink, 0, 0);
    } else {
        assert(sink@ + ac_bits(block, 64, 0) =~= sink@);
    }
    assert(sink@ =~= start + block_bits(block));
}

/// Appends the bits of every block of the grid to the sink, in order.
pub fn encode_blocks(grid: &BlockGrid, sink: &mut BitSink, codebook: &HuffmanTable)
    requires
        codebook.wf(),
        grid.wf(),
        are_codable_blocks(grid@),
    ensures
        final(sink)@ == old(sink)@ + blocks_bits(grid@),
{
    let count = grid.len();
    let mut n: usize = 0;
    assert(sink@ + blocks_bits(grid@.take(0)) =~= sink@);
    while n < count
        invariant
            codebook.wf(),
            grid.wf(),
            are_codable_blocks(grid@),
            count == grid@.len(),
            n <= count,
            sink@ == old(sink)@ + blocks_bits(grid@.take(n as int)),
        decreases count - n,
    {
        encode_block(grid, n, sink, codebook);
        proof {
            let next = grid@.take(n as int + 1);
            assert(next.drop_last() =~= grid@.take(n as int));
            assert(next.last() == grid@[n as int]);
            assert(sink@ =~= old(sink)@ + blocks_bits(next));
        }
        n += 1;
    }
    assert(grid@.take(count as int) =~= grid@);
}

/// Writes the entropy-coded blocks of a frame to the sink: luma first, then
/// each chroma plane. Nothing is written between blocks, planes or frames.
pub fn entropy_encode(frame: &EncodedFrame, writer: &mut BitSink, codebook: &HuffmanTable)
    requires
        codebook.wf(),
        frame.y.wf(),
        frame.u.wf(),
        frame.v.wf(),
        are_codable_blocks(frame.y@),
        are_codable_blocks(frame.u@),
        are_codable_blocks(frame.v@),
    ensures
        final(writer)@ == old(writer)@ + frame_bits(*frame),
{
    encode_blocks(&frame.y, writer, codebook);
    encode_blocks(&frame.u, writer, codebook);
    encode_blocks(&frame.v, writer, codebook);
    assert(writer@ =~= old(writer)@ + frame_bits(*frame));
}

/// The value read from the next `size` bits, and the bits after them; the
/// value 0 and no bits taken when `size` is 0. `Truncated` when fewer than
/// `size` bits are left.
pub open spec fn decode_coefficient(bits: Seq<bool>, size: int) -> Result<
    (i64, Seq<bool>),
    CodecError,
> {
    if size <= 0 {
        Ok((0i64, bits))
    } else if bits.len() < size {
        Err(CodecError::Truncated)
    } else {
        Ok((decode_value(be_value(bits.take(size)), size as nat) as i64, bits.skip(size)))
    }
}

/// What decoding the AC part of a block gives, when `block` holds what was
/// decoded so far and `pos` is the next position to fill. Each symbol moves
/// the position past its zero run and stores its value there; `(0, 0)` ends
/// the block and leaves the rest zero; `(15, 0)`, like any symbol of size
/// 0, stores a zero after fifteen zeros and so skips sixteen. `Malformed`
/// when a run leads past the last position.
pub open spec fn decode_ac(bits: Seq<bool>, pos: int, block: Seq<i64>) -> Result<
    (Seq<i64>, Seq<bool>),
    CodecError,
>
    decreases 64 - pos,
{
    if pos >= 64 {
        Ok((block, bits))
    } else {
        match decode_ac_symbol(bits) {
            Err(e) => Err(e),
            Ok(((run, size), rest)) => if run == 0 && size == 0 {
                Ok((block, rest))
            } else if run < 0 || pos + run >= 64 {
                Err(CodecError::Malformed)
            } else {
                match decode_coefficient(rest, size as int) {
                    Err(e) => Err(e),
                    Ok((v, after)) => decode_ac(after, pos + run + 1, block.update(pos + run, v)),
                }
            },
        }
    }
}

/// What decoding one block from `bits` gives: the block and the bits after
/// it, or the first error met.
pub open spec fn decode_block(bits: Seq<bool>) -> Result<(Seq<i64>, Seq<bool>), CodecError> {
    match decode_dc_size(bits) {
        Err(e) => Err(e),
        Ok((size, rest)) => match decode_coefficient(rest, size as int) {
            Err(e) => Err(e),
            Ok((v, after)) => decode_ac(after, 1, zero_block().update(0, v)),
        },
    }
}

/// What decoding `count` blocks from `bits` gives: the blocks in order and
/// the bits after them, or the first error met.
pub open spec fn decode_blocks(bits: Seq<bool>, count: nat) -> Result<
    (Seq<Seq<i64>>, Seq<bool>),
    CodecError,
>
    decreases count,
{
    if count == 0 {
        Ok((Seq::empty(), bits))
    } else {
        match decode_blocks(bits, (count - 1) as nat) {
            Err(e) => Err(e),
            Ok((blocks, rest)) => match decode_block(rest) {
                Err(e) => Err(e),
                Ok((block, after)) => Ok((blocks.push(block), after)),
            },
        }
    }
}

/// Takes the value bits of a coefficient of size category `size` from the
/// source. After an error nothing is known of the source.
pub fn read_value_bits(source: &mut BitSource, size: u32) -> (res: Result<i64, CodecError>)
    requires
        size <= 16,
    ensures
        match decode_coefficient(old(source)@, size as int) {
            Ok((v, rest)) => res == Ok::<i64, CodecError>(v) && final(source)@ == rest,
            Err(e) => res == Err::<i64, CodecError>(e),
        },
        res matches Ok(v) ==> -pow2(size as nat) < v < pow2(size as nat),
{
    if size == 0 {
        proof {
            lemma2_to64();
        }
        return Ok(0);
    }
    let ghost bits = source@;
    match source_read(source, size) {
        None => Err(CodecError::Truncated),
        Some(code) => {
            proof {
                lemma_be_value_bound(bits.take(size as int));
                lemma2_to64();
                if size < 16 {
                    lemma_pow2_strictly_increases(size as nat, 16);
                }
                if size > 1 {
                    lemma_pow2_strictly_increases((size - 1) as nat, size as nat);
                }
                lemma_decode_value_bound(code as nat, size as nat);
            }
            Ok(value_of_code(code, size))
        },
    }
}

/// Decodes one block from the source into block `n` of the grid, which
/// must hold zeros. The other blocks stay as they are. After an error
/// nothing is known of the source or of block `n`.
pub fn decode_block_into(
    source: &mut BitSource,
    codebook: &HuffmanTable,
    grid: &mut BlockGrid,
    n: usize,
) -> (res: Result<(), CodecError>)
    requires
        codebook.wf(),
        old(grid).wf(),
        n < old(grid)@.len(),
        old(grid)@[n as int] == zero_block(),
    ensures
        final(grid).wf(),
        final(grid)@.len() == old(grid)@.len(),
        forall|m: int|
            0 <= m < old(grid)@.len() && m != n ==> #[trigger] final(grid)@[m] == old(grid)@[m],
        match decode_block(old(source)@) {
            Ok((block, rest)) => res is Ok && final(grid)@[n as int] == block && final(source)@
                == rest,
            Err(e) => res == Err::<(), CodecError>(e),
        },
        res is Ok ==> is_codable_block(final(grid)@[n as int]),
{
    let ghost target = decode_block(source@);
    proof {
        lemma2_to64();
    }
    let size = match codebook.read_dc_size(source) {
        Ok(size) => size,
        Err(e) => {
            return Err(e);
        },
    };
    let dc = match read_value_bits(source, size as u32) {
        Ok(v) => v,
        Err(e) => {
            return Err(e);
        },
    };
    proof {
        if size < 11 {
            lemma_pow2_strictly_increases(size as nat, 11);
        }
    }
    grid.set(n, 0, dc);
    let mut position: usize = 1;
    loop
        invariant_except_break
            decode_ac(source@, position as int, grid@[n as int]) == target,
        invariant
            codebook.wf(),
            grid.wf(),
            n < grid@.len(),
            grid@.len() == old(grid)@.len(),
            forall|m: int|
                0 <= m < old(grid)@.len() && m != n ==> #[trigger] grid@[m] == old(grid)@[m],
            1 <= position <= 64,
            target == decode_block(old(source)@),
            is_codable_block(grid@[n as int]),
        ensures
            target matches Ok((block, rest)) && grid@[n as int] == block && source@ == rest,
            is_codable_block(grid@[n as int]),
        decreases 64 - position,
    {
        let ghost bits = source@;
        let ghost block = grid@[n as int];
        if position >= 64 {
            break ;
        }
        let (run, size) = match codebook.read_ac_symbol(source) {
            Ok(symbol) => symbol,
            Err(e) => {
                return Err(e);
            },
        };
        if run == 0 && size == 0 {
            break ;
        }
        if position + run as usize >= 64 {
            return Err(CodecError::Malformed);
        }
        let ghost rest = source@;
        let v = match read_value_bits(source, size as u32) {
            Ok(v) => v,
            Err(e) => {
                return Err(e);
            },
        };
        proof {
            lemma2_to64();
            if size < 10 {
                lemma_pow2_strictly_increases(size as nat, 10);
            }
        }
        position = position + run as usize;
        grid.set(n, position, v);
        position = position + 1;
        assert(grid@[n as int] == block.update(position - 1, v));
        assert(decode_ac(bits, position - 1 - run, block) == decode_ac(
            source@,
            position as int,
            grid@[n as int],
        ));
    }
    Ok(())
}

/// Decodes `num_blocks` blocks from the source. After an error nothing is
/// known of the source.
pub fn entropy_decode(reader: &mut BitSource, codebook: &HuffmanTable, num_blocks: usize) -> (res:
    Result<BlockGrid, CodecError>)
    requires
        codebook.wf(),
        num_blocks * 512 <= isize::MAX,
    ensures
        match decode_blocks(old(reader)@, num_blocks as nat) {
            Ok((blocks, rest)) => res matches Ok(grid) && grid.wf() && grid@ == blocks
                && final(reader)@ == rest,
            Err(e) => res matches Err(f) && f == e,
        },
        res matches Ok(grid) ==> are_codable_blocks(grid@),
{
    let mut result = BlockGrid::new(num_blocks);
    let mut n: usize = 0;
    assert(result@.take(0) =~= Seq::<Seq<i64>>::empty());
    while n < num_blocks
        invariant
            codebook.wf(),
            result.wf(),
            result@.len() == num_blocks,
            n <= num_blocks,
            forall|m: int| n <= m < num_blocks ==> #[trigger] result@[m] == zero_block(),
            forall|m: int| 0 <= m < n ==> is_codable_block(#[trigger] result@[m]),
            decode_blocks(old(reader)@, n as nat) == Ok::<(Seq<Seq<i64>>, Seq<bool>), CodecError>(
                (result@.take(n as int), reader@),
            ),
        decreases num_blocks - n,
    {
        let ghost before = result@;
        match decode_block_into(reader, codebook, &mut result, n) {
            Ok(()) => {
                assert(result@.take(n as int + 1) =~= before.take(n as int).push(
                    result@[n as int],
                ));
            },
            Err(e) => {
                proof {
                    lemma_decode_blocks_error_stays(old(reader)@, (n + 1) as nat, num_blocks as nat);
                }
                return Err(e);
            },
        }
        n += 1;
    }
    assert(result@.take(num_blocks as int) =~= result@);
    Ok(result)
}

/// Once decoding fails after some number of blocks, it fails in the same
/// way for every larger number.
pub proof fn lemma_decode_blocks_error_stays(bits: Seq<bool>, failed: nat, count: nat)
    requires
        failed <= count,
        decode_blocks(bits, failed) is Err,
    ensures
        decode_blocks(bits, count) == decode_blocks(bits, failed),
    decreases count,
{
    if failed < count {
        lemma_decode_blocks_error_stays(bits, failed, (count - 1) as nat);
    }
}

} // verus!
