//! The Huffman codebook: symbols to bits and bits to symbols.
//!
//! The trees are those of the `bitstream_io` crate, compiled once from the
//! tables of [`crate::codes`] and then only read. Verus cannot look inside
//! them, so a codebook is described by the two tables it was compiled from
//! ([`dc_codes`], [`ac_codes`]), and the functions that call into the crate
//! are trusted to behave as their contracts say. What a symbol's code is,
//! and which symbol a run of bits decodes to, is then proved from the
//! tables.

use vstd::prelude::*;
use vstd::arithmetic::power2::{lemma2_to64, lemma_pow2_strictly_increases};
use crate::bitio::{be_bits, lemma_be_bits_len, sink_bits, source_bits, BitSink, BitSource};
use crate::category::{category_of, lemma_bit_length_at_most, magnitude, offset_code, value_bits};
use crate::codes::{
    ac_code, ac_codewords, ac_index, code_matches, dc_code, dc_codewords, find_code, is_ac_symbol,
    is_complete, is_dc_size, is_prefix_free, lemma_ac_symbols, lemma_code_match_unique,
    lemma_codes_are_complete, lemma_codes_are_prefix_free,
    lemma_find_code_after_append,
    lemma_dc_symbols, AC_CODES, AC_LENGTHS, AC_RUNS, AC_SIZES, DC_CODES, DC_LENGTHS, DC_SYMBOLS,
};
use crate::error::CodecError;

verus! {

/// The error that `bitstream_io` reports when a table is no prefix code.
#[verifier::external_type_specification]
#[verifier::external_body]
pub struct ExHuffmanTreeError(bitstream_io::huffman::HuffmanTreeError);

/// The compiled trees of both codes, for writing and for reading.
#[verifier::external_body]
pub struct HuffmanTable {
    dc_write: bitstream_io::huffman::WriteHuffmanTree<bitstream_io::BigEndian, i64>,
    ac_write: bitstream_io::huffman::WriteHuffmanTree<bitstream_io::BigEndian, (i64, i64)>,
    dc_read: Box<[bitstream_io::huffman::ReadHuffmanTree<bitstream_io::BigEndian, i64>]>,
    ac_read: Box<[bitstream_io::huffman::ReadHuffmanTree<bitstream_io::BigEndian, (i64, i64)>]>,
}

/// The table that the DC trees of a codebook were compiled from: each
/// symbol with its code, one `u8` of 0 or 1 per bit.
pub uninterp spec fn dc_codes(table: HuffmanTable) -> Seq<(i64, Seq<u8>)>;

/// The table that the AC trees of a codebook were compiled from.
pub uninterp spec fn ac_codes(table: HuffmanTable) -> Seq<((i64, i64), Seq<u8>)>;

/// A bit string as a list of `u8`, 1 for a set bit and 0 for a clear one.
pub open spec fn digits(bits: Seq<bool>) -> Seq<u8> {
    Seq::new(bits.len(), |k: int| if bits[k] { 1u8 } else { 0u8 })
}

/// The bit string that a list of `u8` stands for.
pub open spec fn digit_bits(digits: Seq<u8>) -> Seq<bool> {
    Seq::new(digits.len(), |k: int| digits[k] == 1)
}

/// The DC table: every size category with its code, and last the entry `-1`
/// with the one code that carries no category.
pub open spec fn dc_table() -> Seq<(i64, Seq<u8>)> {
    Seq::new(13, |i: int| (DC_SYMBOLS[i], digits(dc_codewords()[i])))
}

/// The AC table: every symbol with its code, and last the entry `(-1, -1)`
/// with the one code that carries no symbol.
pub open spec fn ac_table() -> Seq<((i64, i64), Seq<u8>)> {
    Seq::new(163, |i: int| ((AC_RUNS[i], AC_SIZES[i]), digits(ac_codewords()[i])))
}

/// Entry `i` is the first entry of `table` that holds `symbol`.
pub open spec fn is_first_entry<S>(table: Seq<(S, Seq<u8>)>, symbol: S, i: int) -> bool {
    &&& 0 <= i < table.len()
    &&& table[i].0 == symbol
    &&& forall|j: int| 0 <= j < i ==> (#[trigger] table[j]).0 != symbol
}

/// The code of the first entry of `table` that holds `symbol`.
pub open spec fn first_code<S>(table: Seq<(S, Seq<u8>)>, symbol: S) -> Seq<u8> {
    table[choose|i: int| is_first_entry(table, symbol, i)].1
}

/// The code of entry `i` of `table` stands at the head of `bits`.
pub open spec fn entry_matches<S>(table: Seq<(S, Seq<u8>)>, bits: Seq<bool>, i: int) -> bool {
    0 <= i < table.len() && digit_bits(table[i].1).is_prefix_of(bits)
}

/// The codes of a table as bit strings, in table order.
pub open spec fn table_codes<S>(table: Seq<(S, Seq<u8>)>) -> Seq<Seq<bool>> {
    Seq::new(table.len(), |i: int| digit_bits(table[i].1))
}

/// Every digit of every code of the table is 0 or 1.
pub open spec fn has_binary_digits<S>(table: Seq<(S, Seq<u8>)>) -> bool {
    forall|i: int, k: int|
        0 <= i < table.len() && 0 <= k < table[i].1.len() ==> #[trigger] table[i].1[k] <= 1
}

/// The table is one that trees can be compiled from: every digit is 0 or
/// 1, no code equals another or is the start of another, and every path of
/// the code tree ends in a leaf.
pub open spec fn is_prefix_code<S>(table: Seq<(S, Seq<u8>)>) -> bool {
    &&& has_binary_digits(table)
    &&& is_prefix_free(table_codes(table))
    &&& is_complete(table_codes(table))
}

/// Trusted: `bitstream_io::huffman::compile_write_tree` and
/// `compile_read_tree`, each called on both tables. When all four succeed
/// the codebook holds trees for exactly the tables given. The write trees
/// are refused only for a digit other than 0 and 1. The read trees are
/// refused for such a digit, for a code that equals another or is the
/// start of another, and for a tree with a path that ends in no leaf; so
/// all four succeed for two tables without any of these.
#[verifier::external_body]
fn compile_trees(dc: Vec<(i64, Vec<u8>)>, ac: Vec<((i64, i64), Vec<u8>)>) -> (res: Result<
    HuffmanTable,
    bitstream_io::huffman::HuffmanTreeError,
>)
    ensures
        res matches Ok(table) ==> dc_codes(table) == dc.deep_view() && ac_codes(table)
            == ac.deep_view(),
        is_prefix_code(dc.deep_view()) && is_prefix_code(ac.deep_view()) ==> res is Ok,
{
    Ok(
        HuffmanTable {
            dc_write: bitstream_io::huffman::compile_write_tree(dc.clone())?,
            ac_write: bitstream_io::huffman::compile_write_tree(ac.clone())?,
            dc_read: bitstream_io::huffman::compile_read_tree(dc)?,
            ac_read: bitstream_io::huffman::compile_read_tree(ac)?,
        },
    )
}

/// Trusted: `bitstream_io::HuffmanWrite::write_huffman` with the DC write
/// tree appends the code of the first table entry that holds `symbol`. The
/// crate panics for a symbol that the table lacks, which `requires`
/// excludes; the byte buffer behind the sink accepts every write.
#[verifier::external_body]
fn write_dc_code(sink: &mut BitSink, table: &HuffmanTable, symbol: i64)
    requires
        exists|i: int| is_first_entry(dc_codes(*table), symbol, i),
    ensures
        sink_bits(*final(sink)) == sink_bits(*old(sink)) + digit_bits(
            first_code(dc_codes(*table), symbol),
        ),
{
    bitstream_io::HuffmanWrite::write_huffman(&mut sink.writer, &table.dc_write, symbol).unwrap()
}

/// Trusted: `bitstream_io::HuffmanWrite::write_huffman` with the AC write
/// tree; as for the DC tree.
#[verifier::external_body]
fn write_ac_code(sink: &mut BitSink, table: &HuffmanTable, symbol: (i64, i64))
    requires
        exists|i: int| is_first_entry(ac_codes(*table), symbol, i),
    ensures
        sink_bits(*final(sink)) == sink_bits(*old(sink)) + digit_bits(
            first_code(ac_codes(*table), symbol),
        ),
{
    bitstream_io::HuffmanWrite::write_huffman(&mut sink.writer, &table.ac_write, symbol).unwrap()
}

/// Trusted: `bitstream_io::HuffmanRead::read_huffman` with the DC read
/// tree walks the tree along the bits to come. When it reaches a leaf it
/// returns that entry's symbol and has taken exactly the entry's code. It
/// fails only when the bits end before a leaf is reached, so that no code
/// of the table stands at the head of the bits; that is mapped to `None`,
/// and nothing is claimed of the source after it.
#[verifier::external_body]
fn read_dc_code(source: &mut BitSource, table: &HuffmanTable) -> (symbol: Option<i64>)
    ensures
        match symbol {
            Some(s) => exists|i: int|
                #![trigger dc_codes(*table)[i]]
                entry_matches(dc_codes(*table), source_bits(*old(source)), i) && dc_codes(
                    *table,
                )[i].0 == s && source_bits(*final(source)) == source_bits(*old(source)).skip(
                    dc_codes(*table)[i].1.len() as int,
                ),
            None => forall|i: int|
                !entry_matches(dc_codes(*table), source_bits(*old(source)), i),
        },
{
    bitstream_io::HuffmanRead::read_huffman(&mut source.reader, &table.dc_read).ok()
}

/// Trusted: `bitstream_io::HuffmanRead::read_huffman` with the AC read
/// tree; as for the DC tree.
#[verifier::external_body]
fn read_ac_code(source: &mut BitSource, table: &HuffmanTable) -> (symbol: Option<(i64, i64)>)
    ensures
        match symbol {
            Some(s) => exists|i: int|
                #![trigger ac_codes(*table)[i]]
                entry_matches(ac_codes(*table), source_bits(*old(source)), i) && ac_codes(
                    *table,
                )[i].0 == s && source_bits(*final(source)) == source_bits(*old(source)).skip(
                    ac_codes(*table)[i].1.len() as int,
                ),
            None => forall|i: int|
                !entry_matches(ac_codes(*table), source_bits(*old(source)), i),
        },
{
    bitstream_io::HuffmanRead::read_huffman(&mut source.reader, &table.ac_read).ok()
}

/// The size category at the head of `bits` and the bits after its code.
/// `Truncated` when no code stands there, which for this complete code
/// means that the bits end too early; `Malformed` when the code is the one
/// without a category.
pub open spec fn decode_dc_size(bits: Seq<bool>) -> Result<(i64, Seq<bool>), CodecError> {
    match find_code(dc_codewords(), bits) {
        None => Err(CodecError::Truncated),
        Some(i) => if i == 12 {
            Err(CodecError::Malformed)
        } else {
            Ok((DC_SYMBOLS[i], bits.skip(DC_LENGTHS[i] as int)))
        },
    }
}

/// The AC symbol at the head of `bits` and the bits after its code; errors
/// as for the DC code.
pub open spec fn decode_ac_symbol(bits: Seq<bool>) -> Result<((i64, i64), Seq<bool>), CodecError> {
    match find_code(ac_codewords(), bits) {
        None => Err(CodecError::Truncated),
        Some(i) => if i == 162 {
            Err(CodecError::Malformed)
        } else {
            Ok(((AC_RUNS[i], AC_SIZES[i]), bits.skip(AC_LENGTHS[i] as int)))
        },
    }
}

/// Turning bits into digits and back gives the bits.
pub proof fn lemma_digit_bits_of_digits(bits: Seq<bool>)
    ensures
        digit_bits(digits(bits)) == bits,
{
    assert(digit_bits(digits(bits)) =~= bits);
}

/// The code lengths in the tables are the lengths of the codes.
pub proof fn lemma_codeword_lengths()
    ensures
        forall|i: int| 0 <= i < 13 ==> (#[trigger] dc_codewords()[i]).len() == DC_LENGTHS[i],
        forall|i: int| 0 <= i < 163 ==> (#[trigger] ac_codewords()[i]).len() == AC_LENGTHS[i],
{
    assert forall|i: int| 0 <= i < 13 implies (#[trigger] dc_codewords()[i]).len()
        == DC_LENGTHS[i] by {
        lemma_be_bits_len(DC_CODES[i] as nat, DC_LENGTHS[i] as nat);
    }
    assert forall|i: int| 0 <= i < 163 implies (#[trigger] ac_codewords()[i]).len()
        == AC_LENGTHS[i] by {
        lemma_be_bits_len(AC_CODES[i] as nat, AC_LENGTHS[i] as nat);
    }
}

/// Both tables are complete prefix codes with digits 0 and 1.
pub proof fn lemma_tables_are_prefix_codes()
    ensures
        is_prefix_code(dc_table()),
        is_prefix_code(ac_table()),
        table_codes(dc_table()) == dc_codewords(),
        table_codes(ac_table()) == ac_codewords(),
{
    lemma_codes_are_prefix_free();
    lemma_codes_are_complete();
    assert forall|i: int| 0 <= i < 13 implies #[trigger] table_codes(dc_table())[i]
        == dc_codewords()[i] by {
        lemma_digit_bits_of_digits(dc_codewords()[i]);
    }
    assert(table_codes(dc_table()) =~= dc_codewords());
    assert forall|i: int| 0 <= i < 163 implies #[trigger] table_codes(ac_table())[i]
        == ac_codewords()[i] by {
        lemma_digit_bits_of_digits(ac_codewords()[i]);
    }
    assert(table_codes(ac_table()) =~= ac_codewords());
}

/// Appends the `count` low bits of `value` to `out`, most significant
/// first, one `u8` of 0 or 1 per bit.
fn push_digits(out: &mut Vec<u8>, value: u32, count: u32)
    ensures
        final(out)@ == old(out)@ + digits(be_bits(value as nat, count as nat)),
    decreases count,
{
    if count > 0 {
        push_digits(out, value / 2, count - 1);
        out.push((value % 2) as u8);
        assert(out@ =~= old(out)@ + digits(be_bits(value as nat, count as nat)));
    } else {
        assert(out@ =~= old(out)@ + digits(be_bits(value as nat, count as nat)));
    }
}

/// The entry of the value table for `v`: the value with its value bits,
/// most significant first.
pub open spec fn value_table_entry(v: int) -> (i64, Seq<u8>) {
    (v as i64, digits(value_bits(v)))
}

/// The value table: one entry for every value from -2047 to 2047.
pub open spec fn value_table() -> Seq<(i64, Seq<u8>)> {
    Seq::new(4095, |k: int| value_table_entry(k - 2047))
}

impl HuffmanTable {
    /// The codebook holds the trees of the DC table and of the AC table.
    pub open spec fn wf(&self) -> bool {
        dc_codes(*self) == dc_table() && ac_codes(*self) == ac_table()
    }

    /// Builds the codebook from the two code tables. It is built once and
    /// only read afterwards. Both tables are complete prefix codes, so the
    /// trees can always be built.
    pub fn new() -> (res: Result<HuffmanTable, CodecError>)
        ensures
            res matches Ok(table) && table.wf(),
    {
        let mut dc: Vec<(i64, Vec<u8>)> = Vec::new();
        let mut i: usize = 0;
        while i < 13
            invariant
                i <= 13,
                dc@.len() == i,
                forall|k: int| 0 <= k < i ==> (#[trigger] dc@[k]).deep_view() == dc_table()[k],
            decreases 13 - i,
        {
            let mut code: Vec<u8> = Vec::new();
            push_digits(&mut code, DC_CODES[i], DC_LENGTHS[i]);
            assert(code@ =~= digits(dc_codewords()[i as int]));
            dc.push((DC_SYMBOLS[i], code));
            i += 1;
        }
        let mut ac: Vec<((i64, i64), Vec<u8>)> = Vec::new();
        let mut j: usize = 0;
        while j < 163
            invariant
                j <= 163,
                ac@.len() == j,
                forall|k: int| 0 <= k < j ==> (#[trigger] ac@[k]).deep_view() == ac_table()[k],
            decreases 163 - j,
        {
            let mut code: Vec<u8> = Vec::new();
            push_digits(&mut code, AC_CODES[j], AC_LENGTHS[j]);
            assert(code@ =~= digits(ac_codewords()[j as int]));
            ac.push(((AC_RUNS[j], AC_SIZES[j]), code));
            j += 1;
        }
        assert(dc.deep_view() =~= dc_table());
        assert(ac.deep_view() =~= ac_table());
        proof {
            lemma_tables_are_prefix_codes();
        }
        match compile_trees(dc, ac) {
            Ok(table) => Ok(table),
            Err(_) => Err(CodecError::Codebook),
        }
    }

    /// Lists every value from -2047 to 2047, in ascending order, with its
    /// value bits: as many bits as its size category says, a positive value
    /// as it is and a negative value `v` of size `s` as `v + 2^s - 1`.
    pub fn generate_value_table() -> (table: Vec<(i64, Vec<u8>)>)
        ensures
            table.deep_view() == value_table(),
    {
        let mut table: Vec<(i64, Vec<u8>)> = Vec::new();
        let mut value: i64 = -2047;
        while value < 2048
            invariant
                -2047 <= value <= 2048,
                table@.len() == value + 2047,
                forall|k: int|
                    0 <= k < table@.len() ==> (#[trigger] table@[k]).deep_view()
                        == value_table_entry(k - 2047),
            decreases 2048 - value,
        {
            proof {
                lemma2_to64();
                lemma_bit_length_at_most(magnitude(value as int), 11);
            }
            let size = category_of(value);
            let code = offset_code(value, size);
            proof {
                if size < 16 {
                    lemma_pow2_strictly_increases(size as nat, 16);
                }
            }
            let mut bits: Vec<u8> = Vec::new();
            push_digits(&mut bits, code as u32, size);
            assert(bits@ =~= value_table_entry(value as int).1);
            table.push((value, bits));
            value += 1;
        }
        assert(table.deep_view() =~= value_table());
        table
    }

    /// Appends the code of the size category `size` to the sink.
    pub fn write_dc_size(&self, sink: &mut BitSink, size: i64)
        requires
            self.wf(),
            is_dc_size(size as int),
        ensures
            final(sink)@ == old(sink)@ + dc_code(size as int),
    {
        proof {
            lemma_dc_symbols();
            assert(is_first_entry(dc_codes(*self), size, size as int));
        }
        write_dc_code(sink, self, size);
        proof {
            let i = choose|i: int| is_first_entry(dc_codes(*self), size, i);
            assert(i == size);
            lemma_digit_bits_of_digits(dc_codewords()[size as int]);
        }
    }

    /// Appends the code of the AC symbol `(run, size)` to the sink.
    pub fn write_ac_symbol(&self, sink: &mut BitSink, run: i64, size: i64)
        requires
            self.wf(),
            is_ac_symbol(run as int, size as int),
        ensures
            final(sink)@ == old(sink)@ + ac_code(run as int, size as int),
    {
        let ghost at = ac_index(run as int, size as int);
        proof {
            lemma_ac_symbols();
            assert(is_first_entry(ac_codes(*self), (run, size), at)) by {
                assert forall|j: int| 0 <= j < at implies (#[trigger] ac_codes(*self)[j]).0 != (
                    run,
                    size,
                ) by {
                    assert(ac_index(AC_RUNS[j] as int, AC_SIZES[j] as int) == j);
                }
            }
        }
        write_ac_code(sink, self, (run, size));
        proof {
            let i = choose|i: int| is_first_entry(ac_codes(*self), (run, size), i);
            assert(i == at) by {
                if i < at {
                    assert(ac_codes(*self)[i].0 != (run, size));
                }
                if at < i {
                    assert(ac_codes(*self)[at].0 != (run, size));
                }
            }
            lemma_digit_bits_of_digits(ac_codewords()[at]);
        }
    }

    /// Takes one DC code from the source and returns its size category.
    /// After an error nothing is known of the source.
    pub fn read_dc_size(&self, source: &mut BitSource) -> (res: Result<i64, CodecError>)
        requires
            self.wf(),
        ensures
            match decode_dc_size(old(source)@) {
                Ok((size, rest)) => res == Ok::<i64, CodecError>(size) && final(source)@ == rest,
                Err(e) => res == Err::<i64, CodecError>(e),
            },
            res matches Ok(size) ==> is_dc_size(size as int),
    {
        let ghost bits = source@;
        let found = read_dc_code(source, self);
        proof {
            lemma_dc_symbols();
            lemma_codes_are_prefix_free();
            lemma_codeword_lengths();
            assert forall|i: int| 0 <= i < 13 implies digit_bits(#[trigger] dc_table()[i].1)
                == dc_codewords()[i] by {
                lemma_digit_bits_of_digits(dc_codewords()[i]);
            }
        }
        match found {
            Some(symbol) => {
                proof {
                    let i = choose|i: int|
                        #![trigger dc_codes(*self)[i]]
                        entry_matches(dc_codes(*self), bits, i) && dc_codes(*self)[i].0 == symbol
                            && source_bits(*source) == bits.skip(
                            dc_codes(*self)[i].1.len() as int,
                        );
                    assert(code_matches(dc_codewords(), bits, i));
                    let j = find_code(dc_codewords(), bits).unwrap();
                    lemma_code_match_unique(dc_codewords(), bits, i, j);
                }
                if symbol < 0 {
                    Err(CodecError::Malformed)
                } else {
                    Ok(symbol)
                }
            },
            None => {
                proof {
                    assert forall|i: int| !code_matches(dc_codewords(), bits, i) by {
                        assert(!entry_matches(dc_codes(*self), bits, i));
                    }
                }
                Err(CodecError::Truncated)
            },
        }
    }

    /// Takes one AC code from the source and returns its symbol, a zero run
    /// and a size category. After an error nothing is known of the source.
    pub fn read_ac_symbol(&self, source: &mut BitSource) -> (res: Result<(i64, i64), CodecError>)
        requires
            self.wf(),
        ensures
            match decode_ac_symbol(old(source)@) {
                Ok((symbol, rest)) => res == Ok::<(i64, i64), CodecError>(symbol)
                    && final(source)@ == rest,
                Err(e) => res == Err::<(i64, i64), CodecError>(e),
            },
            res matches Ok(symbol) ==> is_ac_symbol(symbol.0 as int, symbol.1 as int),
    {
        let ghost bits = source@;
        let found = read_ac_code(source, self);
        proof {
            lemma_ac_symbols();
            lemma_codes_are_prefix_free();
            lemma_codeword_lengths();
            assert forall|i: int| 0 <= i < 163 implies digit_bits(#[trigger] ac_table()[i].1)
                == ac_codewords()[i] by {
                lemma_digit_bits_of_digits(ac_codewords()[i]);
            }
        }
        match found {
            Some(symbol) => {
                proof {
                    let i = choose|i: int|
                        #![trigger ac_codes(*self)[i]]
                        entry_matches(ac_codes(*self), bits, i) && ac_codes(*self)[i].0 == symbol
                            && source_bits(*source) == bits.skip(
                            ac_codes(*self)[i].1.len() as int,
                        );
                    assert(code_matches(ac_codewords(), bits, i));
                    let j = find_code(ac_codewords(), bits).unwrap();
                    lemma_code_match_unique(ac_codewords(), bits, i, j);
                    if i < 162 {
                        assert(is_ac_symbol(AC_RUNS[i] as int, AC_SIZES[i] as int));
                    }
                }
                if symbol.0 < 0 {
                    Err(CodecError::Malformed)
                } else {
                    Ok(symbol)
                }
            },
            None => {
                proof {
                    assert forall|i: int| !code_matches(ac_codewords(), bits, i) by {
                        assert(!entry_matches(ac_codes(*self), bits, i));
                    }
                }
                Err(CodecError::Truncated)
            },
        }
    }
}

/// Decoding the code of a size category, with anything after it, gives the
/// category and leaves what came after.
pub proof fn lemma_decode_dc_size_of_code(size: int, rest: Seq<bool>)
    requires
        is_dc_size(size),
    ensures
        decode_dc_size(dc_code(size) + rest) == Ok::<(i64, Seq<bool>), CodecError>(
            (size as i64, rest),
        ),
{
    lemma_dc_symbols();
    lemma_codes_are_prefix_free();
    lemma_codeword_lengths();
    lemma_find_code_after_append(dc_codewords(), size, rest);
}

/// Decoding the code of an AC symbol, with anything after it, gives the
/// symbol and leaves what came after.
pub proof fn lemma_decode_ac_symbol_of_code(run: int, size: int, rest: Seq<bool>)
    requires
        is_ac_symbol(run, size),
    ensures
        decode_ac_symbol(ac_code(run, size) + rest) == Ok::<((i64, i64), Seq<bool>), CodecError>(
            ((run as i64, size as i64), rest),
        ),
{
    lemma_ac_symbols();
    lemma_codes_are_prefix_free();
    lemma_codeword_lengths();
    lemma_find_code_after_append(ac_codewords(), ac_index(run, size), rest);
}

/// Two different size categories have different codes, and neither code is
/// the start of the other.
pub proof fn lemma_dc_codes_differ(a: int, b: int)
    requires
        is_dc_size(a),
        is_dc_size(b),
        a != b,
    ensures
        !dc_code(a).is_prefix_of(dc_code(b)),
        dc_code(a) != dc_code(b),
{
    lemma_codes_are_prefix_free();
    if dc_code(a) == dc_code(b) {
        assert(dc_code(a).is_prefix_of(dc_code(b)));
    }
}

/// Two different AC symbols have different codes, and neither code is the
/// start of the other.
pub proof fn lemma_ac_codes_differ(run_a: int, size_a: int, run_b: int, size_b: int)
    requires
        is_ac_symbol(run_a, size_a),
        is_ac_symbol(run_b, size_b),
        run_a != run_b || size_a != size_b,
    ensures
        !ac_code(run_a, size_a).is_prefix_of(ac_code(run_b, size_b)),
        ac_code(run_a, size_a) != ac_code(run_b, size_b),
{
    lemma_codes_are_prefix_free();
    lemma_ac_symbols();
    if ac_code(run_a, size_a) == ac_code(run_b, size_b) {
        assert(ac_code(run_a, size_a).is_prefix_of(ac_code(run_b, size_b)));
    }
}

} // verus!
