//! Bit-level output and input, most significant bit first.
//!
//! The packing of bits into bytes is done by the `bitstream_io` crate: a
//! [`BitSink`] owns one of its writers over a growing byte vector, a
//! [`BitSource`] owns one of its readers over a byte vector. Verus cannot
//! look inside either, so a sink is described by the bits written to it so
//! far ([`sink_bits`]) and a source by the bits it has not handed out yet
//! ([`source_bits`]); the functions that call into the crate are trusted to
//! behave as their contracts say.

use vstd::prelude::*;
use vstd::arithmetic::div_mod::lemma_div_denominator;
use vstd::arithmetic::power2::{lemma2_to64, lemma_pow2_pos, lemma_pow2_unfold, pow2};

verus! {

/// The `count` low bits of `value`, most significant first.
pub open spec fn be_bits(value: nat, count: nat) -> Seq<bool>
    decreases count,
{
    if count == 0 {
        Seq::empty()
    } else {
        be_bits(value / 2, (count - 1) as nat).push(value % 2 == 1)
    }
}

/// The number that `bits` spell, most significant bit first.
pub open spec fn be_value(bits: Seq<bool>) -> nat
    decreases bits.len(),
{
    if bits.len() == 0 {
        0
    } else {
        2 * be_value(bits.drop_last()) + if bits.last() {
            1nat
        } else {
            0nat
        }
    }
}

/// The bits of a byte string: eight per byte, most significant first.
pub open spec fn bytes_bits(bytes: Seq<u8>) -> Seq<bool>
    decreases bytes.len(),
{
    if bytes.len() == 0 {
        Seq::empty()
    } else {
        bytes_bits(bytes.drop_last()) + be_bits(bytes.last() as nat, 8)
    }
}

/// `count` zero bits.
pub open spec fn zero_bits(count: nat) -> Seq<bool> {
    Seq::new(count, |i: int| false)
}

/// Number of zero bits that bring a stream of `len` bits to a byte boundary.
pub open spec fn padding_len(len: nat) -> nat {
    ((8 - len % 8) % 8) as nat
}

/// `be_bits(value, count)` has `count` bits.
pub proof fn lemma_be_bits_len(value: nat, count: nat)
    ensures
        be_bits(value, count).len() == count,
    decreases count,
{
    if count > 0 {
        lemma_be_bits_len(value / 2, (count - 1) as nat);
    }
}

/// A sequence of `n` bits spells a number below `2^n`.
pub proof fn lemma_be_value_bound(bits: Seq<bool>)
    ensures
        be_value(bits) < pow2(bits.len()),
    decreases bits.len(),
{
    if bits.len() == 0 {
        lemma2_to64();
    } else {
        lemma_be_value_bound(bits.drop_last());
        lemma_pow2_unfold(bits.len());
    }
}

/// Reading back the bits of a number that fits gives the number.
pub proof fn lemma_be_value_of_be_bits(value: nat, count: nat)
    requires
        value < pow2(count),
    ensures
        be_value(be_bits(value, count)) == value,
    decreases count,
{
    if count == 0 {
        lemma2_to64();
    } else {
        lemma_pow2_unfold(count);
        let rest = be_bits(value / 2, (count - 1) as nat);
        lemma_be_value_of_be_bits(value / 2, (count - 1) as nat);
        assert(be_bits(value, count).drop_last() =~= rest);
    }
}

/// Writing out the number that a bit sequence spells gives the sequence.
pub proof fn lemma_be_bits_of_be_value(bits: Seq<bool>)
    ensures
        be_bits(be_value(bits), bits.len()) == bits,
    decreases bits.len(),
{
    if bits.len() > 0 {
        lemma_be_bits_of_be_value(bits.drop_last());
        assert(be_bits(be_value(bits), bits.len()) =~= bits);
    }
}

/// Two bit strings of one length that spell the same number are equal.
pub proof fn lemma_be_value_injective(a: Seq<bool>, b: Seq<bool>)
    requires
        a.len() == b.len(),
        be_value(a) == be_value(b),
    ensures
        a == b,
{
    lemma_be_bits_of_be_value(a);
    lemma_be_bits_of_be_value(b);
}

/// The first `keep` bits of a `count`-bit number are the bits of the number
/// with its low `count - keep` bits shifted out.
pub proof fn lemma_be_bits_take(value: nat, count: nat, keep: nat)
    requires
        keep <= count,
    ensures
        be_bits(value, count).take(keep as int) == be_bits(
            value / pow2((count - keep) as nat),
            keep,
        ),
    decreases count,
{
    lemma_be_bits_len(value, count);
    if keep == count {
        lemma2_to64();
        assert(pow2(0) == 1);
        assert(value / pow2((count - keep) as nat) == value);
        assert(be_bits(value, count).take(keep as int) =~= be_bits(value, count));
    } else {
        let shorter = be_bits(value / 2, (count - 1) as nat);
        lemma_be_bits_len(value / 2, (count - 1) as nat);
        lemma_be_bits_take(value / 2, (count - 1) as nat, keep);
        assert(be_bits(value, count).take(keep as int) =~= shorter.take(keep as int));
        let p = pow2((count - keep - 1) as nat);
        lemma_pow2_unfold((count - keep) as nat);
        lemma_pow2_pos((count - keep - 1) as nat);
        assert(pow2((count - keep) as nat) == 2 * p);
        lemma_div_denominator(value as int, 2, p as int);
        assert((value / 2) / p == value / pow2((count - keep) as nat));
        assert(be_bits(value, count).take(keep as int) == be_bits(
            value / pow2((count - keep) as nat),
            keep,
        ));
    }
}

/// A writer of bits into a growing byte buffer.
#[verifier::external_body]
pub struct BitSink {
    pub(crate) writer: bitstream_io::BitWriter<Vec<u8>, bitstream_io::BigEndian>,
}

/// The bits written to a sink so far, first written first.
pub uninterp spec fn sink_bits(sink: BitSink) -> Seq<bool>;

/// A reader of bits from a byte buffer.
#[verifier::external_body]
pub struct BitSource {
    pub(crate) reader: bitstream_io::BitReader<std::io::Cursor<Vec<u8>>, bitstream_io::BigEndian>,
}

/// The bits that a source has not handed out yet, next bit first.
pub uninterp spec fn source_bits(source: BitSource) -> Seq<bool>;

/// Trusted: `bitstream_io::BitWriter::endian` over an empty `Vec<u8>`. Nothing
/// has been written to the new writer.
#[verifier::external_body]
fn sink_open() -> (sink: BitSink)
    ensures
        sink_bits(sink) == Seq::<bool>::empty(),
{
    BitSink { writer: bitstream_io::BitWriter::endian(Vec::new(), bitstream_io::BigEndian) }
}

/// Trusted: `bitstream_io::BitWrite::write` with an `i64` value on a
/// big-endian writer appends the `count` low bits of the value, most
/// significant first. The crate reports an error for a value that does not
/// fit in `count` bits, which `requires` excludes; the byte buffer behind
/// the writer accepts every write, so the result is always `Ok`.
#[verifier::external_body]
pub(crate) fn sink_write(sink: &mut BitSink, count: u32, value: i64)
    requires
        1 <= count <= 16,
        0 <= value < pow2(count as nat),
    ensures
        sink_bits(*final(sink)) == sink_bits(*old(sink)) + be_bits(value as nat, count as nat),
{
    bitstream_io::BitWrite::write(&mut sink.writer, count, value).unwrap()
}

/// Trusted: `bitstream_io::BitWrite::byte_align` appends zero bits until
/// the number of bits written is a multiple of eight, and none when it
/// already is.
#[verifier::external_body]
fn sink_byte_align(sink: &mut BitSink)
    ensures
        sink_bits(*final(sink)) == sink_bits(*old(sink)) + zero_bits(
            padding_len(sink_bits(*old(sink)).len()),
        ),
{
    bitstream_io::BitWrite::byte_align(&mut sink.writer).unwrap()
}

/// Trusted: `bitstream_io::BitWriter::into_writer` hands back the byte
/// buffer, which holds every whole byte written. A trailing partial byte
/// would be dropped, so `requires` asks for a byte-aligned sink.
#[verifier::external_body]
fn sink_into_bytes(sink: BitSink) -> (bytes: Vec<u8>)
    requires
        sink_bits(sink).len() % 8 == 0,
    ensures
        bytes_bits(bytes@) == sink_bits(sink),
{
    sink.writer.into_writer()
}

/// Trusted: `bitstream_io::BitReader::endian` over a `std::io::Cursor` at
/// the start of `bytes`. Nothing has been read, so all bits of the bytes
/// are still to come.
#[verifier::external_body]
fn source_open(bytes: Vec<u8>) -> (source: BitSource)
    ensures
        source_bits(source) == bytes_bits(bytes@),
{
    BitSource {
        reader: bitstream_io::BitReader::endian(std::io::Cursor::new(bytes), bitstream_io::BigEndian),
    }
}

/// Trusted: `bitstream_io::BitRead::read` into an `i64` on a big-endian
/// reader. With at least `count` bits left it takes the next `count` bits
/// and returns the number they spell, most significant bit first. With
/// fewer left the read from the cursor fails, which is mapped to `None`;
/// nothing is claimed of the source after that.
#[verifier::external_body]
pub(crate) fn source_read(source: &mut BitSource, count: u32) -> (value: Option<i64>)
    requires
        1 <= count <= 16,
    ensures
        source_bits(*old(source)).len() >= count ==> value == Some(
            be_value(source_bits(*old(source)).take(count as int)) as i64,
        ) && source_bits(*final(source)) == source_bits(*old(source)).skip(count as int),
        source_bits(*old(source)).len() < count ==> value.is_none(),
{
    bitstream_io::BitRead::read::<i64>(&mut source.reader, count).ok()
}

impl View for BitSink {
    type V = Seq<bool>;

    open spec fn view(&self) -> Seq<bool> {
        sink_bits(*self)
    }
}

impl View for BitSource {
    type V = Seq<bool>;

    open spec fn view(&self) -> Seq<bool> {
        source_bits(*self)
    }
}

impl BitSink {
    /// A sink to which nothing has been written.
    pub fn new() -> (sink: BitSink)
        ensures
            sink@ == Seq::<bool>::empty(),
    {
        sink_open()
    }

    /// Pads the stream with zero bits to the next byte boundary and returns
    /// the bytes. This is the only place where padding is added.
    pub fn finish(self) -> (bytes: Vec<u8>)
        ensures
            bytes_bits(bytes@) == self@ + zero_bits(padding_len(self@.len())),
            bytes@.len() * 8 == self@.len() + padding_len(self@.len()),
    {
        let mut sink = self;
        sink_byte_align(&mut sink);
        let bytes = sink_into_bytes(sink);
        proof {
            lemma_bytes_bits_len(bytes@);
        }
        bytes
    }
}

impl BitSource {
    /// A source that hands out the bits of `bytes`, first byte first.
    pub fn new(bytes: Vec<u8>) -> (source: BitSource)
        ensures
            source@ == bytes_bits(bytes@),
    {
        source_open(bytes)
    }
}

/// A byte string has eight bits per byte.
pub proof fn lemma_bytes_bits_len(bytes: Seq<u8>)
    ensures
        bytes_bits(bytes).len() == 8 * bytes.len(),
    decreases bytes.len(),
{
    if bytes.len() > 0 {
        lemma_bytes_bits_len(bytes.drop_last());
        lemma_be_bits_len(bytes.last() as nat, 8);
    }
}

} // verus!
