//! The container header: the four bytes `tiny`, then height, width, frame
//! rate and frame count, each as 16 bits, most significant bit first.

use vstd::prelude::*;
use vstd::arithmetic::power2::lemma2_to64;
use crate::bitio::{
    be_bits, be_value, lemma_be_bits_len, lemma_be_value_bound, lemma_be_value_injective,
    lemma_be_value_of_be_bits, sink_write, source_read, BitSink, BitSource,
};
use crate::error::CodecError;

verus! {

/// The first four bytes of every stream: `tiny`.
pub const MAGIC: [u8; 4] = [0x74, 0x69, 0x6e, 0x79];

/// What the header tells about the frames that follow it.
#[derive(Clone, Copy, Debug, PartialEq, Eq, Structural)]
pub struct Header {
    pub height: u16,
    pub width: u16,
    pub frame_rate: u16,
    pub frame_count: u16,
}

/// The bits of the four magic bytes.
pub open spec fn magic_bits() -> Seq<bool> {
    be_bits(MAGIC[0] as nat, 8) + be_bits(MAGIC[1] as nat, 8) + be_bits(MAGIC[2] as nat, 8)
        + be_bits(MAGIC[3] as nat, 8)
}

/// The 96 bits of a header.
pub open spec fn header_bits(header: Header) -> Seq<bool> {
    magic_bits() + be_bits(header.height as nat, 16) + be_bits(header.width as nat, 16) + be_bits(
        header.frame_rate as nat,
        16,
    ) + be_bits(header.frame_count as nat, 16)
}

/// The header at the start of `bits` and the bits after it. `Truncated`
/// when the bits end within the magic bytes or within the fields,
/// `BadMagic` when the first four bytes are not the magic bytes.
pub open spec fn decode_header(bits: Seq<bool>) -> Result<(Header, Seq<bool>), CodecError> {
    if bits.len() < 32 {
        Err(CodecError::Truncated)
    } else if bits.take(32) != magic_bits() {
        Err(CodecError::BadMagic)
    } else if bits.len() < 96 {
        Err(CodecError::Truncated)
    } else {
        Ok(
            (
                Header {
                    height: be_value(bits.subrange(32, 48)) as u16,
                    width: be_value(bits.subrange(48, 64)) as u16,
                    frame_rate: be_value(bits.subrange(64, 80)) as u16,
                    frame_count: be_value(bits.subrange(80, 96)) as u16,
                },
                bits.skip(96),
            ),
        )
    }
}

/// Writes the header to the sink.
pub fn write_header(sink: &mut BitSink, header: &Header)
    ensures
        final(sink)@ == old(sink)@ + header_bits(*header),
{
    proof {
        lemma2_to64();
    }
    sink_write(sink, 8, MAGIC[0] as i64);
    sink_write(sink, 8, MAGIC[1] as i64);
    sink_write(sink, 8, MAGIC[2] as i64);
    sink_write(sink, 8, MAGIC[3] as i64);
    assert(sink@ =~= old(sink)@ + magic_bits());
    sink_write(sink, 16, header.height as i64);
    sink_write(sink, 16, header.width as i64);
    sink_write(sink, 16, header.frame_rate as i64);
    sink_write(sink, 16, header.frame_count as i64);
    assert(sink@ =~= old(sink)@ + header_bits(*header));
}

/// Reads the header from the source. After an error nothing is known of
/// the source.
pub fn read_header(source: &mut BitSource) -> (res: Result<Header, CodecError>)
    ensures
        match decode_header(old(source)@) {
            Ok((header, rest)) => res == Ok::<Header, CodecError>(header) && final(source)@
                == rest,
            Err(e) => res == Err::<Header, CodecError>(e),
        },
{
    let ghost bits = source@;
    let b0 = match source_read(source, 8) {
        Some(b) => b,
        None => {
            return Err(CodecError::Truncated);
        },
    };
    let b1 = match source_read(source, 8) {
        Some(b) => b,
        None => {
            return Err(CodecError::Truncated);
        },
    };
    let b2 = match source_read(source, 8) {
        Some(b) => b,
        None => {
            return Err(CodecError::Truncated);
        },
    };
    let b3 = match source_read(source, 8) {
        Some(b) => b,
        None => {
            return Err(CodecError::Truncated);
        },
    };
    assert(bits.len() >= 32);
    assert(source@ =~= bits.skip(32));
    let ghost s0 = bits.subrange(0, 8);
    let ghost s1 = bits.subrange(8, 16);
    let ghost s2 = bits.subrange(16, 24);
    let ghost s3 = bits.subrange(24, 32);
    proof {
        assert(bits.take(8) =~= s0);
        assert(bits.skip(8).take(8) =~= s1);
        assert(bits.skip(8).skip(8).take(8) =~= s2);
        assert(bits.skip(8).skip(8).skip(8).take(8) =~= s3);
        assert(bits.take(32) =~= s0 + s1 + s2 + s3);
        lemma2_to64();
        lemma_be_bits_len(MAGIC[0] as nat, 8);
        lemma_be_bits_len(MAGIC[1] as nat, 8);
        lemma_be_bits_len(MAGIC[2] as nat, 8);
        lemma_be_bits_len(MAGIC[3] as nat, 8);
        lemma_be_value_of_be_bits(MAGIC[0] as nat, 8);
        lemma_be_value_of_be_bits(MAGIC[1] as nat, 8);
        lemma_be_value_of_be_bits(MAGIC[2] as nat, 8);
        lemma_be_value_of_be_bits(MAGIC[3] as nat, 8);
        lemma_be_value_bound(s0);
        lemma_be_value_bound(s1);
        lemma_be_value_bound(s2);
        lemma_be_value_bound(s3);
    }
    if b0 != MAGIC[0] as i64 || b1 != MAGIC[1] as i64 || b2 != MAGIC[2] as i64 || b3
        != MAGIC[3] as i64 {
        proof {
            if bits.take(32) == magic_bits() {
                let m = magic_bits();
                assert(m.subrange(0, 8) =~= be_bits(MAGIC[0] as nat, 8));
                assert(m.subrange(8, 16) =~= be_bits(MAGIC[1] as nat, 8));
                assert(m.subrange(16, 24) =~= be_bits(MAGIC[2] as nat, 8));
                assert(m.subrange(24, 32) =~= be_bits(MAGIC[3] as nat, 8));
                assert(bits.take(32).subrange(0, 8) =~= s0);
                assert(bits.take(32).subrange(8, 16) =~= s1);
                assert(bits.take(32).subrange(16, 24) =~= s2);
                assert(bits.take(32).subrange(24, 32) =~= s3);
                assert(false);
            }
        }
        return Err(CodecError::BadMagic);
    }
    proof {
        lemma_be_value_injective(s0, be_bits(MAGIC[0] as nat, 8));
        lemma_be_value_injective(s1, be_bits(MAGIC[1] as nat, 8));
        lemma_be_value_injective(s2, be_bits(MAGIC[2] as nat, 8));
        lemma_be_value_injective(s3, be_bits(MAGIC[3] as nat, 8));
        assert(bits.take(32) =~= magic_bits());
    }
    let height = match source_read(source, 16) {
        Some(v) => v,
        None => {
            return Err(CodecError::Truncated);
        },
    };
    let width = match source_read(source, 16) {
        Some(v) => v,
        None => {
            return Err(CodecError::Truncated);
        },
    };
    let frame_rate = match source_read(source, 16) {
        Some(v) => v,
        None => {
            return Err(CodecError::Truncated);
        },
    };
    let frame_count = match source_read(source, 16) {
        Some(v) => v,
        None => {
            return Err(CodecError::Truncated);
        },
    };
    proof {
        assert(bits.len() >= 96);
        assert(bits.skip(32).take(16) =~= bits.subrange(32, 48));
        assert(bits.skip(32).skip(16).take(16) =~= bits.subrange(48, 64));
        assert(bits.skip(32).skip(16).skip(16).take(16) =~= bits.subrange(64, 80));
        assert(bits.skip(32).skip(16).skip(16).skip(16).take(16) =~= bits.subrange(80, 96));
        assert(source@ =~= bits.skip(96));
        lemma_be_value_bound(bits.subrange(32, 48));
        lemma_be_value_bound(bits.subrange(48, 64));
        lemma_be_value_bound(bits.subrange(64, 80));
        lemma_be_value_bound(bits.subrange(80, 96));
    }
    Ok(
        Header {
            height: height as u16,
            width: width as u16,
            frame_rate: frame_rate as u16,
            frame_count: frame_count as u16,
        },
    )
}

/// Reading back a header that was written, with anything after it, gives
/// the same four values and leaves what came after.
pub proof fn lemma_decode_header_of_header_bits(header: Header, rest: Seq<bool>)
    ensures
        decode_header(header_bits(header) + rest) == Ok::<(Header, Seq<bool>), CodecError>(
            (header, rest),
        ),
{
    let bits = header_bits(header) + rest;
    lemma2_to64();
    lemma_be_bits_len(MAGIC[0] as nat, 8);
    lemma_be_bits_len(MAGIC[1] as nat, 8);
    lemma_be_bits_len(MAGIC[2] as nat, 8);
    lemma_be_bits_len(MAGIC[3] as nat, 8);
    lemma_be_bits_len(header.height as nat, 16);
    lemma_be_bits_len(header.width as nat, 16);
    lemma_be_bits_len(header.frame_rate as nat, 16);
    lemma_be_bits_len(header.frame_count as nat, 16);
    lemma_be_value_of_be_bits(header.height as nat, 16);
    lemma_be_value_of_be_bits(header.width as nat, 16);
    lemma_be_value_of_be_bits(header.frame_rate as nat, 16);
    lemma_be_value_of_be_bits(header.frame_count as nat, 16);
    assert(bits.take(32) =~= magic_bits());
    assert(bits.subrange(32, 48) =~= be_bits(header.height as nat, 16));
    assert(bits.subrange(48, 64) =~= be_bits(header.width as nat, 16));
    assert(bits.subrange(64, 80) =~= be_bits(header.frame_rate as nat, 16));
    assert(bits.subrange(80, 96) =~= be_bits(header.frame_count as nat, 16));
    assert(bits.skip(96) =~= rest);
}

} // verus!
