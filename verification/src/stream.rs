//! The whole stream: the header, then the blocks of every frame in order,
//! then zero bits up to the next byte boundary.
//!
//! Nothing separates frames, planes or blocks, and nothing is aligned
//! before the end. A stream can therefore only be read from its start.

use vstd::prelude::*;
use crate::bitio::{bytes_bits, padding_len, zero_bits, BitSink, BitSource};
use crate::entropy::{are_codable_blocks, entropy_encode, frame_bits, EncodedFrame};
use crate::error::CodecError;
use crate::frame::{decode_frame_bits, decode_frame_blocks, unzigzagged};
use crate::header::{decode_header, header_bits, read_header, write_header, Header};
use crate::huffman::HuffmanTable;

verus! {

/// A frame whose grids are whole and can be written by the entropy coder.
pub open spec fn is_codable_frame(frame: EncodedFrame) -> bool {
    &&& frame.y.wf()
    &&& frame.u.wf()
    &&& frame.v.wf()
    &&& are_codable_blocks(frame.y@)
    &&& are_codable_blocks(frame.u@)
    &&& are_codable_blocks(frame.v@)
}

/// Every frame of the list can be written.
pub open spec fn are_codable_frames(frames: Seq<EncodedFrame>) -> bool {
    forall|k: int| 0 <= k < frames.len() ==> is_codable_frame(#[trigger] frames[k])
}

/// The bits of a list of frames, one after the other with nothing between.
pub open spec fn frames_bits(frames: Seq<EncodedFrame>) -> Seq<bool>
    decreases frames.len(),
{
    if frames.len() == 0 {
        Seq::empty()
    } else {
        frames_bits(frames.drop_last()) + frame_bits(frames.last())
    }
}

/// The bits of a stream before padding: the header, then the frames.
pub open spec fn stream_bits(header: Header, frames: Seq<EncodedFrame>) -> Seq<bool> {
    header_bits(header) + frames_bits(frames)
}

/// The blocks of one decoded frame: luma, then both chroma planes.
pub type FrameBlocks = (Seq<Seq<i64>>, Seq<Seq<i64>>, Seq<Seq<i64>>);

/// What decoding `count` frames of `height x width` pixels from `bits`
/// gives: the blocks of each frame, still in zigzag order, and the bits
/// after them; or the first error met.
pub open spec fn decode_frames_bits(bits: Seq<bool>, height: nat, width: nat, count: nat) -> Result<
    (Seq<FrameBlocks>, Seq<bool>),
    CodecError,
>
    decreases count,
{
    if count == 0 {
        Ok((Seq::empty(), bits))
    } else {
        match decode_frames_bits(bits, height, width, (count - 1) as nat) {
            Err(e) => Err(e),
            Ok((frames, rest)) => match decode_frame_bits(rest, height, width) {
                Err(e) => Err(e),
                Ok((y, u, v, after)) => Ok((frames.push((y, u, v)), after)),
            },
        }
    }
}

/// What decoding a whole stream gives: the header and the blocks of every
/// frame it announces, still in zigzag order; or the first error met.
/// `TooLarge` when eight bytes per pixel of one frame exceed `isize::MAX`.
/// Bits after the last frame, such as the padding, are not looked at.
pub open spec fn decode_stream_bits(bits: Seq<bool>) -> Result<
    (Header, Seq<FrameBlocks>),
    CodecError,
> {
    match decode_header(bits) {
        Err(e) => Err(e),
        Ok((header, rest)) => if header.height * header.width * 8 > isize::MAX {
            Err(CodecError::TooLarge)
        } else {
            match decode_frames_bits(
                rest,
                header.height as nat,
                header.width as nat,
                header.frame_count as nat,
            ) {
                Err(e) => Err(e),
                Ok((frames, after)) => Ok((header, frames)),
            }
        },
    }
}

/// The grids of `frame` hold the blocks `blocks`, put back in raster order.
pub open spec fn holds_unzigzagged(frame: EncodedFrame, blocks: FrameBlocks) -> bool {
    &&& frame.y.wf()
    &&& frame.u.wf()
    &&& frame.v.wf()
    &&& frame.y@ == unzigzagged(blocks.0)
    &&& frame.u@ == unzigzagged(blocks.1)
    &&& frame.v@ == unzigzagged(blocks.2)
}

/// Frame by frame, the grids of `frames` hold the blocks `blocks`, put back
/// in raster order.
pub open spec fn all_hold_unzigzagged(frames: Seq<EncodedFrame>, blocks: Seq<FrameBlocks>) -> bool {
    &&& frames.len() == blocks.len()
    &&& forall|k: int|
        0 <= k < frames.len() ==> holds_unzigzagged(#[trigger] frames[k], blocks[k])
}

/// Writes the entropy-coded blocks of every frame to the sink, in order.
pub fn encode_frames(frames: &Vec<EncodedFrame>, sink: &mut BitSink, codebook: &HuffmanTable)
    requires
        codebook.wf(),
        are_codable_frames(frames@),
    ensures
        final(sink)@ == old(sink)@ + frames_bits(frames@),
{
    let mut k: usize = 0;
    assert(sink@ + frames_bits(frames@.take(0)) =~= sink@);
    while k < frames.len()
        invariant
            codebook.wf(),
            are_codable_frames(frames@),
            k <= frames@.len(),
            sink@ == old(sink)@ + frames_bits(frames@.take(k as int)),
        decreases frames@.len() - k,
    {
        assert(is_codable_frame(frames@[k as int]));
        entropy_encode(&frames[k], sink, codebook);
        proof {
            let next = frames@.take(k as int + 1);
            assert(next.drop_last() =~= frames@.take(k as int));
            assert(next.last() == frames@[k as int]);
            assert(sink@ =~= old(sink)@ + frames_bits(next));
        }
        k += 1;
    }
    assert(frames@.take(frames@.len() as int) =~= frames@);
}

/// The bytes of a whole stream: the header, the frames in order, and zero
/// bits up to the next byte boundary.
pub fn encode_stream(header: &Header, frames: &Vec<EncodedFrame>, codebook: &HuffmanTable) -> (bytes:
    Vec<u8>)
    requires
        codebook.wf(),
        are_codable_frames(frames@),
    ensures
        bytes_bits(bytes@) == stream_bits(*header, frames@) + zero_bits(
            padding_len(stream_bits(*header, frames@).len()),
        ),
{
    let mut sink = BitSink::new();
    write_header(&mut sink, header);
    encode_frames(frames, &mut sink, codebook);
    assert(sink@ =~= stream_bits(*header, frames@));
    sink.finish()
}

/// Reads the blocks of `count` frames of `height x width` pixels from the
/// source and puts every block back in raster order. After an error
/// nothing is known of the source.
pub fn decode_frames(
    source: &mut BitSource,
    codebook: &HuffmanTable,
    height: usize,
    width: usize,
    count: usize,
) -> (res: Result<Vec<EncodedFrame>, CodecError>)
    requires
        codebook.wf(),
        height * width * 8 <= isize::MAX,
    ensures
        match decode_frames_bits(old(source)@, height as nat, width as nat, count as nat) {
            Ok((blocks, rest)) => res matches Ok(frames) && all_hold_unzigzagged(frames@, blocks)
                && final(source)@ == rest,
            Err(e) => res matches Err(f) && f == e,
        },
{
    let mut frames: Vec<EncodedFrame> = Vec::new();
    let ghost mut decoded: Seq<FrameBlocks> = Seq::empty();
    let mut k: usize = 0;
    while k < count
        invariant
            codebook.wf(),
            height * width * 8 <= isize::MAX,
            k <= count,
            frames@.len() == k,
            all_hold_unzigzagged(frames@, decoded),
            decode_frames_bits(old(source)@, height as nat, width as nat, k as nat) == Ok::<
                (Seq<FrameBlocks>, Seq<bool>),
                CodecError,
            >((decoded, source@)),
        decreases count - k,
    {
        let ghost bits = source@;
        match decode_frame_blocks(source, codebook, height, width) {
            Ok(frame) => {
                proof {
                    let found = decode_frame_bits(bits, height as nat, width as nat).unwrap();
                    decoded = decoded.push((found.0, found.1, found.2));
                }
                frames.push(frame);
            },
            Err(e) => {
                proof {
                    lemma_decode_frames_error_stays(
                        old(source)@,
                        height as nat,
                        width as nat,
                        (k + 1) as nat,
                        count as nat,
                    );
                }
                return Err(e);
            },
        }
        k += 1;
    }
    Ok(frames)
}

/// Reads a whole stream: the header, then the blocks of every frame that
/// the header announces, each block put back in raster order.
pub fn decode_stream(bytes: Vec<u8>, codebook: &HuffmanTable) -> (res: Result<
    (Header, Vec<EncodedFrame>),
    CodecError,
>)
    requires
        codebook.wf(),
    ensures
        match decode_stream_bits(bytes_bits(bytes@)) {
            Ok((header, blocks)) => res matches Ok((h, frames)) && h == header
                && all_hold_unzigzagged(frames@, blocks),
            Err(e) => res matches Err(f) && f == e,
        },
{
    let mut source = BitSource::new(bytes);
    let header = match read_header(&mut source) {
        Ok(header) => header,
        Err(e) => {
            return Err(e);
        },
    };
    let height = header.height as u64;
    let width = header.width as u64;
    assert(height * width <= 0xffff * 0xffff) by (nonlinear_arith)
        requires
            0 <= height <= 0xffff,
            0 <= width <= 0xffff,
    ;
    let pixels: u64 = height * width;
    if pixels * 8 > isize::MAX as u64 {
        return Err(CodecError::TooLarge);
    }
    assert(header.height * header.width * 8 <= isize::MAX);
    let frames = match decode_frames(
        &mut source,
        codebook,
        header.height as usize,
        header.width as usize,
        header.frame_count as usize,
    ) {
        Ok(frames) => frames,
        Err(e) => {
            return Err(e);
        },
    };
    Ok((header, frames))
}

/// Once decoding fails after some number of frames, it fails in the same
/// way for every larger number.
pub proof fn lemma_decode_frames_error_stays(
    bits: Seq<bool>,
    height: nat,
    width: nat,
    failed: nat,
    count: nat,
)
    requires
        failed <= count,
        decode_frames_bits(bits, height, width, failed) is Err,
    ensures
        decode_frames_bits(bits, height, width, count) == decode_frames_bits(
            bits,
            height,
            width,
            failed,
        ),
    decreases count,
{
    if failed < count {
        lemma_decode_frames_error_stays(bits, height, width, failed, (count - 1) as nat);
    }
}

} // verus!
