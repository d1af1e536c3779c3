//! What is written to a stream is read back exactly.

use vstd::prelude::*;
use crate::blocks::block_count;
use crate::blocks::blocks_of_plane;
use crate::entropy::{are_codable_blocks, blocks_bits, frame_bits, EncodedFrame};
use crate::entropy_laws::lemma_decode_blocks_of_blocks_bits;
use crate::error::CodecError;
use crate::frame::{
    channel_samples, chroma_block_count, decode_frame_bits, lemma_unzigzagged_zigzagged,
    lemma_zigzagged_codable, unzigzagged, zigzagged,
};
use crate::header::{header_bits, lemma_decode_header_of_header_bits, Header};
use crate::stream::{
    decode_frames_bits, decode_stream_bits, frames_bits, is_codable_frame,
    stream_bits, FrameBlocks,
};

verus! {

/// The frame holds as many blocks in each grid as are read for a frame of
/// `height x width` pixels.
pub open spec fn fills_frame(frame: EncodedFrame, height: nat, width: nat) -> bool {
    &&& frame.y@.len() == block_count(height, width)
    &&& frame.u@.len() == chroma_block_count(height, width)
    &&& frame.v@.len() == chroma_block_count(height, width)
}

/// The blocks of each frame of the list, as the decoder hands them out.
pub open spec fn blocks_of_frames(frames: Seq<EncodedFrame>) -> Seq<FrameBlocks> {
    Seq::new(frames.len(), |k: int| (frames[k].y@, frames[k].u@, frames[k].v@))
}

/// When both sides of a frame are multiples of 16, each chroma plane of
/// half the size is cut into exactly the number of blocks that is read for
/// it.
pub proof fn lemma_chroma_block_count(height: nat, width: nat)
    requires
        height % 16 == 0,
        width % 16 == 0,
    ensures
        block_count(height / 2, width / 2) == chroma_block_count(height, width),
        block_count((height + 1) / 2, (width + 1) / 2) == chroma_block_count(height, width),
{
    let a = height / 16;
    let b = width / 16;
    assert(height / 8 == 2 * a && width / 8 == 2 * b);
    assert(height / 2 / 8 == a && width / 2 / 8 == b);
    assert((height + 1) / 2 == height / 2 && (width + 1) / 2 == width / 2);
    assert((2 * a) * (2 * b) == 4 * (a * b)) by (nonlinear_arith);
}

/// Decoding the bits of three lists of blocks, written one after the
/// other, with anything after them, gives the three lists and leaves what
/// came after.
pub proof fn lemma_decode_frame_of_blocks_bits(
    y: Seq<Seq<i64>>,
    u: Seq<Seq<i64>>,
    v: Seq<Seq<i64>>,
    height: nat,
    width: nat,
    rest: Seq<bool>,
)
    requires
        are_codable_blocks(y),
        are_codable_blocks(u),
        are_codable_blocks(v),
        y.len() == block_count(height, width),
        u.len() == chroma_block_count(height, width),
        v.len() == chroma_block_count(height, width),
    ensures
        decode_frame_bits(blocks_bits(y) + blocks_bits(u) + blocks_bits(v) + rest, height, width)
            == Ok::<(Seq<Seq<i64>>, Seq<Seq<i64>>, Seq<Seq<i64>>, Seq<bool>), CodecError>(
            (y, u, v, rest),
        ),
{
    let after_u = blocks_bits(v) + rest;
    let after_y = blocks_bits(u) + after_u;
    assert(blocks_bits(y) + blocks_bits(u) + blocks_bits(v) + rest =~= blocks_bits(y) + after_y);
    lemma_decode_blocks_of_blocks_bits(y, after_y);
    lemma_decode_blocks_of_blocks_bits(u, after_u);
    lemma_decode_blocks_of_blocks_bits(v, rest);
}

/// A frame that was written is read back exactly: for quantized blocks in
/// raster order that can be written and are as many as a frame of `height
/// x width` pixels has, decoding the bits of their zigzag orderings, with
/// anything after them, succeeds, leaves what came after, and gives blocks
/// that are the written ones once they are back in raster order.
pub proof fn lemma_written_frame_reads_back(
    y: Seq<Seq<i64>>,
    u: Seq<Seq<i64>>,
    v: Seq<Seq<i64>>,
    height: nat,
    width: nat,
    rest: Seq<bool>,
)
    requires
        are_codable_blocks(y),
        are_codable_blocks(u),
        are_codable_blocks(v),
        y.len() == block_count(height, width),
        u.len() == chroma_block_count(height, width),
        v.len() == chroma_block_count(height, width),
    ensures
        decode_frame_bits(
            blocks_bits(zigzagged(y)) + blocks_bits(zigzagged(u)) + blocks_bits(zigzagged(v))
                + rest,
            height,
            width,
        ) == Ok::<(Seq<Seq<i64>>, Seq<Seq<i64>>, Seq<Seq<i64>>, Seq<bool>), CodecError>(
            (zigzagged(y), zigzagged(u), zigzagged(v), rest),
        ),
        unzigzagged(zigzagged(y)) == y,
        unzigzagged(zigzagged(u)) == u,
        unzigzagged(zigzagged(v)) == v,
{
    lemma_zigzagged_codable(y);
    lemma_zigzagged_codable(u);
    lemma_zigzagged_codable(v);
    lemma_decode_frame_of_blocks_bits(
        zigzagged(y),
        zigzagged(u),
        zigzagged(v),
        height,
        width,
        rest,
    );
    lemma_unzigzagged_zigzagged(y);
    lemma_unzigzagged_zigzagged(u);
    lemma_unzigzagged_zigzagged(v);
}

/// A frame whose sides are multiples of 16 is cut into exactly as many
/// blocks per plane as are read for a frame of its size, so that its
/// blocks, once written, are read back without one too many or too few.
pub proof fn lemma_frame_blocks_fill(frame: Seq<Seq<Seq<u8>>>, width: nat)
    requires
        frame.len() % 16 == 0,
        width % 16 == 0,
    ensures
        blocks_of_plane(channel_samples(frame, width, 0, 1), width).len() == block_count(
            frame.len(),
            width,
        ),
        blocks_of_plane(channel_samples(frame, width, 1, 2), (width + 1) / 2).len()
            == chroma_block_count(frame.len(), width),
        blocks_of_plane(channel_samples(frame, width, 2, 2), (width + 1) / 2).len()
            == chroma_block_count(frame.len(), width),
{
    lemma_chroma_block_count(frame.len(), width);
}

/// Decoding the bits of a frame, with anything after them, gives the
/// frame's blocks and leaves what came after.
pub proof fn lemma_decode_frame_of_frame_bits(
    frame: EncodedFrame,
    height: nat,
    width: nat,
    rest: Seq<bool>,
)
    requires
        is_codable_frame(frame),
        fills_frame(frame, height, width),
    ensures
        decode_frame_bits(frame_bits(frame) + rest, height, width) == Ok::<
            (Seq<Seq<i64>>, Seq<Seq<i64>>, Seq<Seq<i64>>, Seq<bool>),
            CodecError,
        >((frame.y@, frame.u@, frame.v@, rest)),
{
    lemma_decode_frame_of_blocks_bits(frame.y@, frame.u@, frame.v@, height, width, rest);
}

/// Every frame of the list can be written and holds as many blocks as are
/// read for a frame of `height x width` pixels.
pub open spec fn are_fit_frames(frames: Seq<EncodedFrame>, height: nat, width: nat) -> bool {
    forall|k: int|
        0 <= k < frames.len() ==> is_codable_frame(#[trigger] frames[k]) && fills_frame(
            frames[k],
            height,
            width,
        )
}

/// What holds of a list of frames holds of the list without its last frame
/// and of the last frame.
pub proof fn lemma_fit_frames_split(frames: Seq<EncodedFrame>, height: nat, width: nat)
    requires
        are_fit_frames(frames, height, width),
        frames.len() > 0,
    ensures
        are_fit_frames(frames.drop_last(), height, width),
        is_codable_frame(frames.last()),
        fills_frame(frames.last(), height, width),
        frames_bits(frames) == frames_bits(frames.drop_last()) + frame_bits(frames.last()),
        blocks_of_frames(frames) == blocks_of_frames(frames.drop_last()).push(
            (frames.last().y@, frames.last().u@, frames.last().v@),
        ),
{
    let front = frames.drop_last();
    assert forall|k: int| 0 <= k < front.len() implies is_codable_frame(#[trigger] front[k])
        && fills_frame(front[k], height, width) by {
        assert(front[k] == frames[k]);
    }
    assert(frames.last() == frames[frames.len() - 1]);
    assert(blocks_of_frames(frames) =~= blocks_of_frames(front).push(
        (frames.last().y@, frames.last().u@, frames.last().v@),
    ));
}

/// Decoding the bits of a list of frames, with anything after them, gives
/// the blocks of every frame and leaves what came after.
pub proof fn lemma_decode_frames_of_frames_bits(
    frames: Seq<EncodedFrame>,
    height: nat,
    width: nat,
    rest: Seq<bool>,
)
    requires
        are_fit_frames(frames, height, width),
    ensures
        decode_frames_bits(frames_bits(frames) + rest, height, width, frames.len()) == Ok::<
            (Seq<FrameBlocks>, Seq<bool>),
            CodecError,
        >((blocks_of_frames(frames), rest)),
    decreases frames.len(),
{
    if frames.len() == 0 {
        assert(frames_bits(frames) + rest =~= rest);
        assert(blocks_of_frames(frames) =~= Seq::<FrameBlocks>::empty());
    } else {
        let front = frames.drop_last();
        let last = frames.last();
        let tail = frame_bits(last) + rest;
        let bits = frames_bits(frames) + rest;
        lemma_fit_frames_split(frames, height, width);
        assert(bits =~= frames_bits(front) + tail);
        lemma_decode_frames_of_frames_bits(front, height, width, tail);
        lemma_decode_frame_of_frame_bits(last, height, width, rest);
        assert(decode_frames_bits(bits, height, width, front.len()) == Ok::<
            (Seq<FrameBlocks>, Seq<bool>),
            CodecError,
        >((blocks_of_frames(front), tail)));
        assert((frames.len() - 1) as nat == front.len());
    }
}

/// Decoding a stream that was written, with its padding or anything else
/// after it, gives the header and the blocks of every frame, exactly as
/// they were written.
pub proof fn lemma_decode_stream_of_stream_bits(
    header: Header,
    frames: Seq<EncodedFrame>,
    rest: Seq<bool>,
)
    requires
        header.height * header.width * 8 <= isize::MAX,
        frames.len() == header.frame_count,
        are_fit_frames(frames, header.height as nat, header.width as nat),
    ensures
        decode_stream_bits(stream_bits(header, frames) + rest) == Ok::<
            (Header, Seq<FrameBlocks>),
            CodecError,
        >((header, blocks_of_frames(frames))),
{
    let tail = frames_bits(frames) + rest;
    assert(stream_bits(header, frames) + rest =~= header_bits(header) + tail);
    lemma_decode_header_of_header_bits(header, tail);
    lemma_decode_frames_of_frames_bits(frames, header.height as nat, header.width as nat, rest);
}

} // verus!
