//! Frames to planes and block grids, and back.
//!
//! The luma plane is channel 0 at full resolution. Each chroma plane is
//! channel 1 or 2 sampled at every second row and column (4:2:0). On the
//! way back every chroma sample serves the 2x2 luma samples that it was
//! taken for.

use vstd::prelude::*;
use crate::blocks::{
    block_count, blocks_of_plane, plane_of_blocks, reshape_into_blocks, reshape_into_plane,
};
use crate::entropy::{
    are_codable_blocks, blocks_bits, decode_blocks, entropy_decode, entropy_encode,
    is_codable_block, EncodedFrame,
};
use crate::error::CodecError;
use crate::bitio::{BitSink, BitSource};
use crate::grid::all_within;
use crate::huffman::HuffmanTable;
use crate::image::{axis_len, frame_fits, plane_fits, Frame, Plane};
use crate::tables::{lemma_scan_is_permutation, SCAN_ORDER_TABLE, UNSCAN_ORDER_TABLE};
use crate::transform::{
    center_samples, centered_blocks, dequantize, dequantized_blocks, lemma_small_products_fit,
    restore_samples, restored_blocks,
};
use crate::zigzag::{
    from_zigzag, lemma_from_zigzag_to_zigzag, to_zigzag, unzigzag_order, zigzag_order,
};

verus! {

/// Channel `channel` of a frame, sampled at every `step`-th row and column.
pub open spec fn channel_samples(
    frame: Seq<Seq<Seq<u8>>>,
    width: nat,
    channel: int,
    step: int,
) -> Seq<Seq<u8>> {
    Seq::new(
        ((frame.len() + step - 1) / step) as nat,
        |i: int|
            Seq::new(
                ((width + step - 1) / step) as nat,
                |j: int| frame[step * i][step * j][channel],
            ),
    )
}

/// The frame of `height x width` pixels whose first channel is the plane
/// `y` and whose second and third channels repeat every sample of `u` and
/// of `v` over two rows and two columns.
pub open spec fn merged_samples(
    height: nat,
    width: nat,
    y: Seq<Seq<u8>>,
    u: Seq<Seq<u8>>,
    v: Seq<Seq<u8>>,
) -> Seq<Seq<Seq<u8>>> {
    Seq::new(
        height,
        |i: int| Seq::new(width, |j: int| seq![y[i][j], u[i / 2][j / 2], v[i / 2][j / 2]]),
    )
}

/// The number of blocks read for each chroma plane of a `height x width`
/// frame: a quarter of the number of luma blocks, rounded down.
pub open spec fn chroma_block_count(height: nat, width: nat) -> nat {
    block_count(height, width) / 4
}

/// What decoding the blocks of one frame gives: the luma blocks, the blocks
/// of both chroma planes, all still in zigzag order, and the bits after
/// them; or the first error met.
pub open spec fn decode_frame_bits(bits: Seq<bool>, height: nat, width: nat) -> Result<
    (Seq<Seq<i64>>, Seq<Seq<i64>>, Seq<Seq<i64>>, Seq<bool>),
    CodecError,
> {
    match decode_blocks(bits, block_count(height, width)) {
        Err(e) => Err(e),
        Ok((y, after_y)) => match decode_blocks(after_y, chroma_block_count(height, width)) {
            Err(e) => Err(e),
            Ok((u, after_u)) => match decode_blocks(after_u, chroma_block_count(height, width)) {
                Err(e) => Err(e),
                Ok((v, after_v)) => Ok((y, u, v, after_v)),
            },
        },
    }
}

/// Every block of the list put back in raster order.
pub open spec fn unzigzagged(blocks: Seq<Seq<i64>>) -> Seq<Seq<i64>> {
    Seq::new(blocks.len(), |n: int| from_zigzag(blocks[n]))
}

/// Every block of the list put in zigzag order.
pub open spec fn zigzagged(blocks: Seq<Seq<i64>>) -> Seq<Seq<i64>> {
    Seq::new(blocks.len(), |n: int| to_zigzag(blocks[n]))
}

/// Copies one channel of a frame into a plane, taking every `step`-th row
/// and column.
pub fn extract_plane(frame: &Frame, channel: usize, step: usize) -> (plane: Plane)
    requires
        frame.wf(),
        channel < 3,
        1 <= step <= 2,
    ensures
        plane.wf(),
        plane@ == channel_samples(frame@, frame.spec_width(), channel as int, step as int),
        plane.spec_height() == (frame.spec_height() + step - 1) / (step as int),
        plane.spec_width() == (frame.spec_width() + step - 1) / (step as int),
{
    let height = frame.height();
    let width = frame.width();
    let rows = if step == 1 {
        height
    } else {
        height / 2 + height % 2
    };
    let cols = if step == 1 {
        width
    } else {
        width / 2 + width % 2
    };
    assert(axis_len(rows as int) * axis_len(cols as int) <= axis_len(height as int) * axis_len(
        width as int,
    ) * 3) by (nonlinear_arith)
        requires
            1 <= axis_len(rows as int) <= axis_len(height as int),
            1 <= axis_len(cols as int) <= axis_len(width as int),
    ;
    let ghost target = channel_samples(frame@, frame.spec_width(), channel as int, step as int);
    let mut plane = Plane::new(rows, cols);
    let mut i: usize = 0;
    while i < rows
        invariant
            frame.wf(),
            channel < 3,
            1 <= step <= 2,
            height == frame.spec_height(),
            width == frame.spec_width(),
            rows == (height + step - 1) / (step as int),
            cols == (width + step - 1) / (step as int),
            target == channel_samples(frame@, frame.spec_width(), channel as int, step as int),
            plane.wf(),
            plane.spec_height() == rows,
            plane.spec_width() == cols,
            i <= rows,
            forall|r: int| 0 <= r < i ==> #[trigger] plane@[r] == target[r],
        decreases rows - i,
    {
        let mut j: usize = 0;
        while j < cols
            invariant
                frame.wf(),
                channel < 3,
                1 <= step <= 2,
                height == frame.spec_height(),
                width == frame.spec_width(),
                rows == (height + step - 1) / (step as int),
                cols == (width + step - 1) / (step as int),
                target == channel_samples(frame@, frame.spec_width(), channel as int, step as int),
                plane.wf(),
                plane.spec_height() == rows,
                plane.spec_width() == cols,
                i < rows,
                j <= cols,
                forall|r: int| 0 <= r < i ==> #[trigger] plane@[r] == target[r],
                forall|c: int| 0 <= c < j ==> #[trigger] plane@[i as int][c] == target[i as int][c],
            decreases cols - j,
        {
            let from_row = if step == 1 {
                i
            } else {
                2 * i
            };
            let from_col = if step == 1 {
                j
            } else {
                2 * j
            };
            assert(from_row == step * i && from_col == step * j);
            plane.set(i, j, frame.get(from_row, from_col, channel));
            j += 1;
        }
        assert(plane@[i as int] =~= target[i as int]);
        i += 1;
    }
    assert(plane@ =~= target);
    plane
}

/// Cuts a frame into its three block grids: the luma plane at full
/// resolution, each chroma plane at half resolution. Rows and columns
/// beyond the last whole block of a plane are left out.
pub fn partition_frame(frame: &Frame) -> (blocks: EncodedFrame)
    requires
        frame.wf(),
        frame.spec_height() * frame.spec_width() * 8 <= isize::MAX,
    ensures
        blocks.y.wf(),
        blocks.u.wf(),
        blocks.v.wf(),
        blocks.y@ == blocks_of_plane(
            channel_samples(frame@, frame.spec_width(), 0, 1),
            frame.spec_width(),
        ),
        blocks.u@ == blocks_of_plane(
            channel_samples(frame@, frame.spec_width(), 1, 2),
            (frame.spec_width() + 1) / 2,
        ),
        blocks.v@ == blocks_of_plane(
            channel_samples(frame@, frame.spec_width(), 2, 2),
            (frame.spec_width() + 1) / 2,
        ),
        all_within(blocks.y@, 0, 255),
        all_within(blocks.u@, 0, 255),
        all_within(blocks.v@, 0, 255),
{
    let ghost h = frame.spec_height() as int;
    let ghost w = frame.spec_width() as int;
    proof {
        assert(h * w <= isize::MAX) by (nonlinear_arith)
            requires
                h * w * 8 <= isize::MAX,
                h >= 0,
                w >= 0,
        ;
        lemma_block_count_bound(h as nat, w as nat);
        lemma_block_count_bound(((h + 1) / 2) as nat, ((w + 1) / 2) as nat);
        assert(((h + 1) / 2) * ((w + 1) / 2) <= h * w) by (nonlinear_arith)
            requires
                h >= 0,
                w >= 0,
                (h + 1) / 2 <= h,
                (w + 1) / 2 <= w,
                0 <= (h + 1) / 2,
                0 <= (w + 1) / 2,
        ;
    }
    let y = extract_plane(frame, 0, 1);
    let u = extract_plane(frame, 1, 2);
    let v = extract_plane(frame, 2, 2);
    let y_blocks = reshape_into_blocks(&y);
    let u_blocks = reshape_into_blocks(&u);
    let v_blocks = reshape_into_blocks(&v);
    EncodedFrame { y: y_blocks, u: u_blocks, v: v_blocks }
}

/// A plane is cut into at most an eighth of a block per eight samples:
/// 64 times the number of blocks is at most the number of samples.
pub proof fn lemma_block_count_bound(height: nat, width: nat)
    ensures
        block_count(height, width) * 64 <= height * width,
{
    let by = height / 8;
    let bx = width / 8;
    assert((by * bx) * 64 <= height * width) by (nonlinear_arith)
        requires
            by * 8 <= height,
            bx * 8 <= width,
    ;
}

/// Merges a luma plane and two chroma planes of half its size into a frame.
pub fn merge_planes(height: usize, width: usize, y: &Plane, u: &Plane, v: &Plane) -> (frame:
    Frame)
    requires
        y.wf(),
        u.wf(),
        v.wf(),
        frame_fits(height as int, width as int),
        y.spec_height() == height,
        y.spec_width() == width,
        u.spec_height() * 2 >= height,
        u.spec_width() * 2 >= width,
        v.spec_height() * 2 >= height,
        v.spec_width() * 2 >= width,
    ensures
        frame.wf(),
        frame.spec_height() == height,
        frame.spec_width() == width,
        frame@ == merged_samples(height as nat, width as nat, y@, u@, v@),
{
    let ghost target = merged_samples(height as nat, width as nat, y@, u@, v@);
    let mut frame = Frame::new(height, width);
    let mut i: usize = 0;
    while i < height
        invariant
            y.wf(),
            u.wf(),
            v.wf(),
            y.spec_height() == height,
            y.spec_width() == width,
            u.spec_height() * 2 >= height,
            u.spec_width() * 2 >= width,
            v.spec_height() * 2 >= height,
            v.spec_width() * 2 >= width,
            target == merged_samples(height as nat, width as nat, y@, u@, v@),
            frame.wf(),
            frame.spec_height() == height,
            frame.spec_width() == width,
            i <= height,
            forall|r: int| 0 <= r < i ==> #[trigger] frame@[r] == target[r],
        decreases height - i,
    {
        let mut j: usize = 0;
        while j < width
            invariant
                y.wf(),
                u.wf(),
                v.wf(),
                y.spec_height() == height,
                y.spec_width() == width,
                u.spec_height() * 2 >= height,
                u.spec_width() * 2 >= width,
                v.spec_height() * 2 >= height,
                v.spec_width() * 2 >= width,
                target == merged_samples(height as nat, width as nat, y@, u@, v@),
                frame.wf(),
                frame.spec_height() == height,
                frame.spec_width() == width,
                i < height,
                j <= width,
                forall|r: int| 0 <= r < i ==> #[trigger] frame@[r] == target[r],
                forall|c: int| 0 <= c < j ==> #[trigger] frame@[i as int][c] == target[i as int][c],
            decreases width - j,
        {
            frame.set(i, j, 0, y.get(i, j));
            frame.set(i, j, 1, u.get(i / 2, j / 2));
            frame.set(i, j, 2, v.get(i / 2, j / 2));
            assert(frame@[i as int][j as int] =~= target[i as int][j as int]);
            j += 1;
        }
        assert(frame@[i as int] =~= target[i as int]);
        i += 1;
    }
    assert(frame@ =~= target);
    frame
}

/// Puts the three block grids of a frame, which hold samples, back
/// together as a frame of `height x width` pixels. Both sides must be even,
/// so that every pixel has a chroma sample.
pub fn assemble_frame(height: usize, width: usize, blocks: &EncodedFrame) -> (frame: Frame)
    requires
        blocks.y.wf(),
        blocks.u.wf(),
        blocks.v.wf(),
        height % 2 == 0,
        width % 2 == 0,
        frame_fits(height as int, width as int),
        blocks.y@.len() >= block_count(height as nat, width as nat),
        blocks.u@.len() >= block_count((height / 2) as nat, (width / 2) as nat),
        blocks.v@.len() >= block_count((height / 2) as nat, (width / 2) as nat),
    ensures
        frame.wf(),
        frame.spec_height() == height,
        frame.spec_width() == width,
        frame@ == merged_samples(
            height as nat,
            width as nat,
            plane_of_blocks(height as nat, width as nat, blocks.y@),
            plane_of_blocks((height / 2) as nat, (width / 2) as nat, blocks.u@),
            plane_of_blocks((height / 2) as nat, (width / 2) as nat, blocks.v@),
        ),
{
    assert(plane_fits(height as int, width as int) && plane_fits(
        (height / 2) as int,
        (width / 2) as int,
    )) by (nonlinear_arith)
        requires
            axis_len(height as int) * axis_len(width as int) * 3 <= isize::MAX,
            1 <= axis_len((height / 2) as int) <= axis_len(height as int),
            1 <= axis_len((width / 2) as int) <= axis_len(width as int),
    ;
    let y = reshape_into_plane(height, width, &blocks.y);
    let u = reshape_into_plane(height / 2, width / 2, &blocks.u);
    let v = reshape_into_plane(height / 2, width / 2, &blocks.v);
    merge_planes(height, width, &y, &u, &v)
}

/// Reads the blocks of one frame of `height x width` pixels from the
/// source, luma first, then each chroma plane, and puts every block back
/// in raster order. After an error nothing is known of the source.
pub fn decode_frame_blocks(
    reader: &mut BitSource,
    codebook: &HuffmanTable,
    height: usize,
    width: usize,
) -> (res: Result<EncodedFrame, CodecError>)
    requires
        codebook.wf(),
        height * width * 8 <= isize::MAX,
    ensures
        match decode_frame_bits(old(reader)@, height as nat, width as nat) {
            Ok((y, u, v, rest)) => res matches Ok(frame) && frame.y.wf() && frame.u.wf()
                && frame.v.wf() && frame.y@ == unzigzagged(y) && frame.u@ == unzigzagged(u)
                && frame.v@ == unzigzagged(v) && final(reader)@ == rest,
            Err(e) => res matches Err(f) && f == e,
        },
        res matches Ok(frame) ==> all_within(frame.y@, -2047, 2047) && all_within(
            frame.u@,
            -2047,
            2047,
        ) && all_within(frame.v@, -2047, 2047),
{
    let hblocks = height / 8;
    let wblocks = width / 8;
    proof {
        lemma_block_count_bound(height as nat, width as nat);
        assert(height * width <= isize::MAX) by (nonlinear_arith)
            requires
                height * width * 8 <= isize::MAX,
                height >= 0,
                width >= 0,
        ;
    }
    let luma_count = hblocks * wblocks;
    let chroma_count = luma_count / 4;
    let mut y = match entropy_decode(reader, codebook, luma_count) {
        Ok(grid) => grid,
        Err(e) => {
            return Err(e);
        },
    };
    let mut u = match entropy_decode(reader, codebook, chroma_count) {
        Ok(grid) => grid,
        Err(e) => {
            return Err(e);
        },
    };
    let mut v = match entropy_decode(reader, codebook, chroma_count) {
        Ok(grid) => grid,
        Err(e) => {
            return Err(e);
        },
    };
    let ghost zy = y@;
    let ghost zu = u@;
    let ghost zv = v@;
    unzigzag_order(&mut y);
    unzigzag_order(&mut u);
    unzigzag_order(&mut v);
    assert(y@ =~= unzigzagged(zy));
    assert(u@ =~= unzigzagged(zu));
    assert(v@ =~= unzigzagged(zv));
    proof {
        lemma_unzigzagged_within(zy);
        lemma_unzigzagged_within(zu);
        lemma_unzigzagged_within(zv);
    }
    Ok(EncodedFrame { y, u, v })
}

/// Two frames that agree wherever both have a pixel, and whose planes hold
/// the same numbers of whole blocks, are cut into the same blocks: rows
/// and columns beyond the last whole block are ignored.
pub proof fn lemma_partial_rows_ignored(
    a: Seq<Seq<Seq<u8>>>,
    width_a: nat,
    b: Seq<Seq<Seq<u8>>>,
    width_b: nat,
    channel: int,
    step: int,
)
    requires
        1 <= step <= 2,
        ((a.len() + step - 1) / step) / 8 == ((b.len() + step - 1) / step) / 8,
        ((width_a + step - 1) / step) / 8 == ((width_b + step - 1) / step) / 8,
        forall|i: int, j: int|
            0 <= i < a.len() && i < b.len() && 0 <= j < width_a && j < width_b ==> a[i][j][channel]
                == b[i][j][channel],
    ensures
        blocks_of_plane(
            channel_samples(a, width_a, channel, step),
            ((width_a + step - 1) / step) as nat,
        ) == blocks_of_plane(
            channel_samples(b, width_b, channel, step),
            ((width_b + step - 1) / step) as nat,
        ),
{
    let pa = channel_samples(a, width_a, channel, step);
    let pb = channel_samples(b, width_b, channel, step);
    let wa = ((width_a + step - 1) / step) as nat;
    let wb = ((width_b + step - 1) / step) as nat;
    assert forall|r: int, c: int|
        0 <= r < 8 * (pa.len() / 8) && 0 <= c < 8 * (wa / 8) implies pa[r][c] == pb[r][c] by {
        assert(r < pa.len() && r < pb.len());
        assert(c < wa && c < wb);
        assert(step * r < a.len() && step * r < b.len()) by {
            if step == 1 {
            } else {
                assert(step == 2);
            }
        }
        assert(step * c < width_a && step * c < width_b) by {
            if step == 1 {
            } else {
                assert(step == 2);
            }
        }
    }
    crate::blocks::lemma_partial_blocks_ignored(pa, wa, pb, wb);
}

/// Cuts a frame into its three block grids and centers every sample, so
/// that the grids are ready for the forward transform.
pub fn prepare_frame(frame: &Frame) -> (blocks: EncodedFrame)
    requires
        frame.wf(),
        frame.spec_height() * frame.spec_width() * 8 <= isize::MAX,
    ensures
        blocks.y.wf(),
        blocks.u.wf(),
        blocks.v.wf(),
        blocks.y@ == centered_blocks(
            blocks_of_plane(channel_samples(frame@, frame.spec_width(), 0, 1), frame.spec_width()),
        ),
        blocks.u@ == centered_blocks(
            blocks_of_plane(
                channel_samples(frame@, frame.spec_width(), 1, 2),
                (frame.spec_width() + 1) / 2,
            ),
        ),
        blocks.v@ == centered_blocks(
            blocks_of_plane(
                channel_samples(frame@, frame.spec_width(), 2, 2),
                (frame.spec_width() + 1) / 2,
            ),
        ),
        all_within(blocks.y@, -128, 127),
        all_within(blocks.u@, -128, 127),
        all_within(blocks.v@, -128, 127),
{
    let mut blocks = partition_frame(frame);
    let ghost cut = (blocks.y@, blocks.u@, blocks.v@);
    center_samples(&mut blocks.y);
    center_samples(&mut blocks.u);
    center_samples(&mut blocks.v);
    assert(blocks.y@ =~= centered_blocks(cut.0));
    assert(blocks.u@ =~= centered_blocks(cut.1));
    assert(blocks.v@ =~= centered_blocks(cut.2));
    blocks
}

/// Reads the blocks of one frame of `height x width` pixels from the
/// source, puts them back in raster order and multiplies every coefficient
/// by its quantization step, so that the grids are ready for the inverse
/// transform. After an error nothing is known of the source.
pub fn read_frame(reader: &mut BitSource, codebook: &HuffmanTable, height: usize, width: usize) -> (res:
    Result<EncodedFrame, CodecError>)
    requires
        codebook.wf(),
        height * width * 8 <= isize::MAX,
    ensures
        match decode_frame_bits(old(reader)@, height as nat, width as nat) {
            Ok((y, u, v, rest)) => res matches Ok(frame) && frame.y.wf() && frame.u.wf()
                && frame.v.wf() && frame.y@ == dequantized_blocks(unzigzagged(y)) && frame.u@
                == dequantized_blocks(unzigzagged(u)) && frame.v@ == dequantized_blocks(
                unzigzagged(v),
            ) && final(reader)@ == rest,
            Err(e) => res matches Err(f) && f == e,
        },
{
    let mut frame = match decode_frame_blocks(reader, codebook, height, width) {
        Ok(frame) => frame,
        Err(e) => {
            return Err(e);
        },
    };
    let ghost read = (frame.y@, frame.u@, frame.v@);
    proof {
        lemma_small_products_fit(frame.y@);
        lemma_small_products_fit(frame.u@);
        lemma_small_products_fit(frame.v@);
    }
    dequantize(&mut frame.y);
    dequantize(&mut frame.u);
    dequantize(&mut frame.v);
    assert(frame.y@ =~= dequantized_blocks(read.0));
    assert(frame.u@ =~= dequantized_blocks(read.1));
    assert(frame.v@ =~= dequantized_blocks(read.2));
    Ok(frame)
}

/// Clamps the results of the inverse transform, moves them back to
/// `0..=255` and puts them together as a frame of `height x width` pixels.
/// Both sides must be even, so that every pixel has a chroma sample.
pub fn finish_frame(height: usize, width: usize, blocks: EncodedFrame) -> (frame: Frame)
    requires
        blocks.y.wf(),
        blocks.u.wf(),
        blocks.v.wf(),
        height % 2 == 0,
        width % 2 == 0,
        frame_fits(height as int, width as int),
        blocks.y@.len() >= block_count(height as nat, width as nat),
        blocks.u@.len() >= block_count((height / 2) as nat, (width / 2) as nat),
        blocks.v@.len() >= block_count((height / 2) as nat, (width / 2) as nat),
    ensures
        frame.wf(),
        frame.spec_height() == height,
        frame.spec_width() == width,
        frame@ == merged_samples(
            height as nat,
            width as nat,
            plane_of_blocks(height as nat, width as nat, restored_blocks(blocks.y@)),
            plane_of_blocks((height / 2) as nat, (width / 2) as nat, restored_blocks(blocks.u@)),
            plane_of_blocks((height / 2) as nat, (width / 2) as nat, restored_blocks(blocks.v@)),
        ),
{
    let mut samples = blocks;
    restore_samples(&mut samples.y);
    restore_samples(&mut samples.u);
    restore_samples(&mut samples.v);
    assert(samples.y@ =~= restored_blocks(blocks.y@));
    assert(samples.u@ =~= restored_blocks(blocks.u@));
    assert(samples.v@ =~= restored_blocks(blocks.v@));
    assemble_frame(height, width, &samples)
}

/// Puts the quantized blocks of a frame in zigzag order and writes them to
/// the sink: luma first, then each chroma plane.
pub fn write_frame(frame: &mut EncodedFrame, writer: &mut BitSink, codebook: &HuffmanTable)
    requires
        codebook.wf(),
        old(frame).y.wf(),
        old(frame).u.wf(),
        old(frame).v.wf(),
        are_codable_blocks(old(frame).y@),
        are_codable_blocks(old(frame).u@),
        are_codable_blocks(old(frame).v@),
    ensures
        final(frame).y.wf(),
        final(frame).u.wf(),
        final(frame).v.wf(),
        final(frame).y@ == zigzagged(old(frame).y@),
        final(frame).u@ == zigzagged(old(frame).u@),
        final(frame).v@ == zigzagged(old(frame).v@),
        final(writer)@ == old(writer)@ + (blocks_bits(zigzagged(old(frame).y@)) + blocks_bits(
            zigzagged(old(frame).u@),
        ) + blocks_bits(zigzagged(old(frame).v@))),
{
    zigzag_order(&mut frame.y);
    zigzag_order(&mut frame.u);
    zigzag_order(&mut frame.v);
    assert(frame.y@ =~= zigzagged(old(frame).y@));
    assert(frame.u@ =~= zigzagged(old(frame).u@));
    assert(frame.v@ =~= zigzagged(old(frame).v@));
    proof {
        lemma_zigzagged_codable(old(frame).y@);
        lemma_zigzagged_codable(old(frame).u@);
        lemma_zigzagged_codable(old(frame).v@);
    }
    entropy_encode(frame, writer, codebook);
}

/// Blocks that the entropy coder can write in raster order can be written
/// in zigzag order as well: the DC value stays in front.
pub proof fn lemma_zigzagged_codable(blocks: Seq<Seq<i64>>)
    requires
        are_codable_blocks(blocks),
    ensures
        are_codable_blocks(zigzagged(blocks)),
{
    lemma_scan_is_permutation();
    assert forall|n: int| 0 <= n < blocks.len() implies is_codable_block(
        #[trigger] zigzagged(blocks)[n],
    ) by {
        let b = blocks[n];
        let z = to_zigzag(b);
        assert(is_codable_block(b));
        assert(SCAN_ORDER_TABLE[0] == 0);
        assert forall|i: int| 1 <= i < 64 implies -1023 <= #[trigger] z[i] <= 1023 by {
            let from = SCAN_ORDER_TABLE[i] as int;
            assert(UNSCAN_ORDER_TABLE[from] == i);
            assert(UNSCAN_ORDER_TABLE[0] == 0);
            assert(from >= 1);
            assert(z[i] == b[from]);
        }
    }
}

/// Putting blocks in zigzag order and back in raster order gives the
/// blocks, exactly.
pub proof fn lemma_unzigzagged_zigzagged(blocks: Seq<Seq<i64>>)
    requires
        forall|n: int| 0 <= n < blocks.len() ==> (#[trigger] blocks[n]).len() == 64,
    ensures
        unzigzagged(zigzagged(blocks)) == blocks,
{
    assert forall|n: int| 0 <= n < blocks.len() implies #[trigger] unzigzagged(
        zigzagged(blocks),
    )[n] == blocks[n] by {
        lemma_from_zigzag_to_zigzag(blocks[n]);
    }
    assert(unzigzagged(zigzagged(blocks)) =~= blocks);
}

/// Blocks that the entropy coder can write hold nothing beyond 11 bits,
/// in whatever order their coefficients are read.
pub proof fn lemma_unzigzagged_within(blocks: Seq<Seq<i64>>)
    requires
        are_codable_blocks(blocks),
    ensures
        all_within(unzigzagged(blocks), -2047, 2047),
{
    lemma_scan_is_permutation();
    assert forall|n: int, i: int| 0 <= n < blocks.len() && 0 <= i < 64 implies -2047
        <= #[trigger] unzigzagged(blocks)[n][i] <= 2047 by {
        let from = UNSCAN_ORDER_TABLE[i] as int;
        assert(is_codable_block(blocks[n]));
        assert(unzigzagged(blocks)[n][i] == blocks[n][from]);
        if from >= 1 {
            assert(-1023 <= blocks[n][from] <= 1023);
        }
    }
}

} // verus!
