use tinycodec::bitio::{BitSink, BitSource};
use tinycodec::entropy::EncodedFrame;
use tinycodec::error::CodecError;
use tinycodec::grid::BlockGrid;
use tinycodec::header::{read_header, write_header, Header, MAGIC};
use tinycodec::huffman::HuffmanTable;
use tinycodec::stream::{decode_frames, decode_stream, encode_frames, encode_stream};
use tinycodec::zigzag::zigzag_order;

type Planes = (Vec<Vec<i64>>, Vec<Vec<i64>>, Vec<Vec<i64>>);

fn sample_frames() -> Vec<Planes> {
    vec![
        (
        vec![
            vec![-132, 0, 0, -23, 0, 0, 0, 0, -29, 0, 0, 0, 0, 0, 0, 0, 0, -10, -29, 0, 26, 0, 0, 0, -16, 0, 0, 0, 0, 0, 0, 0, 0, 0, 0, 0, 10, 0, 0, -9, 0, 0, 0, 0, 0, 0, 0, 0, 0, 0, 0, 0, 0, 0, 0, 0, 0, 0, 0, 0, 0, 12, 0, 0],
            vec![66, 0, 0, 0, 0, 0, 0, 0, 0, 0, 0, 0, -18, 0, 0, 0, 0, 0, 0, 0, 0, 0, 0, 20, 0, 0, 0, 0, 19, 0, 0, 25, 0, 0, 0, 0, 0, 0, 4, 0, 0, 0, -16, 0, 0, 0, 5, 0, 0, 0, 0, 0, -29, 0, 0, 0, 0, 0, 0, 0, 0, 0, 0, 0],
            vec![131, 0, 0, 0, 0, -6, 0, 0, 0, 0, 0, 0, 0, 0, 0, 0, 0, -20, 0, 0, 0, 0, 0, 0, 0, 0, 0, 13, 0, 0, 0, -11, -17, 0, 0, 0, 0, 0, 0, 0, 0, 26, 0, 0, 0, 0, 0, 0, 0, 0, 0, -18, 0, 0, 0, 0, 0, 12, 0, 0, 9, 0, 0, -18],
            vec![-33, 0, 0, -3, 0, 0, 0, 0, 0, 0, 0, 0, 0, 0, 0, -20, 0, 0, 0, 0, 0, 0, 0, -15, 0, 0, 0, 0, 5, 0, 0, 0, 0, 0, -22, 0, 0, 0, 0, 0, 0, -13, 0, 0, 0, 27, 0, 0, 0, 12, -4, 26, 0, 0, 0, 0, 0, 0, 0, 0, 0, 0, 0, 0],
        ],
        vec![
            vec![77, 0, 0, 0, 0, 11, 0, 20, 0, 0, 0, 0, 0, 28, 0, 0, 0, 0, 0, 0, 0, 0, 0, 0, 0, 0, 0, 0, 0, 18, 0, 0, 0, 0, 0, 0, 0, 0, 0, 0, 0, 0, 0, 0, 0, 0, -15, 0, 0, 0, 0, -30, 0, 0, 0, 0, 0, 0, 0, 30, 0, 0, -21, 0],
        ],
        vec![
            vec![-37, 0, 0, 0, 0, -17, 28, 0, 0, 0, 0, 0, 0, 0, 0, 0, 0, 0, 25, 0, 0, -2, 0, 0, 0, 0, 0, 0, 0, 0, 11, 0, 0, 14, 0, -22, 23, 0, 0, 0, 1, 3, 0, 0, 0, 0, 0, 0, 0, 0, 0, 0, 0, 0, 0, 0, 0, 0, 0, 0, 0, 0, 0, 0],
        ],
        ),
        (
        vec![
            vec![-172, -7, 0, 0, 0, 0, 0, 0, 0, 0, 0, 0, 0, 0, 0, 0, 0, 0, -29, 0, 0, 0, 0, 0, 0, 0, 0, 0, 0, 0, 0, 0, 0, 0, 0, 0, 0, 0, 0, 0, 0, 0, 0, 0, 0, 0, 0, 0, 0, 0, 0, 0, 0, 0, 0, 0, 0, 0, 0, 0, 0, 0, 0, 0],
            vec![115, 0, 0, 0, 0, 0, 0, 0, 0, 0, 0, 0, 0, 0, 0, 22, 0, 22, 0, 0, 11, 7, 0, 0, 3, -13, 0, 0, 0, 0, 0, -7, 0, 0, -23, 0, 16, 0, 0, 29, 0, 0, 0, 0, -15, 0, -8, 0, 0, 0, 0, 0, 0, 0, 0, -14, 0, 0, 0, 0, 0, 0, 0, -2],
            vec![-135, 0, 0, 0, 0, 0, 0, 0, 0, 0, 0, 0, 0, 0, -20, 10, 0, 0, 0, -15, 0, 0, 0, 0, 0, 0, 0, 0, 0, 0, -28, 0, 0, 0, -24, -19, 0, -29, 0, 0, 0, 0, 0, 0, 0, 0, 0, 0, 0, -4, 0, 0, 0, 0, 0, 28, -7, 0, 0, 0, 13, 0, -18, 0],
            vec![144, 0, 0, 10, 0, 0, 0, -12, -11, 0, 18, 0, -7, 0, 0, 0, 0, -23, 9, 0, 0, 0, 0, 12, 0, 15, 0, 0, 0, 0, 0, 0, 0, 0, 0, 0, 0, 0, 0, 0, 0, 0, 0, 0, 0, 0, -8, 0, 0, 0, 0, 0, 0, 0, 0, -12, 0, 0, 0, 0, 0, 0, 0, 0],
        ],
        vec![
            vec![186, 0, 0, 0, 0, 0, 0, 0, 0, 0, 0, 0, 0, 0, 0, 0, 0, 0, 0, -13, 0, 0, 0, 0, 0, 0, 0, 0, 0, 0, 0, 0, 0, 0, 0, 0, 0, -1, 0, 0, 0, 0, -5, 0, 0, 0, 0, 0, 22, 0, 0, 0, 0, 0, 0, 0, 13, 0, 0, 0, 0, 0, 0, -30],
        ],
        vec![
            vec![48, 0, 0, 7, 0, 0, 0, 0, 0, -25, 0, 0, 0, 0, 0, 0, 0, 0, 0, 1, 0, 0, 0, 5, 0, -28, 0, 0, 0, 0, 0, 0, 0, 0, 0, 22, 0, 0, 0, 0, 0, 0, 0, 0, 0, 0, 0, 2, 0, 0, 0, 0, 0, 0, 0, 22, 0, 0, 0, 0, 0, 0, 0, 0],
        ],
        ),
    ]
}

fn as_frames(planes: &Vec<Planes>) -> Vec<EncodedFrame> {
    let mut frames = Vec::new();
    for (y, u, v) in planes {
        frames.push(EncodedFrame {
            y: BlockGrid::from_rows(y).unwrap(),
            u: BlockGrid::from_rows(u).unwrap(),
            v: BlockGrid::from_rows(v).unwrap(),
        });
    }
    frames
}

fn zigzag_rows(rows: &Vec<Vec<i64>>) -> Vec<Vec<i64>> {
    let mut grid = BlockGrid::from_rows(rows).unwrap();
    zigzag_order(&mut grid);
    grid.to_rows()
}

#[test]
fn magic_is_tiny() {
    assert_eq!(&MAGIC, b"tiny");
}

#[test]
fn header_is_twelve_bytes() {
    let header = Header { height: 64, width: 96, frame_rate: 30, frame_count: 10 };
    let mut sink = BitSink::new();
    write_header(&mut sink, &header);
    assert_eq!(sink.finish(), vec![116, 105, 110, 121, 0, 64, 0, 96, 0, 30, 0, 10]);
}

#[test]
fn header_reads_back() {
    let header = Header { height: 64, width: 96, frame_rate: 30, frame_count: 10 };
    let mut sink = BitSink::new();
    write_header(&mut sink, &header);
    let mut source = BitSource::new(sink.finish());
    let read = read_header(&mut source).unwrap();
    assert_eq!(read.height, 64);
    assert_eq!(read.width, 96);
    assert_eq!(read.frame_rate, 30);
    assert_eq!(read.frame_count, 10);
    assert_eq!(read, header);
}

#[test]
fn header_with_extreme_values_reads_back() {
    let header = Header { height: 65535, width: 0, frame_rate: 1, frame_count: 32768 };
    let mut sink = BitSink::new();
    write_header(&mut sink, &header);
    let mut source = BitSource::new(sink.finish());
    assert_eq!(read_header(&mut source), Ok(header));
}

#[test]
fn header_after_other_bits_is_not_aligned() {
    let header = Header { height: 8, width: 16, frame_rate: 24, frame_count: 1 };
    let codebook = HuffmanTable::new().unwrap();
    let mut sink = BitSink::new();
    codebook.write_dc_size(&mut sink, 1);
    write_header(&mut sink, &header);
    let bytes = sink.finish();
    assert_eq!(bytes.len(), 13);
    let mut source = BitSource::new(bytes);
    assert_eq!(codebook.read_dc_size(&mut source), Ok(1));
    assert_eq!(read_header(&mut source), Ok(header));
}

#[test]
fn wrong_magic_is_rejected() {
    let mut source = BitSource::new(b"tinx\x00\x40\x00\x60\x00\x1e\x00\x0a".to_vec());
    assert_eq!(read_header(&mut source), Err(CodecError::BadMagic));
    let mut source = BitSource::new(b"Tiny\x00\x40\x00\x60\x00\x1e\x00\x0a".to_vec());
    assert_eq!(read_header(&mut source), Err(CodecError::BadMagic));
}

#[test]
fn short_header_is_truncated() {
    let mut source = BitSource::new(b"tin".to_vec());
    assert_eq!(read_header(&mut source), Err(CodecError::Truncated));
    let mut source = BitSource::new(b"tiny\x00\x40\x00".to_vec());
    assert_eq!(read_header(&mut source), Err(CodecError::Truncated));
    let mut source = BitSource::new(b"abc".to_vec());
    assert_eq!(read_header(&mut source), Err(CodecError::Truncated));
}

#[test]
fn stream_is_header_then_frames_then_padding() {
    let codebook = HuffmanTable::new().unwrap();
    let header = Header { height: 16, width: 16, frame_rate: 25, frame_count: 2 };
    let frames = as_frames(&sample_frames());
    let bytes = encode_stream(&header, &frames, &codebook);
    assert_eq!(bytes, vec![116, 105, 110, 121, 0, 16, 0, 16, 0, 25, 0, 2, 249, 239, 254, 37, 31, 243, 2, 255, 183, 93, 11, 251, 107, 254, 65, 255, 250, 85, 254, 141, 254, 127, 231, 242, 189, 11, 255, 77, 191, 249, 84, 255, 152, 159, 252, 78, 127, 233, 167, 252, 131, 255, 214, 255, 208, 10, 190, 131, 255, 150, 63, 250, 107, 255, 192, 223, 248, 244, 211, 191, 238, 53, 255, 130, 223, 249, 252, 255, 73, 255, 137, 111, 61, 242, 127, 233, 175, 254, 188, 63, 229, 175, 253, 2, 127, 233, 203, 254, 67, 127, 241, 249, 30, 181, 94, 155, 255, 47, 127, 218, 159, 244, 28, 255, 249, 151, 249, 176, 255, 152, 15, 253, 135, 191, 226, 85, 92, 215, 252, 195, 181, 207, 253, 60, 252, 191, 246, 247, 254, 157, 253, 147, 171, 245, 122, 249, 78, 15, 243, 161, 87, 185, 255, 247, 219, 251, 91, 253, 46, 127, 158, 203, 254, 120, 127, 196, 163, 251, 67, 254, 39, 191, 242, 225, 246, 127, 251, 113, 255, 119, 231, 143, 254, 85, 221, 127, 199, 135, 254, 80, 255, 228, 15, 166, 127, 97, 127, 232, 191, 250, 14, 65, 255, 31, 191, 217, 181, 244, 135, 250, 87, 252, 121, 218, 127, 105, 121, 31, 243, 8, 185, 255, 151, 207, 183, 255, 159, 249, 119, 255, 183, 58, 250, 235, 252, 255, 161, 127, 156, 127, 203, 47, 250, 11, 127, 215, 239, 253, 64, 123, 15, 223, 255, 208, 27, 243, 255, 91, 253, 135, 255, 131, 111, 253, 11, 254, 194, 212]);
}

#[test]
fn stream_reads_back() {
    let codebook = HuffmanTable::new().unwrap();
    let header = Header { height: 16, width: 16, frame_rate: 25, frame_count: 2 };
    let planes = sample_frames();
    let mut zigzagged = Vec::new();
    for (y, u, v) in &planes {
        zigzagged.push((zigzag_rows(y), zigzag_rows(u), zigzag_rows(v)));
    }
    let bytes = encode_stream(&header, &as_frames(&zigzagged), &codebook);
    let (read, frames) = decode_stream(bytes, &codebook).ok().unwrap();
    assert_eq!(read, header);
    assert_eq!(frames.len(), 2);
    for k in 0..2 {
        assert_eq!(frames[k].y.to_rows(), planes[k].0);
        assert_eq!(frames[k].u.to_rows(), planes[k].1);
        assert_eq!(frames[k].v.to_rows(), planes[k].2);
    }
}

#[test]
fn frames_are_written_in_order() {
    let codebook = HuffmanTable::new().unwrap();
    let planes = sample_frames();
    let mut both = BitSink::new();
    encode_frames(&as_frames(&planes), &mut both, &codebook);
    let mut swapped = BitSink::new();
    let reversed = vec![planes[1].clone(), planes[0].clone()];
    encode_frames(&as_frames(&reversed), &mut swapped, &codebook);
    let in_order = both.finish();
    assert_ne!(in_order, swapped.finish());
    let mut source = BitSource::new(in_order);
    let frames = decode_frames(&mut source, &codebook, 16, 16, 2).ok().unwrap();
    assert_eq!(frames.len(), 2);
}

#[test]
fn stream_without_frames_is_the_header() {
    let codebook = HuffmanTable::new().unwrap();
    let header = Header { height: 16, width: 16, frame_rate: 25, frame_count: 0 };
    let bytes = encode_stream(&header, &Vec::new(), &codebook);
    assert_eq!(bytes.len(), 12);
    let (read, frames) = decode_stream(bytes, &codebook).ok().unwrap();
    assert_eq!(read, header);
    assert_eq!(frames.len(), 0);
}

#[test]
fn stream_with_a_missing_frame_is_truncated() {
    let codebook = HuffmanTable::new().unwrap();
    let header = Header { height: 16, width: 16, frame_rate: 25, frame_count: 3 };
    let bytes = encode_stream(&header, &as_frames(&sample_frames()), &codebook);
    assert_eq!(decode_stream(bytes, &codebook).err(), Some(CodecError::Truncated));
}

#[test]
fn stream_with_wrong_magic_is_rejected_before_frames() {
    let codebook = HuffmanTable::new().unwrap();
    let header = Header { height: 16, width: 16, frame_rate: 25, frame_count: 2 };
    let mut bytes = encode_stream(&header, &as_frames(&sample_frames()), &codebook);
    bytes[0] = b'T';
    assert_eq!(decode_stream(bytes, &codebook).err(), Some(CodecError::BadMagic));
}
