use tinycodec::entropy::{blocks_are_codable, EncodedFrame};
use tinycodec::bitio::{BitSink, BitSource};
use tinycodec::frame::{
    assemble_frame, extract_plane, finish_frame, partition_frame, prepare_frame, read_frame,
    write_frame,
};
use tinycodec::grid::BlockGrid;
use tinycodec::header::Header;
use tinycodec::huffman::HuffmanTable;
use tinycodec::image::Frame;
use tinycodec::stream::{decode_stream, encode_stream};
use tinycodec::tables::QUANTIZATION_TABLE;
use tinycodec::transform::{all_in_range, center_samples, dequantize, restore_samples};
use tinycodec::zigzag::zigzag_order;

const BASIS: [[f64; 8]; 8] = [
    [
        0.35355339, 0.35355339, 0.35355339, 0.35355339, 0.35355339, 0.35355339, 0.35355339,
        0.35355339,
    ],
    [
        0.49039264, 0.41573481, 0.27778512, 0.09754516, -0.09754516, -0.27778512, -0.41573481,
        -0.49039264,
    ],
    [
        0.46193977, 0.19134172, -0.19134172, -0.46193977, -0.46193977, -0.19134172, 0.19134172,
        0.46193977,
    ],
    [
        0.41573481, -0.09754516, -0.49039264, -0.27778512, 0.27778512, 0.49039264, 0.09754516,
        -0.41573481,
    ],
    [
        0.35355339, -0.35355339, -0.35355339, 0.35355339, 0.35355339, -0.35355339, -0.35355339,
        0.35355339,
    ],
    [
        0.27778512, -0.49039264, 0.09754516, 0.41573481, -0.41573481, -0.09754516, 0.49039264,
        -0.27778512,
    ],
    [
        0.19134172, -0.46193977, 0.46193977, -0.19134172, -0.19134172, 0.46193977, -0.46193977,
        0.19134172,
    ],
    [
        0.09754516, -0.27778512, 0.41573481, -0.49039264, 0.49039264, -0.41573481, 0.27778512,
        -0.09754516,
    ],
];

fn product(a: &[[f64; 8]; 8], b: &[[f64; 8]; 8]) -> [[f64; 8]; 8] {
    let mut out = [[0.0; 8]; 8];
    for i in 0..8 {
        for j in 0..8 {
            for k in 0..8 {
                out[i][j] += a[i][k] * b[k][j];
            }
        }
    }
    out
}

fn transposed(a: &[[f64; 8]; 8]) -> [[f64; 8]; 8] {
    let mut out = [[0.0; 8]; 8];
    for i in 0..8 {
        for j in 0..8 {
            out[i][j] = a[j][i];
        }
    }
    out
}

fn block_matrix(grid: &BlockGrid, n: usize) -> [[f64; 8]; 8] {
    let mut out = [[0.0; 8]; 8];
    for i in 0..8 {
        for j in 0..8 {
            out[i][j] = grid.get(n, i * 8 + j) as f64;
        }
    }
    out
}

fn forward(grid: &mut BlockGrid) {
    assert!(all_in_range(grid, 0, 255));
    center_samples(grid);
    for n in 0..grid.len() {
        let x = product(&BASIS, &product(&block_matrix(grid, n), &transposed(&BASIS)));
        for i in 0..64 {
            grid.set(n, i, (x[i / 8][i % 8] / QUANTIZATION_TABLE[i] as f64).round() as i64);
        }
    }
}

fn inverse(grid: &mut BlockGrid) {
    assert!(all_in_range(grid, -2047, 2047));
    dequantize(grid);
    for n in 0..grid.len() {
        let x = product(&transposed(&BASIS), &product(&block_matrix(grid, n), &BASIS));
        for i in 0..64 {
            grid.set(n, i, x[i / 8][i % 8].round() as i64);
        }
    }
    restore_samples(grid);
    assert!(all_in_range(grid, 0, 255));
}

fn rgb_to_ycbcr(frame: &mut Frame) {
    for i in 0..frame.height() {
        for j in 0..frame.width() {
            let r = frame.get(i, j, 0) as f64;
            let g = frame.get(i, j, 1) as f64;
            let b = frame.get(i, j, 2) as f64;
            let y = 0.299 * r + 0.587 * g + 0.114 * b;
            frame.set(i, j, 0, y as u8);
            frame.set(i, j, 1, (0.565 * (b - y) + 128.0) as u8);
            frame.set(i, j, 2, (0.713 * (r - y) + 128.0) as u8);
        }
    }
}

fn ycbcr_to_rgb(frame: &mut Frame) {
    for i in 0..frame.height() {
        for j in 0..frame.width() {
            let y = frame.get(i, j, 0) as f64;
            let u = frame.get(i, j, 1) as f64;
            let v = frame.get(i, j, 2) as f64;
            frame.set(i, j, 0, (y + 1.4903 * (v - 128.0)) as u8);
            frame.set(i, j, 1, (y - 0.344 * (u - 128.0) - 0.714 * (v - 128.0)) as u8);
            frame.set(i, j, 2, (y + 1.770 * (u - 128.0)) as u8);
        }
    }
}

fn gradient(height: usize, width: usize) -> Frame {
    let mut frame = Frame::new(height, width);
    for i in 0..height {
        for j in 0..width {
            frame.set(i, j, 0, (40 + 3 * i + 2 * j) as u8);
            frame.set(i, j, 1, (200 - 2 * i - j) as u8);
            frame.set(i, j, 2, (90 + i + 4 * j) as u8);
        }
    }
    frame
}

fn encode_frame(frame: &Frame) -> EncodedFrame {
    let mut blocks = partition_frame(frame);
    for grid in [&mut blocks.y, &mut blocks.u, &mut blocks.v] {
        forward(grid);
        zigzag_order(grid);
        assert!(blocks_are_codable(grid));
    }
    blocks
}

fn distance(a: u8, b: u8) -> u8 {
    if a > b {
        a - b
    } else {
        b - a
    }
}

#[test]
fn frame_survives_the_whole_pipeline() {
    let codebook = HuffmanTable::new().unwrap();
    let source = gradient(32, 32);
    let mut converted = gradient(32, 32);
    rgb_to_ycbcr(&mut converted);

    let header = Header { height: 32, width: 32, frame_rate: 30, frame_count: 2 };
    let frames = vec![encode_frame(&converted), encode_frame(&converted)];
    assert_eq!(frames[0].y.len(), 16);
    assert_eq!(frames[0].u.len(), 4);
    assert_eq!(frames[0].v.len(), 4);
    let bytes = encode_stream(&header, &frames, &codebook);
    assert!(bytes.len() < 32 * 32 * 3 * 2);

    let (read, decoded) = decode_stream(bytes, &codebook).ok().unwrap();
    assert_eq!(read, header);
    assert_eq!(decoded.len(), 2);
    for mut blocks in decoded {
        for grid in [&mut blocks.y, &mut blocks.u, &mut blocks.v] {
            inverse(grid);
        }
        let mut frame = assemble_frame(32, 32, &blocks);
        assert_eq!((frame.height(), frame.width()), (32, 32));
        let luma = extract_plane(&frame, 0, 1);
        let chroma = extract_plane(&frame, 1, 2);
        for i in 0..32 {
            for j in 0..32 {
                assert!(distance(luma.get(i, j), converted.get(i, j, 0)) <= 6);
                assert!(
                    distance(chroma.get(i / 2, j / 2), converted.get(i - i % 2, j - j % 2, 1))
                        <= 8
                );
            }
        }
        ycbcr_to_rgb(&mut frame);
        assert_eq!(frame.to_bytes().len(), 32 * 32 * 3);
        for i in 0..32 {
            for j in 0..32 {
                for c in 0..3 {
                    assert!(distance(frame.get(i, j, c), source.get(i, j, c)) <= 24);
                }
            }
        }
    }
}

#[test]
fn quantized_gradient_block_is_sparse() {
    let mut converted = gradient(32, 32);
    rgb_to_ycbcr(&mut converted);
    let mut blocks = partition_frame(&converted);
    forward(&mut blocks.y);
    let first = &blocks.y.to_rows()[0];
    assert_eq!(first[0], 6);
    assert_eq!(first[1], -1);
    assert!(first[2..].iter().all(|&v| v == 0));
}

#[test]
fn range_check_tells_samples_from_other_values() {
    let mut block = vec![0i64; 64];
    block[10] = 255;
    assert!(all_in_range(&BlockGrid::from_rows(&vec![block.clone()]).unwrap(), 0, 255));
    block[11] = 256;
    assert!(!all_in_range(&BlockGrid::from_rows(&vec![block.clone()]).unwrap(), 0, 255));
    block[11] = -1;
    assert!(!all_in_range(&BlockGrid::from_rows(&vec![block]).unwrap(), 0, 255));
    assert!(all_in_range(&BlockGrid::new(0), 1, 0));
}

fn core_forward(grid: &mut BlockGrid) {
    for n in 0..grid.len() {
        let x = product(&BASIS, &product(&block_matrix(grid, n), &transposed(&BASIS)));
        for i in 0..64 {
            grid.set(n, i, (x[i / 8][i % 8] / QUANTIZATION_TABLE[i] as f64).round() as i64);
        }
    }
}

fn core_inverse(grid: &mut BlockGrid) {
    for n in 0..grid.len() {
        let x = product(&transposed(&BASIS), &product(&block_matrix(grid, n), &BASIS));
        for i in 0..64 {
            grid.set(n, i, x[i / 8][i % 8].round() as i64);
        }
    }
}

#[test]
fn prepared_frame_holds_centered_samples() {
    let frame = gradient(16, 16);
    let cut = partition_frame(&frame);
    let prepared = prepare_frame(&frame);
    assert!(all_in_range(&prepared.y, -128, 127));
    for n in 0..cut.y.len() {
        for i in 0..64 {
            assert_eq!(prepared.y.get(n, i), cut.y.get(n, i) - 128);
        }
    }
    assert_eq!(prepared.u.get(0, 9), cut.u.get(0, 9) - 128);
    assert_eq!(prepared.v.get(0, 63), cut.v.get(0, 63) - 128);
}

#[test]
fn frame_is_written_read_and_finished() {
    let codebook = HuffmanTable::new().unwrap();
    let mut converted = gradient(32, 16);
    rgb_to_ycbcr(&mut converted);
    let mut blocks = prepare_frame(&converted);
    for grid in [&mut blocks.y, &mut blocks.u, &mut blocks.v] {
        core_forward(grid);
    }
    let quantized = (blocks.y.to_rows(), blocks.u.to_rows(), blocks.v.to_rows());
    let mut sink = BitSink::new();
    write_frame(&mut blocks, &mut sink, &codebook);
    for (written, rows) in
        [(&blocks.y, &quantized.0), (&blocks.u, &quantized.1), (&blocks.v, &quantized.2)]
    {
        let mut expected = BlockGrid::from_rows(rows).unwrap();
        zigzag_order(&mut expected);
        assert_eq!(written.to_rows(), expected.to_rows());
    }

    let mut source = BitSource::new(sink.finish());
    let mut read = read_frame(&mut source, &codebook, 32, 16).ok().unwrap();
    for n in 0..read.y.len() {
        for i in 0..64 {
            assert_eq!(read.y.get(n, i), quantized.0[n][i] * QUANTIZATION_TABLE[i]);
        }
    }
    assert_eq!(read.u.get(0, 0), quantized.1[0][0] * 16);
    assert_eq!(read.v.get(1, 1), quantized.2[1][1] * 11);
    for grid in [&mut read.y, &mut read.u, &mut read.v] {
        core_inverse(grid);
    }
    let frame = finish_frame(32, 16, read);
    assert_eq!((frame.height(), frame.width()), (32, 16));
    for i in 0..32 {
        for j in 0..16 {
            assert!(distance(frame.get(i, j, 0), converted.get(i, j, 0)) <= 6);
        }
    }
}

