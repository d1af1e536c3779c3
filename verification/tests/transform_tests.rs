use tinycodec::bitio::{BitSink, BitSource};
use tinycodec::entropy::{entropy_encode, EncodedFrame};
use tinycodec::frame::decode_frame_blocks;
use tinycodec::grid::BlockGrid;
use tinycodec::huffman::HuffmanTable;
use tinycodec::tables::QUANTIZATION_TABLE;
use tinycodec::transform::{center_samples, dequantize, restore_samples};
use tinycodec::zigzag::zigzag_order;

#[test]
fn centering_moves_samples_down_by_128() {
    let block: Vec<i64> = (0..64).map(|i| i * 4).collect();
    let mut grid = BlockGrid::from_rows(&vec![block.clone()]).unwrap();
    center_samples(&mut grid);
    let expected: Vec<i64> = block.iter().map(|v| v - 128).collect();
    assert_eq!(grid.to_rows(), vec![expected]);
    assert_eq!(grid.get(0, 0), -128);
    assert_eq!(grid.get(0, 63), 124);
}

#[test]
fn dequantizing_multiplies_by_the_table() {
    let block: Vec<i64> = (0..64).map(|i| i - 32).collect();
    let mut grid = BlockGrid::from_rows(&vec![block.clone(), vec![1i64; 64]]).unwrap();
    dequantize(&mut grid);
    for i in 0..64 {
        assert_eq!(grid.get(0, i), block[i] * QUANTIZATION_TABLE[i]);
        assert_eq!(grid.get(1, i), QUANTIZATION_TABLE[i]);
    }
    assert_eq!(grid.get(0, 0), -512);
}

#[test]
fn restoring_clamps_then_moves_up_by_128() {
    let mut block = vec![0i64; 64];
    block[0] = -129;
    block[1] = -128;
    block[2] = 127;
    block[3] = 128;
    block[4] = 5000;
    block[5] = -5000;
    block[6] = -1;
    let mut grid = BlockGrid::from_rows(&vec![block]).unwrap();
    restore_samples(&mut grid);
    assert_eq!(grid.get(0, 0), 0);
    assert_eq!(grid.get(0, 1), 0);
    assert_eq!(grid.get(0, 2), 255);
    assert_eq!(grid.get(0, 3), 255);
    assert_eq!(grid.get(0, 4), 255);
    assert_eq!(grid.get(0, 5), 0);
    assert_eq!(grid.get(0, 6), 127);
    assert_eq!(grid.get(0, 7), 128);
}

#[test]
fn restoring_undoes_centering_of_samples() {
    let block: Vec<i64> = (0..64).map(|i| (i * 37) % 256).collect();
    let mut grid = BlockGrid::from_rows(&vec![block.clone()]).unwrap();
    center_samples(&mut grid);
    restore_samples(&mut grid);
    assert_eq!(grid.to_rows(), vec![block]);
}

#[test]
fn frame_blocks_read_back_in_raster_order() {
    let codebook = HuffmanTable::new().unwrap();
    let make = |seed: i64, count: usize| -> Vec<Vec<i64>> {
        (0..count)
            .map(|n| (0..64).map(|i| ((seed + n as i64 * 13 + i * i) % 41) - 20).collect())
            .collect()
    };
    let (y, u, v) = (make(1, 8), make(2, 2), make(3, 2));
    let zigzagged = |rows: &Vec<Vec<i64>>| -> BlockGrid {
        let mut grid = BlockGrid::from_rows(rows).unwrap();
        zigzag_order(&mut grid);
        grid
    };
    let frame = EncodedFrame { y: zigzagged(&y), u: zigzagged(&u), v: zigzagged(&v) };
    let mut sink = BitSink::new();
    entropy_encode(&frame, &mut sink, &codebook);
    let mut source = BitSource::new(sink.finish());
    let decoded = decode_frame_blocks(&mut source, &codebook, 16, 32).ok().unwrap();
    assert_eq!(decoded.y.to_rows(), y);
    assert_eq!(decoded.u.to_rows(), u);
    assert_eq!(decoded.v.to_rows(), v);
}
