use tinycodec::bitio::{BitSink, BitSource};
use tinycodec::entropy::{
    blocks_are_codable, decode_block_into, encode_block, encode_blocks, entropy_decode,
    entropy_encode, EncodedFrame,
};
use tinycodec::error::CodecError;
use tinycodec::grid::BlockGrid;
use tinycodec::huffman::HuffmanTable;

fn one_block(values: Vec<i64>) -> BlockGrid {
    BlockGrid::from_rows(&vec![values]).unwrap()
}

fn encode_one(values: Vec<i64>) -> Vec<u8> {
    let codebook = HuffmanTable::new().unwrap();
    let grid = one_block(values);
    assert!(blocks_are_codable(&grid));
    let mut sink = BitSink::new();
    encode_block(&grid, 0, &mut sink, &codebook);
    sink.finish()
}

fn sample_blocks() -> Vec<Vec<i64>> {
    vec![
        vec![-721, 0, 0, 658, 0, 0, 16, -847, 0, -838, 0, 135, -566, 0, 0, 176, 0, 0, 735, -165, -782, 0, 0, 0, 146, 0, 0, 0, -901, 0, 0, 0, 0, 0, 0, 0, -655, 0, 153, 0, 0, 0, 0, 0, 25, 0, 0, -22, 0, 0, 119, 0, 0, 0, 0, 0, 0, 0, 0, 0, 0, 0, 413, 0],
        vec![320, 0, 0, -233, 0, 0, 0, 0, 0, 0, -435, -516, 0, 0, 0, -201, 0, 0, 0, 0, -173, 0, 0, 0, -854, -548, 0, 679, 0, -1015, 71, 0, 0, 0, 0, 0, 0, 0, 819, 0, 0, 0, 0, 0, 0, 0, 0, 993, -691, 207, -1023, 0, 0, 0, 0, -598, 0, -507, 0, 0, 0, -24, 0, 0],
        vec![-66, 0, 512, 0, 674, 0, 0, 926, 0, 89, 0, 0, 293, 0, 0, -272, 0, 0, 86, 0, 0, 638, 0, 0, -533, 0, 0, 37, 0, 0, 0, 0, 0, 216, 0, 0, 0, 0, 0, 0, -559, 0, 0, 0, 0, 0, 839, 0, 0, 329, -228, 0, 0, 0, 593, 0, 914, 0, 0, 0, 0, 0, -763, 186],
        vec![-64, 0, 0, 0, 0, 0, 0, 0, 0, 0, 0, 0, 0, 0, 0, 0, 0, 0, 0, 0, 0, 0, 0, 0, 0, 0, 0, 0, 0, 0, 0, 0, 0, 0, 0, 0, 0, 0, 0, 0, 3, 0, 0, 0, 0, 0, 0, 0, 0, 0, 0, 0, 0, 0, 0, 0, 0, 0, 0, 0, 0, 0, 0, -1],
    ]
}

#[test]
fn block_with_only_a_dc_value_ends_with_eob() {
    // DC size 3 (100), value 5 (101), EOB (1010)
    assert_eq!(encode_one(vec![5, 0, 0, 0, 0, 0, 0, 0, 0, 0, 0, 0, 0, 0, 0, 0, 0, 0, 0, 0, 0, 0, 0, 0, 0, 0, 0, 0, 0, 0, 0, 0, 0, 0, 0, 0, 0, 0, 0, 0, 0, 0, 0, 0, 0, 0, 0, 0, 0, 0, 0, 0, 0, 0, 0, 0, 0, 0, 0, 0, 0, 0, 0, 0]), vec![150, 128]);
}

#[test]
fn all_zero_block_is_dc_size_zero_and_eob() {
    // DC size 0 (00), EOB (1010)
    assert_eq!(encode_one(vec![0, 0, 0, 0, 0, 0, 0, 0, 0, 0, 0, 0, 0, 0, 0, 0, 0, 0, 0, 0, 0, 0, 0, 0, 0, 0, 0, 0, 0, 0, 0, 0, 0, 0, 0, 0, 0, 0, 0, 0, 0, 0, 0, 0, 0, 0, 0, 0, 0, 0, 0, 0, 0, 0, 0, 0, 0, 0, 0, 0, 0, 0, 0, 0]), vec![0b0010_1000]);
}

#[test]
fn sixteen_zeros_before_a_value_give_one_zrl() {
    // DC size 0 (00), ZRL (11111111001), symbol (0, 1) (00), value 1 (1), EOB (1010)
    assert_eq!(encode_one(vec![0, 0, 0, 0, 0, 0, 0, 0, 0, 0, 0, 0, 0, 0, 0, 0, 0, 1, 0, 0, 0, 0, 0, 0, 0, 0, 0, 0, 0, 0, 0, 0, 0, 0, 0, 0, 0, 0, 0, 0, 0, 0, 0, 0, 0, 0, 0, 0, 0, 0, 0, 0, 0, 0, 0, 0, 0, 0, 0, 0, 0, 0, 0, 0]), vec![63, 201, 160]);
}

#[test]
fn thirty_two_zeros_before_a_value_give_two_zrl() {
    assert_eq!(encode_one(vec![-3, 0, 0, 0, 0, 0, 0, 0, 0, 0, 0, 0, 0, 0, 0, 0, 0, 0, 0, 0, 0, 0, 0, 0, 0, 0, 0, 0, 0, 0, 0, 0, 0, -7, 0, 0, 0, 0, 0, 0, 0, 0, 0, 0, 0, 0, 0, 0, 0, 0, 0, 0, 0, 0, 0, 0, 0, 0, 0, 0, 0, 0, 0, 0]), vec![103, 249, 255, 48, 80]);
}

#[test]
fn block_that_ends_with_a_value_has_no_eob() {
    assert_eq!(encode_one(vec![1, 0, 0, 0, 0, 0, 0, 0, 0, 0, 0, 0, 0, 0, 0, 0, 0, 0, 0, 0, 0, 0, 0, 0, 0, 0, 0, 0, 0, 0, 0, 0, 0, 0, 0, 0, 0, 0, 0, 0, 0, 0, 0, 0, 0, 0, 0, 0, 0, 0, 0, 0, 0, 0, 0, 0, 0, 0, 0, 0, 0, 0, 0, 2]), vec![95, 243, 254, 127, 207, 255, 100]);
}

#[test]
fn blocks_are_written_back_to_back() {
    let codebook = HuffmanTable::new().unwrap();
    let grid = BlockGrid::from_rows(&sample_blocks()).unwrap();
    let mut sink = BitSink::new();
    encode_blocks(&grid, &mut sink, &codebook);
    assert_eq!(sink.finish(), vec![254, 75, 191, 227, 169, 47, 248, 152, 127, 193, 150, 31, 241, 5, 207, 252, 52, 63, 252, 27, 147, 255, 25, 97, 255, 29, 111, 254, 203, 95, 240, 103, 143, 252, 156, 151, 252, 168, 245, 255, 106, 184, 127, 195, 76, 255, 208, 103, 254, 37, 63, 241, 125, 255, 245, 243, 181, 250, 129, 255, 24, 45, 255, 88, 76, 255, 131, 126, 255, 228, 205, 191, 230, 212, 191, 229, 74, 159, 248, 55, 111, 254, 34, 167, 255, 136, 2, 62, 35, 255, 218, 230, 127, 247, 191, 15, 252, 26, 153, 251, 103, 255, 193, 128, 31, 243, 173, 79, 252, 56, 19, 254, 64, 245, 231, 191, 241, 16, 7, 252, 69, 69, 255, 29, 207, 127, 194, 217, 255, 141, 146, 255, 198, 187, 255, 226, 235, 127, 199, 79, 223, 241, 207, 87, 252, 84, 191, 244, 123, 31, 245, 174, 135, 253, 46, 143, 255, 27, 73, 253, 134, 255, 229, 101, 31, 248, 142, 75, 254, 149, 4, 253, 174, 188, 255, 252, 255, 159, 247, 255, 207, 176]);
}

#[test]
fn decoded_blocks_equal_encoded_blocks() {
    let codebook = HuffmanTable::new().unwrap();
    let blocks = sample_blocks();
    let grid = BlockGrid::from_rows(&blocks).unwrap();
    let mut sink = BitSink::new();
    encode_blocks(&grid, &mut sink, &codebook);
    let mut source = BitSource::new(sink.finish());
    let decoded = entropy_decode(&mut source, &codebook, blocks.len()).ok().unwrap();
    assert_eq!(decoded.to_rows(), blocks);
}

#[test]
fn frame_planes_are_written_luma_first() {
    let codebook = HuffmanTable::new().unwrap();
    let blocks = sample_blocks();
    let frame = EncodedFrame {
        y: BlockGrid::from_rows(&vec![blocks[0].clone(), blocks[1].clone()]).unwrap(),
        u: BlockGrid::from_rows(&vec![blocks[2].clone()]).unwrap(),
        v: BlockGrid::from_rows(&vec![blocks[3].clone()]).unwrap(),
    };
    let mut sink = BitSink::new();
    entropy_encode(&frame, &mut sink, &codebook);
    assert_eq!(sink.finish(), vec![254, 75, 191, 227, 169, 47, 248, 152, 127, 193, 150, 31, 241, 5, 207, 252, 52, 63, 252, 27, 147, 255, 25, 97, 255, 29, 111, 254, 203, 95, 240, 103, 143, 252, 156, 151, 252, 168, 245, 255, 106, 184, 127, 195, 76, 255, 208, 103, 254, 37, 63, 241, 125, 255, 245, 243, 181, 250, 129, 255, 24, 45, 255, 88, 76, 255, 131, 126, 255, 228, 205, 191, 230, 212, 191, 229, 74, 159, 248, 55, 111, 254, 34, 167, 255, 136, 2, 62, 35, 255, 218, 230, 127, 247, 191, 15, 252, 26, 153, 251, 103, 255, 193, 128, 31, 243, 173, 79, 252, 56, 19, 254, 64, 245, 231, 191, 241, 16, 7, 252, 69, 69, 255, 29, 207, 127, 194, 217, 255, 141, 146, 255, 198, 187, 255, 226, 235, 127, 199, 79, 223, 241, 207, 87, 252, 84, 191, 244, 123, 31, 245, 174, 135, 253, 46, 143, 255, 27, 73, 253, 134, 255, 229, 101, 31, 248, 142, 75, 254, 149, 4, 253, 174, 188, 255, 252, 255, 159, 247, 255, 207, 176]);
}

#[test]
fn decoding_zero_blocks_reads_nothing() {
    let codebook = HuffmanTable::new().unwrap();
    let mut source = BitSource::new(vec![0xff]);
    let decoded = entropy_decode(&mut source, &codebook, 0).ok().unwrap();
    assert_eq!(decoded.len(), 0);
}

#[test]
fn sixteen_zero_symbol_skips_sixteen_positions() {
    let codebook = HuffmanTable::new().unwrap();
    let mut source = BitSource::new(vec![63, 201, 160]);
    let decoded = entropy_decode(&mut source, &codebook, 1).ok().unwrap();
    assert_eq!(decoded.to_rows(), vec![vec![0, 0, 0, 0, 0, 0, 0, 0, 0, 0, 0, 0, 0, 0, 0, 0, 0, 1, 0, 0, 0, 0, 0, 0, 0, 0, 0, 0, 0, 0, 0, 0, 0, 0, 0, 0, 0, 0, 0, 0, 0, 0, 0, 0, 0, 0, 0, 0, 0, 0, 0, 0, 0, 0, 0, 0, 0, 0, 0, 0, 0, 0, 0, 0]]);
}

#[test]
fn block_cut_short_is_truncated() {
    let codebook = HuffmanTable::new().unwrap();
    let mut bytes = vec![254, 75, 191, 227, 169, 47, 248, 152, 127, 193, 150, 31, 241, 5, 207, 252, 52, 63, 252, 27, 147, 255, 25, 97, 255, 29, 111, 254, 203, 95, 240, 103, 143, 252, 156, 151, 252, 168, 245, 255, 106, 184, 127, 195, 76, 255, 208, 103, 254, 37, 63, 241, 125, 255, 245, 243, 181, 250, 129, 255, 24, 45, 255, 88, 76, 255, 131, 126, 255, 228, 205, 191, 230, 212, 191, 229, 74, 159, 248, 55, 111, 254, 34, 167, 255, 136, 2, 62, 35, 255, 218, 230, 127, 247, 191, 15, 252, 26, 153, 251, 103, 255, 193, 128, 31, 243, 173, 79, 252, 56, 19, 254, 64, 245, 231, 191, 241, 16, 7, 252, 69, 69, 255, 29, 207, 127, 194, 217, 255, 141, 146, 255, 198, 187, 255, 226, 235, 127, 199, 79, 223, 241, 207, 87, 252, 84, 191, 244, 123, 31, 245, 174, 135, 253, 46, 143, 255, 27, 73, 253, 134, 255, 229, 101, 31, 248, 142, 75, 254, 149, 4, 253, 174, 188, 255, 252, 255, 159, 247, 255, 207, 176];
    bytes.truncate(5);
    let mut source = BitSource::new(bytes);
    assert_eq!(entropy_decode(&mut source, &codebook, 4).err(), Some(CodecError::Truncated));
}

#[test]
fn run_past_the_end_of_the_block_is_malformed() {
    let codebook = HuffmanTable::new().unwrap();
    let mut sink = BitSink::new();
    codebook.write_dc_size(&mut sink, 0);
    for _ in 0..4 {
        codebook.write_ac_symbol(&mut sink, 15, 0);
    }
    codebook.write_ac_symbol(&mut sink, 0, 0);
    let mut source = BitSource::new(sink.finish());
    assert_eq!(entropy_decode(&mut source, &codebook, 1).err(), Some(CodecError::Malformed));
}

#[test]
fn three_sixteen_zero_symbols_and_a_run_fill_the_block() {
    let codebook = HuffmanTable::new().unwrap();
    let mut sink = BitSink::new();
    codebook.write_dc_size(&mut sink, 0);
    for _ in 0..3 {
        codebook.write_ac_symbol(&mut sink, 15, 0);
    }
    // fourteen more zeros, then the value 1 at the last position
    codebook.write_ac_symbol(&mut sink, 14, 1);
    tinycodec::entropy::write_value_bits(&mut sink, 1, 1);
    let mut source = BitSource::new(sink.finish());
    let mut grid = BlockGrid::new(1);
    assert_eq!(decode_block_into(&mut source, &codebook, &mut grid, 0), Ok(()));
    let mut expected = vec![0i64; 64];
    expected[63] = 1;
    assert_eq!(grid.to_rows(), vec![expected]);
}

#[test]
fn invalid_code_in_a_block_is_malformed() {
    let codebook = HuffmanTable::new().unwrap();
    let mut source = BitSource::new(vec![0b0011_1111, 0xff, 0xff, 0xff]);
    assert_eq!(entropy_decode(&mut source, &codebook, 1).err(), Some(CodecError::Malformed));
}

#[test]
fn out_of_range_coefficients_are_not_codable() {
    let mut values = vec![0i64; 64];
    values[0] = 2048;
    assert!(!blocks_are_codable(&one_block(values)));
    let mut values = vec![0i64; 64];
    values[5] = -1024;
    assert!(!blocks_are_codable(&one_block(values)));
    let mut values = vec![0i64; 64];
    values[0] = -2047;
    values[63] = 1023;
    assert!(blocks_are_codable(&one_block(values)));
}
