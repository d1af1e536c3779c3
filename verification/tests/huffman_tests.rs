use tinycodec::bitio::{BitSink, BitSource};
use tinycodec::error::CodecError;
use tinycodec::huffman::HuffmanTable;

fn bits_of(bytes: &[u8], count: usize) -> String {
    let mut out = String::new();
    for k in 0..count {
        let bit = (bytes[k / 8] >> (7 - k % 8)) & 1;
        out.push(if bit == 1 { '1' } else { '0' });
    }
    out
}

fn dc_codes() -> Vec<(i64, &'static str)> {
    vec![
        (0, "00"),
        (1, "010"),
        (2, "011"),
        (3, "100"),
        (4, "101"),
        (5, "110"),
        (6, "1110"),
        (7, "11110"),
        (8, "111110"),
        (9, "1111110"),
        (10, "11111110"),
        (11, "111111110"),
    ]
}

fn ac_codes() -> Vec<((i64, i64), &'static str)> {
    vec![
        ((0, 0), "1010"),
        ((0, 1), "00"),
        ((0, 2), "01"),
        ((0, 3), "100"),
        ((0, 4), "1011"),
        ((0, 5), "11010"),
        ((0, 6), "1111000"),
        ((0, 7), "11111000"),
        ((0, 8), "1111110110"),
        ((0, 9), "1111111110000010"),
        ((0, 10), "1111111110000011"),
        ((1, 1), "1100"),
        ((1, 2), "11011"),
        ((1, 3), "1111001"),
        ((1, 4), "111110110"),
        ((1, 5), "11111110110"),
        ((1, 6), "1111111110000100"),
        ((1, 7), "1111111110000101"),
        ((1, 8), "1111111110000110"),
        ((1, 9), "1111111110000111"),
        ((1, 10), "1111111110001000"),
        ((2, 1), "11100"),
        ((2, 2), "11111001"),
        ((2, 3), "1111110111"),
        ((2, 4), "111111110100"),
        ((2, 5), "1111111110001001"),
        ((2, 6), "1111111110001010"),
        ((2, 7), "1111111110001011"),
        ((2, 8), "1111111110001100"),
        ((2, 9), "1111111110001101"),
        ((2, 10), "1111111110001110"),
        ((3, 1), "111010"),
        ((3, 2), "111110111"),
        ((3, 3), "111111110101"),
        ((3, 4), "1111111110001111"),
        ((3, 5), "1111111110010000"),
        ((3, 6), "1111111110010001"),
        ((3, 7), "1111111110010010"),
        ((3, 8), "1111111110010011"),
        ((3, 9), "1111111110010100"),
        ((3, 10), "1111111110010101"),
        ((4, 1), "111011"),
        ((4, 2), "1111111000"),
        ((4, 3), "1111111110010110"),
        ((4, 4), "1111111110010111"),
        ((4, 5), "1111111110011000"),
        ((4, 6), "1111111110011001"),
        ((4, 7), "1111111110011010"),
        ((4, 8), "1111111110011011"),
        ((4, 9), "1111111110011100"),
        ((4, 10), "1111111110011101"),
        ((5, 1), "1111010"),
        ((5, 2), "11111110111"),
        ((5, 3), "1111111110011110"),
        ((5, 4), "1111111110011111"),
        ((5, 5), "1111111110100000"),
        ((5, 6), "1111111110100001"),
        ((5, 7), "1111111110100010"),
        ((5, 8), "1111111110100011"),
        ((5, 9), "1111111110100100"),
        ((5, 10), "1111111110100101"),
        ((6, 1), "1111011"),
        ((6, 2), "111111110110"),
        ((6, 3), "1111111110100110"),
        ((6, 4), "1111111110100111"),
        ((6, 5), "1111111110101000"),
        ((6, 6), "1111111110101001"),
        ((6, 7), "1111111110101010"),
        ((6, 8), "1111111110101011"),
        ((6, 9), "1111111110101100"),
        ((6, 10), "1111111110101101"),
        ((7, 1), "11111010"),
        ((7, 2), "111111110111"),
        ((7, 3), "1111111110101110"),
        ((7, 4), "1111111110101111"),
        ((7, 5), "1111111110110000"),
        ((7, 6), "1111111110110001"),
        ((7, 7), "1111111110110010"),
        ((7, 8), "1111111110110011"),
        ((7, 9), "1111111110110100"),
        ((7, 10), "1111111110110101"),
        ((8, 1), "111111000"),
        ((8, 2), "111111111000000"),
        ((8, 3), "1111111110110110"),
        ((8, 4), "1111111110110111"),
        ((8, 5), "1111111110111000"),
        ((8, 6), "1111111110111001"),
        ((8, 7), "1111111110111010"),
        ((8, 8), "1111111110111011"),
        ((8, 9), "1111111110111100"),
        ((8, 10), "1111111110111101"),
        ((9, 1), "111111001"),
        ((9, 2), "1111111110111110"),
        ((9, 3), "1111111110111111"),
        ((9, 4), "1111111111000000"),
        ((9, 5), "1111111111000001"),
        ((9, 6), "1111111111000010"),
        ((9, 7), "1111111111000011"),
        ((9, 8), "1111111111000100"),
        ((9, 9), "1111111111000101"),
        ((9, 10), "1111111111000110"),
        ((10, 1), "111111010"),
        ((10, 2), "1111111111000111"),
        ((10, 3), "1111111111001000"),
        ((10, 4), "1111111111001001"),
        ((10, 5), "1111111111001010"),
        ((10, 6), "1111111111001011"),
        ((10, 7), "1111111111001100"),
        ((10, 8), "1111111111001101"),
        ((10, 9), "1111111111001110"),
        ((10, 10), "1111111111001111"),
        ((11, 1), "1111111001"),
        ((11, 2), "1111111111010000"),
        ((11, 3), "1111111111010001"),
        ((11, 4), "1111111111010010"),
        ((11, 5), "1111111111010011"),
        ((11, 6), "1111111111010100"),
        ((11, 7), "1111111111010101"),
        ((11, 8), "1111111111010110"),
        ((11, 9), "1111111111010111"),
        ((11, 10), "1111111111011000"),
        ((12, 1), "1111111010"),
        ((12, 2), "1111111111011001"),
        ((12, 3), "1111111111011010"),
        ((12, 4), "1111111111011011"),
        ((12, 5), "1111111111011100"),
        ((12, 6), "1111111111011101"),
        ((12, 7), "1111111111011110"),
        ((12, 8), "1111111111011111"),
        ((12, 9), "1111111111100000"),
        ((12, 10), "1111111111100001"),
        ((13, 1), "11111111000"),
        ((13, 2), "1111111111100010"),
        ((13, 3), "1111111111100011"),
        ((13, 4), "1111111111100100"),
        ((13, 5), "1111111111100101"),
        ((13, 6), "1111111111100110"),
        ((13, 7), "1111111111100111"),
        ((13, 8), "1111111111101000"),
        ((13, 9), "1111111111101001"),
        ((13, 10), "1111111111101010"),
        ((14, 1), "1111111111101011"),
        ((14, 2), "1111111111101100"),
        ((14, 3), "1111111111101101"),
        ((14, 4), "1111111111101110"),
        ((14, 5), "1111111111101111"),
        ((14, 6), "1111111111110000"),
        ((14, 7), "1111111111110001"),
        ((14, 8), "1111111111110010"),
        ((14, 9), "1111111111110011"),
        ((14, 10), "1111111111110100"),
        ((15, 0), "11111111001"),
        ((15, 1), "1111111111110101"),
        ((15, 2), "1111111111110110"),
        ((15, 3), "1111111111110111"),
        ((15, 4), "1111111111111000"),
        ((15, 5), "1111111111111001"),
        ((15, 6), "1111111111111010"),
        ((15, 7), "1111111111111011"),
        ((15, 8), "1111111111111100"),
        ((15, 9), "1111111111111101"),
        ((15, 10), "1111111111111110"),
    ]
}

#[test]
fn codebook_builds() {
    assert!(HuffmanTable::new().is_ok());
}

#[test]
fn every_dc_size_has_its_code() {
    let codebook = HuffmanTable::new().unwrap();
    let codes = dc_codes();
    assert_eq!(codes.len(), 12);
    for (size, code) in codes {
        let mut sink = BitSink::new();
        codebook.write_dc_size(&mut sink, size);
        let bytes = sink.finish();
        assert_eq!(bytes.len(), (code.len() + 7) / 8);
        assert_eq!(bits_of(&bytes, code.len()), code);
    }
}

#[test]
fn every_ac_symbol_has_its_code() {
    let codebook = HuffmanTable::new().unwrap();
    let codes = ac_codes();
    assert_eq!(codes.len(), 162);
    for ((run, size), code) in codes {
        let mut sink = BitSink::new();
        codebook.write_ac_symbol(&mut sink, run, size);
        let bytes = sink.finish();
        assert_eq!(bytes.len(), (code.len() + 7) / 8);
        assert_eq!(bits_of(&bytes, code.len()), code);
    }
}

#[test]
fn every_dc_size_decodes_to_itself() {
    let codebook = HuffmanTable::new().unwrap();
    for size in 0..=11i64 {
        let mut sink = BitSink::new();
        codebook.write_dc_size(&mut sink, size);
        codebook.write_dc_size(&mut sink, 11 - size);
        let mut source = BitSource::new(sink.finish());
        assert_eq!(codebook.read_dc_size(&mut source), Ok(size));
        assert_eq!(codebook.read_dc_size(&mut source), Ok(11 - size));
    }
}

#[test]
fn every_ac_symbol_decodes_to_itself() {
    let codebook = HuffmanTable::new().unwrap();
    for ((run, size), _) in ac_codes() {
        let mut sink = BitSink::new();
        codebook.write_ac_symbol(&mut sink, run, size);
        codebook.write_ac_symbol(&mut sink, 0, 0);
        let mut source = BitSource::new(sink.finish());
        assert_eq!(codebook.read_ac_symbol(&mut source), Ok((run, size)));
        assert_eq!(codebook.read_ac_symbol(&mut source), Ok((0, 0)));
    }
}

#[test]
fn no_code_is_a_prefix_of_another() {
    let dc = dc_codes();
    for (a, code_a) in &dc {
        for (b, code_b) in &dc {
            if a != b {
                assert!(!code_b.starts_with(code_a));
            }
        }
    }
    let ac = ac_codes();
    for (a, code_a) in &ac {
        for (b, code_b) in &ac {
            if a != b {
                assert!(!code_b.starts_with(code_a));
            }
        }
    }
}

#[test]
fn end_of_block_and_sixteen_zeros_have_their_codes() {
    let codebook = HuffmanTable::new().unwrap();
    let mut sink = BitSink::new();
    codebook.write_ac_symbol(&mut sink, 0, 0);
    codebook.write_ac_symbol(&mut sink, 15, 0);
    // 1010 11111111001 and one bit of padding
    assert_eq!(sink.finish(), vec![0b1010_1111, 0b1111_0010]);
}

#[test]
fn dc_code_without_a_size_is_malformed() {
    let codebook = HuffmanTable::new().unwrap();
    let mut source = BitSource::new(vec![0xff, 0xff]);
    assert_eq!(codebook.read_dc_size(&mut source), Err(CodecError::Malformed));
}

#[test]
fn ac_code_without_a_symbol_is_malformed() {
    let codebook = HuffmanTable::new().unwrap();
    let mut source = BitSource::new(vec![0xff, 0xff]);
    assert_eq!(codebook.read_ac_symbol(&mut source), Err(CodecError::Malformed));
}

#[test]
fn code_cut_short_is_truncated() {
    let codebook = HuffmanTable::new().unwrap();
    let mut source = BitSource::new(vec![0xff]);
    assert_eq!(codebook.read_dc_size(&mut source), Err(CodecError::Truncated));
    let mut source = BitSource::new(vec![0xff]);
    assert_eq!(codebook.read_ac_symbol(&mut source), Err(CodecError::Truncated));
    let mut source = BitSource::new(Vec::new());
    assert_eq!(codebook.read_dc_size(&mut source), Err(CodecError::Truncated));
}
