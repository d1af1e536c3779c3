use tinycodec::bitio::{BitSink, BitSource};
use tinycodec::category::{category_of, offset_code, value_of_code};
use tinycodec::entropy::{read_value_bits, write_value_bits};

#[test]
fn positive_five_is_size_three_bits_101() {
    assert_eq!(category_of(5), 3);
    assert_eq!(offset_code(5, 3), 0b101);
    let mut sink = BitSink::new();
    write_value_bits(&mut sink, 5, 3);
    assert_eq!(sink.finish(), vec![0b1010_0000]);
}

#[test]
fn negative_five_is_size_three_bits_010() {
    assert_eq!(category_of(-5), 3);
    assert_eq!(offset_code(-5, 3), 0b010);
    let mut sink = BitSink::new();
    write_value_bits(&mut sink, -5, 3);
    assert_eq!(sink.finish(), vec![0b0100_0000]);
}

#[test]
fn zero_is_size_zero_without_value_bits() {
    assert_eq!(category_of(0), 0);
    let mut sink = BitSink::new();
    write_value_bits(&mut sink, 0, 0);
    assert_eq!(sink.finish(), Vec::<u8>::new());
}

#[test]
fn value_codes_read_back() {
    for v in -2047i64..=2047 {
        let size = category_of(v);
        let code = offset_code(v, size);
        assert!(code >= 0 && code < (1 << size));
        assert_eq!(value_of_code(code, size), v);
    }
}

#[test]
fn value_bits_read_back_from_a_source() {
    let mut sink = BitSink::new();
    write_value_bits(&mut sink, -1023, 10);
    write_value_bits(&mut sink, 1, 1);
    write_value_bits(&mut sink, 2047, 11);
    let mut source = BitSource::new(sink.finish());
    assert_eq!(read_value_bits(&mut source, 10), Ok(-1023));
    assert_eq!(read_value_bits(&mut source, 1), Ok(1));
    assert_eq!(read_value_bits(&mut source, 11), Ok(2047));
}
