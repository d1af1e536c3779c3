use tinycodec::grid::{write_block, zeros64, BlockGrid};
use tinycodec::tables::{QUANTIZATION_TABLE, SCAN_ORDER_TABLE, UNSCAN_ORDER_TABLE};
use tinycodec::zigzag::{unzigzag_order, zigzag_order};

fn counting_block(offset: i64) -> Vec<i64> {
    (0..64).map(|i| offset + i as i64 * 3).collect()
}

#[test]
fn scan_table_is_a_permutation() {
    let mut seen = [false; 64];
    for i in 0..64 {
        assert!(!seen[SCAN_ORDER_TABLE[i]]);
        seen[SCAN_ORDER_TABLE[i]] = true;
    }
}

#[test]
fn unscan_table_is_the_inverse_of_the_scan_table() {
    for i in 0..64 {
        assert_eq!(UNSCAN_ORDER_TABLE[SCAN_ORDER_TABLE[i]], i);
        assert_eq!(SCAN_ORDER_TABLE[UNSCAN_ORDER_TABLE[i]], i);
    }
}

#[test]
fn scan_starts_along_the_first_diagonals() {
    assert_eq!(&SCAN_ORDER_TABLE[0..10], &[0, 1, 8, 16, 9, 2, 3, 10, 17, 24]);
    assert_eq!(SCAN_ORDER_TABLE[63], 63);
}

#[test]
fn quantization_table_has_no_zero() {
    for i in 0..64 {
        assert!(QUANTIZATION_TABLE[i] > 0);
    }
    assert_eq!(QUANTIZATION_TABLE[0], 16);
    assert_eq!(QUANTIZATION_TABLE[63], 99);
}

#[test]
fn zigzag_reads_raster_positions_in_scan_order() {
    let block: Vec<i64> = (0..64).collect();
    let mut grid = BlockGrid::from_rows(&vec![block]).unwrap();
    zigzag_order(&mut grid);
    let expected: Vec<i64> = SCAN_ORDER_TABLE.iter().map(|&p| p as i64).collect();
    assert_eq!(grid.to_rows(), vec![expected]);
}

#[test]
fn unzigzag_undoes_zigzag() {
    let blocks = vec![counting_block(-90), counting_block(7), counting_block(1000)];
    let mut grid = BlockGrid::from_rows(&blocks).unwrap();
    zigzag_order(&mut grid);
    assert_ne!(grid.to_rows(), blocks);
    unzigzag_order(&mut grid);
    assert_eq!(grid.to_rows(), blocks);
}

#[test]
fn zigzag_undoes_unzigzag() {
    let blocks = vec![counting_block(5), counting_block(-500)];
    let mut grid = BlockGrid::from_rows(&blocks).unwrap();
    unzigzag_order(&mut grid);
    zigzag_order(&mut grid);
    assert_eq!(grid.to_rows(), blocks);
}

#[test]
fn zigzag_of_an_empty_grid_is_empty() {
    let mut grid = BlockGrid::new(0);
    zigzag_order(&mut grid);
    unzigzag_order(&mut grid);
    assert_eq!(grid.len(), 0);
}

#[test]
fn write_block_replaces_one_block() {
    let mut grid = BlockGrid::new(3);
    let block = counting_block(1);
    write_block(&mut grid, 1, &block);
    assert_eq!(grid.to_rows(), vec![zeros64(), block, zeros64()]);
}

#[test]
fn grid_set_changes_one_coefficient() {
    let mut grid = BlockGrid::new(2);
    assert_eq!(grid.len(), 2);
    grid.set(1, 63, -42);
    assert_eq!(grid.get(1, 63), -42);
    assert_eq!(grid.get(0, 63), 0);
    assert_eq!(grid.get(1, 62), 0);
}

#[test]
fn grid_from_rows_wants_blocks_of_sixty_four() {
    assert!(BlockGrid::from_rows(&vec![vec![0i64; 63]]).is_none());
    assert!(BlockGrid::from_rows(&vec![vec![0i64; 64], vec![0i64; 65]]).is_none());
    assert!(BlockGrid::from_rows(&vec![vec![1i64; 64]]).is_some());
    assert_eq!(BlockGrid::from_rows(&Vec::new()).unwrap().len(), 0);
}
