//! The fixed tables of the codec: quantization steps and the zigzag scan.

use vstd::prelude::*;

verus! {

/// Quantization step of each coefficient, in raster order. The same table
/// serves the luma plane and both chroma planes. No entry is zero.
pub const QUANTIZATION_TABLE: [i64; 64] = [
    16, 11, 10, 16, 24, 40, 51, 61,
    12, 12, 14, 19, 26, 58, 60, 55,
    14, 13, 16, 24, 40, 57, 69, 56,
    14, 17, 22, 29, 51, 87, 80, 62,
    18, 22, 37, 56, 68, 109, 103, 77,
    24, 35, 55, 64, 81, 104, 113, 92,
    49, 64, 78, 87, 103, 121, 120, 101,
    72, 92, 95, 98, 112, 100, 103, 99,
];

/// The zigzag scan: entry `i` is the raster position of the coefficient that
/// comes `i`-th in zigzag order, low frequencies first.
pub const SCAN_ORDER_TABLE: [usize; 64] = [
    0, 1, 8, 16, 9, 2, 3, 10,
    17, 24, 32, 25, 18, 11, 4, 5,
    12, 19, 26, 33, 40, 48, 41, 34,
    27, 20, 13, 6, 7, 14, 21, 28,
    35, 42, 49, 56, 57, 50, 43, 36,
    29, 22, 15, 23, 30, 37, 44, 51,
    58, 59, 52, 45, 38, 31, 39, 46,
    53, 60, 61, 54, 47, 55, 62, 63,
];

/// The inverse of the scan: entry `j` is the zigzag position of the
/// coefficient at raster position `j`.
pub const UNSCAN_ORDER_TABLE: [usize; 64] = [
    0, 1, 5, 6, 14, 15, 27, 28,
    2, 4, 7, 13, 16, 26, 29, 42,
    3, 8, 12, 17, 25, 30, 41, 43,
    9, 11, 18, 24, 31, 40, 44, 53,
    10, 19, 23, 32, 39, 45, 52, 54,
    20, 22, 33, 38, 46, 51, 55, 60,
    21, 34, 37, 47, 50, 56, 59, 61,
    35, 36, 48, 49, 57, 58, 62, 63,
];

/// The scan table is a permutation of the 64 positions and the unscan table
/// is its inverse.
pub proof fn lemma_scan_is_permutation()
    ensures
        forall|i: int| 0 <= i < 64 ==> 0 <= #[trigger] SCAN_ORDER_TABLE[i] < 64,
        forall|j: int| 0 <= j < 64 ==> 0 <= #[trigger] UNSCAN_ORDER_TABLE[j] < 64,
        forall|i: int|
            0 <= i < 64 ==> UNSCAN_ORDER_TABLE[#[trigger] SCAN_ORDER_TABLE[i] as int] == i,
        forall|j: int|
            0 <= j < 64 ==> SCAN_ORDER_TABLE[#[trigger] UNSCAN_ORDER_TABLE[j] as int] == j,
{
}

/// Every quantization step lies between 10 and 121.
pub proof fn lemma_quantization_steps_positive()
    ensures
        forall|i: int| 0 <= i < 64 ==> 10 <= #[trigger] QUANTIZATION_TABLE[i] <= 121,
{
}

} // verus!
