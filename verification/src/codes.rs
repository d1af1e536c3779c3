//! The two prefix codes of the entropy coder.
//!
//! One code is keyed by the size category of a DC coefficient, the other by
//! the pair of a zero run and the size category of an AC coefficient. Both
//! are canonical: listed shortest code first, every code is the one before
//! it plus one, with zero bits appended where the length grows. Such a list
//! is prefix-free, which is what makes decoding unambiguous. Each code is
//! complete as well, thanks to a last entry that stands for no symbol.

use vstd::prelude::*;
use vstd::arithmetic::div_mod::{
    lemma_div_is_ordered, lemma_div_multiples_vanish, lemma_fundamental_div_mod_converse,
};
use vstd::arithmetic::mul::{lemma_mul_inequality, lemma_mul_is_associative};
use vstd::arithmetic::power2::{lemma2_to64, lemma_pow2_adds, lemma_pow2_pos, pow2};
use crate::bitio::{
    be_bits, be_value, lemma_be_bits_len, lemma_be_bits_of_be_value, lemma_be_bits_take,
    lemma_be_value_bound, lemma_be_value_of_be_bits, zero_bits,
};

verus! {

/// Size category of each entry of the DC code, shortest code first. The last
/// entry, `-1`, stands for the one code that carries no category.
pub const DC_SYMBOLS: [i64; 13] = [
    0, 1, 2, 3, 4, 5, 6, 7, 8, 9, 10, 11,
    -1,
];

/// Number of bits of each DC code.
pub const DC_LENGTHS: [u32; 13] = [
    2, 3, 3, 3, 3, 3, 4, 5, 6, 7, 8, 9,
    9,
];

/// Each DC code as a number; its low `DC_LENGTHS[i]` bits are the code.
pub const DC_CODES: [u32; 13] = [
    0, 2, 3, 4, 5, 6, 14, 30, 62, 126, 254, 510,
    511,
];

/// Zero run of each entry of the AC code, shortest code first. The last
/// entry, `(-1, -1)`, stands for the one code that carries no symbol.
pub const AC_RUNS: [i64; 163] = [
    0, 0, 0, 0, 0, 1, 0, 1, 2, 3, 4, 0,
    1, 5, 6, 0, 2, 7, 1, 3, 8, 9, 10, 0,
    2, 4, 11, 12, 1, 5, 13, 15, 2, 3, 6, 7,
    8, 0, 0, 1, 1, 1, 1, 1, 2, 2, 2, 2,
    2, 2, 3, 3, 3, 3, 3, 3, 3, 4, 4, 4,
    4, 4, 4, 4, 4, 5, 5, 5, 5, 5, 5, 5,
    5, 6, 6, 6, 6, 6, 6, 6, 6, 7, 7, 7,
    7, 7, 7, 7, 7, 8, 8, 8, 8, 8, 8, 8,
    8, 9, 9, 9, 9, 9, 9, 9, 9, 9, 10, 10,
    10, 10, 10, 10, 10, 10, 10, 11, 11, 11, 11, 11,
    11, 11, 11, 11, 12, 12, 12, 12, 12, 12, 12, 12,
    12, 13, 13, 13, 13, 13, 13, 13, 13, 13, 14, 14,
    14, 14, 14, 14, 14, 14, 14, 14, 15, 15, 15, 15,
    15, 15, 15, 15, 15, 15, -1,
];

/// Size category of each entry of the AC code.
pub const AC_SIZES: [i64; 163] = [
    1, 2, 3, 0, 4, 1, 5, 2, 1, 1, 1, 6,
    3, 1, 1, 7, 2, 1, 4, 2, 1, 1, 1, 8,
    3, 2, 1, 1, 5, 2, 1, 0, 4, 3, 2, 2,
    2, 9, 10, 6, 7, 8, 9, 10, 5, 6, 7, 8,
    9, 10, 4, 5, 6, 7, 8, 9, 10, 3, 4, 5,
    6, 7, 8, 9, 10, 3, 4, 5, 6, 7, 8, 9,
    10, 3, 4, 5, 6, 7, 8, 9, 10, 3, 4, 5,
    6, 7, 8, 9, 10, 3, 4, 5, 6, 7, 8, 9,
    10, 2, 3, 4, 5, 6, 7, 8, 9, 10, 2, 3,
    4, 5, 6, 7, 8, 9, 10, 2, 3, 4, 5, 6,
    7, 8, 9, 10, 2, 3, 4, 5, 6, 7, 8, 9,
    10, 2, 3, 4, 5, 6, 7, 8, 9, 10, 1, 2,
    3, 4, 5, 6, 7, 8, 9, 10, 1, 2, 3, 4,
    5, 6, 7, 8, 9, 10, -1,
];

/// Number of bits of each AC code.
pub const AC_LENGTHS: [u32; 163] = [
    2, 2, 3, 4, 4, 4, 5, 5, 5, 6, 6, 7,
    7, 7, 7, 8, 8, 8, 9, 9, 9, 9, 9, 10,
    10, 10, 10, 10, 11, 11, 11, 11, 12, 12, 12, 12,
    15, 16, 16, 16, 16, 16, 16, 16, 16, 16, 16, 16,
    16, 16, 16, 16, 16, 16, 16, 16, 16, 16, 16, 16,
    16, 16, 16, 16, 16, 16, 16, 16, 16, 16, 16, 16,
    16, 16, 16, 16, 16, 16, 16, 16, 16, 16, 16, 16,
    16, 16, 16, 16, 16, 16, 16, 16, 16, 16, 16, 16,
    16, 16, 16, 16, 16, 16, 16, 16, 16, 16, 16, 16,
    16, 16, 16, 16, 16, 16, 16, 16, 16, 16, 16, 16,
    16, 16, 16, 16, 16, 16, 16, 16, 16, 16, 16, 16,
    16, 16, 16, 16, 16, 16, 16, 16, 16, 16, 16, 16,
    16, 16, 16, 16, 16, 16, 16, 16, 16, 16, 16, 16,
    16, 16, 16, 16, 16, 16, 16,
];

/// Each AC code as a number; its low `AC_LENGTHS[i]` bits are the code.
pub const AC_CODES: [u32; 163] = [
    0, 1, 4, 10, 11, 12, 26, 27, 28, 58, 59, 120,
    121, 122, 123, 248, 249, 250, 502, 503, 504, 505, 506, 1014,
    1015, 1016, 1017, 1018, 2038, 2039, 2040, 2041, 4084, 4085, 4086, 4087,
    32704, 65410, 65411, 65412, 65413, 65414, 65415, 65416, 65417, 65418, 65419, 65420,
    65421, 65422, 65423, 65424, 65425, 65426, 65427, 65428, 65429, 65430, 65431, 65432,
    65433, 65434, 65435, 65436, 65437, 65438, 65439, 65440, 65441, 65442, 65443, 65444,
    65445, 65446, 65447, 65448, 65449, 65450, 65451, 65452, 65453, 65454, 65455, 65456,
    65457, 65458, 65459, 65460, 65461, 65462, 65463, 65464, 65465, 65466, 65467, 65468,
    65469, 65470, 65471, 65472, 65473, 65474, 65475, 65476, 65477, 65478, 65479, 65480,
    65481, 65482, 65483, 65484, 65485, 65486, 65487, 65488, 65489, 65490, 65491, 65492,
    65493, 65494, 65495, 65496, 65497, 65498, 65499, 65500, 65501, 65502, 65503, 65504,
    65505, 65506, 65507, 65508, 65509, 65510, 65511, 65512, 65513, 65514, 65515, 65516,
    65517, 65518, 65519, 65520, 65521, 65522, 65523, 65524, 65525, 65526, 65527, 65528,
    65529, 65530, 65531, 65532, 65533, 65534, 65535,
];

/// Where the symbol `(run, size)` stands in the AC tables, at position
/// `run * 11 + size`; 255 where the code has no such symbol.
pub const AC_INDEX: [usize; 176] = [
    3, 0, 1, 2, 4, 6, 11, 15, 23, 37, 38,
    255, 5, 7, 12, 18, 28, 39, 40, 41, 42, 43,
    255, 8, 16, 24, 32, 44, 45, 46, 47, 48, 49,
    255, 9, 19, 33, 50, 51, 52, 53, 54, 55, 56,
    255, 10, 25, 57, 58, 59, 60, 61, 62, 63, 64,
    255, 13, 29, 65, 66, 67, 68, 69, 70, 71, 72,
    255, 14, 34, 73, 74, 75, 76, 77, 78, 79, 80,
    255, 17, 35, 81, 82, 83, 84, 85, 86, 87, 88,
    255, 20, 36, 89, 90, 91, 92, 93, 94, 95, 96,
    255, 21, 97, 98, 99, 100, 101, 102, 103, 104, 105,
    255, 22, 106, 107, 108, 109, 110, 111, 112, 113, 114,
    255, 26, 115, 116, 117, 118, 119, 120, 121, 122, 123,
    255, 27, 124, 125, 126, 127, 128, 129, 130, 131, 132,
    255, 30, 133, 134, 135, 136, 137, 138, 139, 140, 141,
    255, 142, 143, 144, 145, 146, 147, 148, 149, 150, 151,
    31, 152, 153, 154, 155, 156, 157, 158, 159, 160, 161,
];

/// Zero run and size category of the symbol that ends a block early.
pub const EOB: (i64, i64) = (0, 0);

/// Zero run and size category of the symbol that stands for sixteen zeros.
pub const ZRL: (i64, i64) = (15, 0);

/// Code values and code lengths of a canonical code: every value fits its
/// length, lengths never shrink, and each value is its predecessor plus one,
/// shifted left by the growth in length.
pub open spec fn is_canonical(values: Seq<nat>, lengths: Seq<nat>) -> bool {
    &&& values.len() == lengths.len()
    &&& forall|i: int| 0 <= i < values.len() ==> #[trigger] values[i] < pow2(lengths[i])
    &&& forall|i: int|
        0 <= i < values.len() - 1 ==> lengths[i] <= #[trigger] lengths[i + 1]
    &&& forall|i: int|
        0 <= i < values.len() - 1 ==> #[trigger] values[i + 1] == (values[i] + 1) * pow2(
            (lengths[i + 1] - lengths[i]) as nat,
        )
}

/// The codes as bit strings, most significant bit first.
pub open spec fn codewords(values: Seq<nat>, lengths: Seq<nat>) -> Seq<Seq<bool>> {
    Seq::new(values.len(), |i: int| be_bits(values[i], lengths[i]))
}

/// No code is a prefix of another code of the list.
pub open spec fn is_prefix_free(codes: Seq<Seq<bool>>) -> bool {
    forall|i: int, j: int|
        0 <= i < codes.len() && 0 <= j < codes.len() && i != j ==> !(#[trigger] codes[i]).is_prefix_of(
            #[trigger] codes[j],
        )
}

/// Code `i` of the list stands at the head of `bits`.
pub open spec fn code_matches(codes: Seq<Seq<bool>>, bits: Seq<bool>, i: int) -> bool {
    0 <= i < codes.len() && codes[i].is_prefix_of(bits)
}

/// The code that stands at the head of `bits`, if any does. For a
/// prefix-free list at most one does.
pub open spec fn find_code(codes: Seq<Seq<bool>>, bits: Seq<bool>) -> Option<int> {
    if exists|i: int| code_matches(codes, bits, i) {
        Some(choose|i: int| code_matches(codes, bits, i))
    } else {
        None
    }
}

/// In a canonical code a later entry lies above every earlier one, even
/// after the earlier one is extended to the later one's length.
pub proof fn lemma_canonical_gap(values: Seq<nat>, lengths: Seq<nat>, i: int, j: int)
    requires
        is_canonical(values, lengths),
        0 <= i < j < values.len(),
    ensures
        lengths[i] <= lengths[j],
        values[j] >= (values[i] + 1) * pow2((lengths[j] - lengths[i]) as nat),
    decreases j - i,
{
    let k = j - 1;
    assert(lengths[k] <= lengths[k + 1]);
    assert(values[k + 1] == (values[k] + 1) * pow2((lengths[k + 1] - lengths[k]) as nat));
    if i == k {
    } else {
        lemma_canonical_gap(values, lengths, i, k);
        let d1 = (lengths[k] - lengths[i]) as nat;
        let d2 = (lengths[j] - lengths[k]) as nat;
        let a = values[i] + 1;
        lemma_pow2_adds(d1, d2);
        lemma_pow2_pos(d2);
        assert(values[k] + 1 >= a * pow2(d1));
        lemma_mul_inequality((a * pow2(d1)) as int, (values[k] + 1) as int, pow2(d2) as int);
        lemma_mul_is_associative(a as int, pow2(d1) as int, pow2(d2) as int);
    }
}

/// A canonical code is prefix-free.
pub proof fn lemma_canonical_is_prefix_free(values: Seq<nat>, lengths: Seq<nat>)
    requires
        is_canonical(values, lengths),
    ensures
        is_prefix_free(codewords(values, lengths)),
{
    let codes = codewords(values, lengths);
    assert forall|i: int, j: int|
        0 <= i < codes.len() && 0 <= j < codes.len() && i != j implies !(#[trigger] codes[i]).is_prefix_of(
        #[trigger] codes[j],
    ) by {
        lemma_be_bits_len(values[i], lengths[i]);
        lemma_be_bits_len(values[j], lengths[j]);
        if codes[i].is_prefix_of(codes[j]) {
            let d = (lengths[j] - lengths[i]) as nat;
            let q = values[j] / pow2(d);
            lemma_pow2_pos(d);
            lemma_be_bits_take(values[j], lengths[j], lengths[i]);
            assert(codes[j].take(lengths[i] as int) == be_bits(q, lengths[i]));
            assert(codes[i] =~= codes[j].take(lengths[i] as int));
            // the quotient fits the shorter length
            lemma_pow2_adds(lengths[i], d);
            assert(values[j] < pow2(lengths[j]));
            assert(q < pow2(lengths[i])) by {
                if q >= pow2(lengths[i]) {
                    lemma_mul_inequality(pow2(lengths[i]) as int, q as int, pow2(d) as int);
                    vstd::arithmetic::div_mod::lemma_fundamental_div_mod(
                        values[j] as int,
                        pow2(d) as int,
                    );
                    assert(q * pow2(d) == pow2(d) * q) by (nonlinear_arith);
                }
            }
            assert(values[i] < pow2(lengths[i]));
            lemma_be_value_of_be_bits(q, lengths[i]);
            lemma_be_value_of_be_bits(values[i], lengths[i]);
            assert(q == values[i]);
            if i < j {
                lemma_canonical_gap(values, lengths, i, j);
                let a = (values[i] + 1) as int;
                let p = pow2(d) as int;
                assert(values[j] >= a * p);
                lemma_div_is_ordered(a * p, values[j] as int, p);
                lemma_div_multiples_vanish(a, p);
                assert(a * p == p * a) by (nonlinear_arith);
                assert((a * p) / p == a);
                assert(q >= a);
                assert(false);
            } else {
                lemma_canonical_gap(values, lengths, j, i);
                assert(lengths[i] == lengths[j]);
                lemma2_to64();
                assert(false);
            }
        }
    }
}

/// In a prefix-free list, the only code at the head of a code followed by
/// anything is that code itself.
pub proof fn lemma_find_code_after_append(codes: Seq<Seq<bool>>, i: int, rest: Seq<bool>)
    requires
        is_prefix_free(codes),
        0 <= i < codes.len(),
    ensures
        find_code(codes, codes[i] + rest) == Some(i),
        (codes[i] + rest).skip(codes[i].len() as int) == rest,
{
    let bits = codes[i] + rest;
    assert(bits.subrange(0, codes[i].len() as int) =~= codes[i]);
    assert(code_matches(codes, bits, i));
    assert forall|j: int| code_matches(codes, bits, j) implies j == i by {
        if j != i {
            if codes[j].len() <= codes[i].len() {
                assert(codes[j] =~= codes[i].subrange(0, codes[j].len() as int));
                assert(codes[j].is_prefix_of(codes[i]));
            } else {
                assert(codes[i] =~= codes[j].subrange(0, codes[i].len() as int));
                assert(codes[i].is_prefix_of(codes[j]));
            }
        }
    }
    assert(bits.skip(codes[i].len() as int) =~= rest);
}

/// In a prefix-free list, two codes at the head of the same bits are the
/// same code.
pub proof fn lemma_code_match_unique(codes: Seq<Seq<bool>>, bits: Seq<bool>, i: int, j: int)
    requires
        is_prefix_free(codes),
        code_matches(codes, bits, i),
        code_matches(codes, bits, j),
    ensures
        i == j,
{
    if i != j {
        if codes[j].len() <= codes[i].len() {
            assert(codes[j] =~= codes[i].subrange(0, codes[j].len() as int));
            assert(codes[j].is_prefix_of(codes[i]));
        } else {
            assert(codes[i] =~= codes[j].subrange(0, codes[i].len() as int));
            assert(codes[i].is_prefix_of(codes[j]));
        }
    }
}

/// Code `i` of the list stands at the head of `bits`, or `bits` are the
/// start of code `i`.
pub open spec fn code_covers(codes: Seq<Seq<bool>>, bits: Seq<bool>, i: int) -> bool {
    0 <= i < codes.len() && (codes[i].is_prefix_of(bits) || bits.is_prefix_of(codes[i]))
}

/// Some code of the list stands at the head of `bits`, or `bits` are the
/// start of some code.
pub open spec fn is_covered(codes: Seq<Seq<bool>>, bits: Seq<bool>) -> bool {
    exists|i: int| code_covers(codes, bits, i)
}

/// The code leaves no bit string out: walking the code tree along any bits
/// either reaches a code or stays on the way to one, so that every path of
/// the tree ends in a leaf.
pub open spec fn is_complete(codes: Seq<Seq<bool>>) -> bool {
    forall|bits: Seq<bool>| #[trigger] is_covered(codes, bits)
}

/// Where the range of code `i` starts, when every code is extended to
/// `top` bits.
pub open spec fn tile_start(values: Seq<nat>, lengths: Seq<nat>, top: nat, i: int) -> nat {
    values[i] * pow2((top - lengths[i]) as nat)
}

/// Where the range of code `i` ends, when every code is extended to `top`
/// bits.
pub open spec fn tile_end(values: Seq<nat>, lengths: Seq<nat>, top: nat, i: int) -> nat {
    (values[i] + 1) * pow2((top - lengths[i]) as nat)
}

/// In a canonical code the range of a code starts where the range of the
/// code before it ends.
pub proof fn lemma_tiles_touch(values: Seq<nat>, lengths: Seq<nat>, top: nat, i: int)
    requires
        is_canonical(values, lengths),
        0 <= i < values.len() - 1,
        lengths[i + 1] <= top,
    ensures
        tile_end(values, lengths, top, i) == tile_start(values, lengths, top, i + 1),
{
    assert(lengths[i] <= lengths[i + 1]);
    assert(values[i + 1] == (values[i] + 1) * pow2((lengths[i + 1] - lengths[i]) as nat));
    let a = (values[i] + 1) as int;
    let d = (lengths[i + 1] - lengths[i]) as nat;
    let e = (top - lengths[i + 1]) as nat;
    lemma_pow2_adds(d, e);
    lemma_mul_is_associative(a, pow2(d) as int, pow2(e) as int);
}

/// In a canonical code that starts at zero, every number below the end of
/// the range of code `k` lies in the range of a code up to `k`.
pub proof fn lemma_find_tile(values: Seq<nat>, lengths: Seq<nat>, top: nat, x: nat, k: int) -> (i:
    int)
    requires
        is_canonical(values, lengths),
        0 <= k < values.len(),
        values[0] == 0,
        forall|j: int| 0 <= j < lengths.len() ==> #[trigger] lengths[j] <= top,
        x < tile_end(values, lengths, top, k),
    ensures
        0 <= i <= k,
        tile_start(values, lengths, top, i) <= x < tile_end(values, lengths, top, i),
    decreases k,
{
    if x >= tile_start(values, lengths, top, k) {
        k
    } else {
        assert(k > 0) by {
            if k == 0 {
                assert(tile_start(values, lengths, top, 0) == 0) by (nonlinear_arith)
                    requires
                        values[0] == 0,
                        tile_start(values, lengths, top, 0) == values[0] * pow2(
                            (top - lengths[0]) as nat,
                        ),
                ;
            }
        }
        assert(lengths[k] <= top);
        lemma_tiles_touch(values, lengths, top, k - 1);
        lemma_find_tile(values, lengths, top, x, k - 1)
    }
}

/// A string of `top` bits whose number lies in the range of code `i` has
/// code `i` at its head.
pub proof fn lemma_tile_has_code(
    values: Seq<nat>,
    lengths: Seq<nat>,
    top: nat,
    word: Seq<bool>,
    i: int,
)
    requires
        0 <= i < values.len(),
        values.len() == lengths.len(),
        lengths[i] <= top,
        word.len() == top,
        tile_start(values, lengths, top, i) <= be_value(word) < tile_end(values, lengths, top, i),
    ensures
        codewords(values, lengths)[i] == word.take(lengths[i] as int),
        codewords(values, lengths)[i].is_prefix_of(word),
{
    let x = be_value(word);
    let p = pow2((top - lengths[i]) as nat);
    lemma_pow2_pos((top - lengths[i]) as nat);
    lemma_be_bits_of_be_value(word);
    lemma_be_bits_take(x, top, lengths[i]);
    let r = x - values[i] * p;
    assert(0 <= r < p) by (nonlinear_arith)
        requires
            values[i] * p <= x < (values[i] + 1) * p,
            r == x - values[i] * p,
    ;
    assert(x == p * values[i] + r) by (nonlinear_arith)
        requires
            r == x - values[i] * p,
    ;
    lemma_fundamental_div_mod_converse(x as int, p as int, values[i] as int, r as int);
    lemma_be_bits_len(values[i], lengths[i]);
    assert(codewords(values, lengths)[i] =~= word.take(lengths[i] as int));
}

/// A canonical code that starts at zero and whose last code is all ones is
/// complete.
pub proof fn lemma_canonical_is_complete(values: Seq<nat>, lengths: Seq<nat>, top: nat)
    requires
        is_canonical(values, lengths),
        values.len() > 0,
        values[0] == 0,
        forall|j: int| 0 <= j < lengths.len() ==> #[trigger] lengths[j] <= top,
        values[values.len() - 1] + 1 == pow2(lengths[lengths.len() - 1]),
    ensures
        is_complete(codewords(values, lengths)),
{
    let codes = codewords(values, lengths);
    let last = values.len() - 1;
    assert(lengths[last] <= top);
    lemma_pow2_adds(lengths[last], (top - lengths[last]) as nat);
    assert(tile_end(values, lengths, top, last) == pow2(top));
    assert forall|bits: Seq<bool>| #[trigger] is_covered(codes, bits) by {
        let word = if bits.len() >= top {
            bits.take(top as int)
        } else {
            bits + zero_bits((top - bits.len()) as nat)
        };
        lemma_be_value_bound(word);
        let i = lemma_find_tile(values, lengths, top, be_value(word), last);
        assert(lengths[i] <= top);
        lemma_tile_has_code(values, lengths, top, word, i);
        lemma_be_bits_len(values[i], lengths[i]);
        if bits.len() >= lengths[i] {
            assert(codes[i] =~= bits.subrange(0, lengths[i] as int));
            assert(codes[i].is_prefix_of(bits));
        } else {
            assert(bits =~= codes[i].subrange(0, bits.len() as int));
            assert(bits.is_prefix_of(codes[i]));
        }
        assert(code_covers(codes, bits, i));
    }
}

/// The DC code values, as numbers.
pub open spec fn dc_values() -> Seq<nat> {
    Seq::new(13, |i: int| DC_CODES[i] as nat)
}

/// The DC code lengths.
pub open spec fn dc_lengths() -> Seq<nat> {
    Seq::new(13, |i: int| DC_LENGTHS[i] as nat)
}

/// The DC codes as bit strings, in table order.
pub open spec fn dc_codewords() -> Seq<Seq<bool>> {
    codewords(dc_values(), dc_lengths())
}

/// The AC code values, as numbers.
pub open spec fn ac_values() -> Seq<nat> {
    Seq::new(163, |i: int| AC_CODES[i] as nat)
}

/// The AC code lengths.
pub open spec fn ac_lengths() -> Seq<nat> {
    Seq::new(163, |i: int| AC_LENGTHS[i] as nat)
}

/// The AC codes as bit strings, in table order.
pub open spec fn ac_codewords() -> Seq<Seq<bool>> {
    codewords(ac_values(), ac_lengths())
}

/// The size categories that the DC code can carry.
pub open spec fn is_dc_size(size: int) -> bool {
    0 <= size <= 11
}

/// The symbols that the AC code can carry: a run of at most 15 zeros
/// followed by a coefficient of size 1 to 10, the end of block `(0, 0)`,
/// and sixteen zeros `(15, 0)`.
pub open spec fn is_ac_symbol(run: int, size: int) -> bool {
    &&& 0 <= run <= 15
    &&& 0 <= size <= 10
    &&& (size == 0 ==> run == 0 || run == 15)
}

/// Where the symbol `(run, size)` stands in the AC tables.
pub open spec fn ac_index(run: int, size: int) -> int {
    AC_INDEX[run * 11 + size] as int
}

/// The code of the DC size category `size`.
pub open spec fn dc_code(size: int) -> Seq<bool> {
    dc_codewords()[size]
}

/// The code of the AC symbol `(run, size)`.
pub open spec fn ac_code(run: int, size: int) -> Seq<bool> {
    ac_codewords()[ac_index(run, size)]
}

/// The DC tables list the size categories 0 to 11 in order, then the entry
/// without a category; every code has between 2 and 9 bits.
pub proof fn lemma_dc_symbols()
    ensures
        forall|i: int| 0 <= i < 12 ==> #[trigger] DC_SYMBOLS[i] == i,
        DC_SYMBOLS[12] == -1,
        forall|i: int| 0 <= i < 13 ==> 2 <= #[trigger] DC_LENGTHS[i] <= 9,
{
}

/// The DC code is canonical.
pub proof fn lemma_dc_code_is_canonical()
    ensures
        is_canonical(dc_values(), dc_lengths()),
{
    lemma_dc_codes_fit();
    lemma_dc_codes_step();
}

/// Every DC code value fits its length.
proof fn lemma_dc_codes_fit()
    ensures
        forall|i: int|
            0 <= i < dc_values().len() ==> #[trigger] dc_values()[i] < pow2(dc_lengths()[i]),
{
    lemma2_to64();
    assert(dc_values()[0] == 0 && dc_lengths()[0] == 2 && 0 < pow2(2));
    assert(dc_values()[1] == 2 && dc_lengths()[1] == 3 && 2 < pow2(3));
    assert(dc_values()[2] == 3 && dc_lengths()[2] == 3 && 3 < pow2(3));
    assert(dc_values()[3] == 4 && dc_lengths()[3] == 3 && 4 < pow2(3));
    assert(dc_values()[4] == 5 && dc_lengths()[4] == 3 && 5 < pow2(3));
    assert(dc_values()[5] == 6 && dc_lengths()[5] == 3 && 6 < pow2(3));
    assert(dc_values()[6] == 14 && dc_lengths()[6] == 4 && 14 < pow2(4));
    assert(dc_values()[7] == 30 && dc_lengths()[7] == 5 && 30 < pow2(5));
    assert(dc_values()[8] == 62 && dc_lengths()[8] == 6 && 62 < pow2(6));
    assert(dc_values()[9] == 126 && dc_lengths()[9] == 7 && 126 < pow2(7));
    assert(dc_values()[10] == 254 && dc_lengths()[10] == 8 && 254 < pow2(8));
    assert(dc_values()[11] == 510 && dc_lengths()[11] == 9 && 510 < pow2(9));
    assert(dc_values()[12] == 511 && dc_lengths()[12] == 9 && 511 < pow2(9));
}

/// Every DC code value but the first is its predecessor plus one, shifted
/// left by the growth in length.
proof fn lemma_dc_codes_step()
    ensures
        forall|i: int|
            0 <= i < dc_values().len() - 1 ==> dc_lengths()[i] <= #[trigger] dc_lengths()[i + 1],
        forall|i: int|
            0 <= i < dc_values().len() - 1 ==> #[trigger] dc_values()[i + 1] == (dc_values()[i] + 1)
                * pow2((dc_lengths()[i + 1] - dc_lengths()[i]) as nat),
{
    lemma2_to64();
    assert(2 == (0 + 1) * pow2(1));
    assert(3 == (2 + 1) * pow2(0));
    assert(4 == (3 + 1) * pow2(0));
    assert(5 == (4 + 1) * pow2(0));
    assert(6 == (5 + 1) * pow2(0));
    assert(14 == (6 + 1) * pow2(1));
    assert(30 == (14 + 1) * pow2(1));
    assert(62 == (30 + 1) * pow2(1));
    assert(126 == (62 + 1) * pow2(1));
    assert(254 == (126 + 1) * pow2(1));
    assert(510 == (254 + 1) * pow2(1));
    assert(511 == (510 + 1) * pow2(0));
}

/// The AC index table and the AC symbol tables agree: a symbol that the
/// code can carry is found at its index, every entry but the last holds
/// such a symbol and is found by it, and every code has 2 to 16 bits.
pub proof fn lemma_ac_symbols()
    ensures
        forall|run: int, size: int|
            is_ac_symbol(run, size) ==> 0 <= #[trigger] ac_index(run, size) < 162 && AC_RUNS[ac_index(
                run,
                size,
            )] == run && AC_SIZES[ac_index(run, size)] == size,
        forall|i: int|
            0 <= i < 162 ==> is_ac_symbol(#[trigger] AC_RUNS[i] as int, AC_SIZES[i] as int)
                && ac_index(AC_RUNS[i] as int, AC_SIZES[i] as int) == i,
        AC_RUNS[162] == -1 && AC_SIZES[162] == -1,
        forall|i: int| 0 <= i < 163 ==> 2 <= #[trigger] AC_LENGTHS[i] <= 16,
{
}

/// The AC code is canonical.
pub proof fn lemma_ac_code_is_canonical()
    ensures
        is_canonical(ac_values(), ac_lengths()),
{
    lemma_ac_codes_fit();
    lemma_ac_codes_step();
}

/// Every AC code value fits its length.
proof fn lemma_ac_codes_fit()
    ensures
        forall|i: int|
            0 <= i < ac_values().len() ==> #[trigger] ac_values()[i] < pow2(ac_lengths()[i]),
{
    lemma2_to64();
    assert(ac_values()[0] == 0 && ac_lengths()[0] == 2 && 0 < pow2(2));
    assert(ac_values()[1] == 1 && ac_lengths()[1] == 2 && 1 < pow2(2));
    assert(ac_values()[2] == 4 && ac_lengths()[2] == 3 && 4 < pow2(3));
    assert(ac_values()[3] == 10 && ac_lengths()[3] == 4 && 10 < pow2(4));
    assert(ac_values()[4] == 11 && ac_lengths()[4] == 4 && 11 < pow2(4));
    assert(ac_values()[5] == 12 && ac_lengths()[5] == 4 && 12 < pow2(4));
    assert(ac_values()[6] == 26 && ac_lengths()[6] == 5 && 26 < pow2(5));
    assert(ac_values()[7] == 27 && ac_lengths()[7] == 5 && 27 < pow2(5));
    assert(ac_values()[8] == 28 && ac_lengths()[8] == 5 && 28 < pow2(5));
    assert(ac_values()[9] == 58 && ac_lengths()[9] == 6 && 58 < pow2(6));
    assert(ac_values()[10] == 59 && ac_lengths()[10] == 6 && 59 < pow2(6));
    assert(ac_values()[11] == 120 && ac_lengths()[11] == 7 && 120 < pow2(7));
    assert(ac_values()[12] == 121 && ac_lengths()[12] == 7 && 121 < pow2(7));
    assert(ac_values()[13] == 122 && ac_lengths()[13] == 7 && 122 < pow2(7));
    assert(ac_values()[14] == 123 && ac_lengths()[14] == 7 && 123 < pow2(7));
    assert(ac_values()[15] == 248 && ac_lengths()[15] == 8 && 248 < pow2(8));
    assert(ac_values()[16] == 249 && ac_lengths()[16] == 8 && 249 < pow2(8));
    assert(ac_values()[17] == 250 && ac_lengths()[17] == 8 && 250 < pow2(8));
    assert(ac_values()[18] == 502 && ac_lengths()[18] == 9 && 502 < pow2(9));
    assert(ac_values()[19] == 503 && ac_lengths()[19] == 9 && 503 < pow2(9));
    assert(ac_values()[20] == 504 && ac_lengths()[20] == 9 && 504 < pow2(9));
    assert(ac_values()[21] == 505 && ac_lengths()[21] == 9 && 505 < pow2(9));
    assert(ac_values()[22] == 506 && ac_lengths()[22] == 9 && 506 < pow2(9));
    assert(ac_values()[23] == 1014 && ac_lengths()[23] == 10 && 1014 < pow2(10));
    assert(ac_values()[24] == 1015 && ac_lengths()[24] == 10 && 1015 < pow2(10));
    assert(ac_values()[25] == 1016 && ac_lengths()[25] == 10 && 1016 < pow2(10));
    assert(ac_values()[26] == 1017 && ac_lengths()[26] == 10 && 1017 < pow2(10));
    assert(ac_values()[27] == 1018 && ac_lengths()[27] == 10 && 1018 < pow2(10));
    assert(ac_values()[28] == 2038 && ac_lengths()[28] == 11 && 2038 < pow2(11));
    assert(ac_values()[29] == 2039 && ac_lengths()[29] == 11 && 2039 < pow2(11));
    assert(ac_values()[30] == 2040 && ac_lengths()[30] == 11 && 2040 < pow2(11));
    assert(ac_values()[31] == 2041 && ac_lengths()[31] == 11 && 2041 < pow2(11));
    assert(ac_values()[32] == 4084 && ac_lengths()[32] == 12 && 4084 < pow2(12));
    assert(ac_values()[33] == 4085 && ac_lengths()[33] == 12 && 4085 < pow2(12));
    assert(ac_values()[34] == 4086 && ac_lengths()[34] == 12 && 4086 < pow2(12));
    assert(ac_values()[35] == 4087 && ac_lengths()[35] == 12 && 4087 < pow2(12));
    assert(ac_values()[36] == 32704 && ac_lengths()[36] == 15 && 32704 < pow2(15));
    assert(ac_values()[37] == 65410 && ac_lengths()[37] == 16 && 65410 < pow2(16));
    assert(ac_values()[38] == 65411 && ac_lengths()[38] == 16 && 65411 < pow2(16));
    assert(ac_values()[39] == 65412 && ac_lengths()[39] == 16 && 65412 < pow2(16));
    assert(ac_values()[40] == 65413 && ac_lengths()[40] == 16 && 65413 < pow2(16));
    assert(ac_values()[41] == 65414 && ac_lengths()[41] == 16 && 65414 < pow2(16));
    assert(ac_values()[42] == 65415 && ac_lengths()[42] == 16 && 65415 < pow2(16));
    assert(ac_values()[43] == 65416 && ac_lengths()[43] == 16 && 65416 < pow2(16));
    assert(ac_values()[44] == 65417 && ac_lengths()[44] == 16 && 65417 < pow2(16));
    assert(ac_values()[45] == 65418 && ac_lengths()[45] == 16 && 65418 < pow2(16));
    assert(ac_values()[46] == 65419 && ac_lengths()[46] == 16 && 65419 < pow2(16));
    assert(ac_values()[47] == 65420 && ac_lengths()[47] == 16 && 65420 < pow2(16));
    assert(ac_values()[48] == 65421 && ac_lengths()[48] == 16 && 65421 < pow2(16));
    assert(ac_values()[49] == 65422 && ac_lengths()[49] == 16 && 65422 < pow2(16));
    assert(ac_values()[50] == 65423 && ac_lengths()[50] == 16 && 65423 < pow2(16));
    assert(ac_values()[51] == 65424 && ac_lengths()[51] == 16 && 65424 < pow2(16));
    assert(ac_values()[52] == 65425 && ac_lengths()[52] == 16 && 65425 < pow2(16));
    assert(ac_values()[53] == 65426 && ac_lengths()[53] == 16 && 65426 < pow2(16));
    assert(ac_values()[54] == 65427 && ac_lengths()[54] == 16 && 65427 < pow2(16));
    assert(ac_values()[55] == 65428 && ac_lengths()[55] == 16 && 65428 < pow2(16));
    assert(ac_values()[56] == 65429 && ac_lengths()[56] == 16 && 65429 < pow2(16));
    assert(ac_values()[57] == 65430 && ac_lengths()[57] == 16 && 65430 < pow2(16));
    assert(ac_values()[58] == 65431 && ac_lengths()[58] == 16 && 65431 < pow2(16));
    assert(ac_values()[59] == 65432 && ac_lengths()[59] == 16 && 65432 < pow2(16));
    assert(ac_values()[60] == 65433 && ac_lengths()[60] == 16 && 65433 < pow2(16));
    assert(ac_values()[61] == 65434 && ac_lengths()[61] == 16 && 65434 < pow2(16));
    assert(ac_values()[62] == 65435 && ac_lengths()[62] == 16 && 65435 < pow2(16));
    assert(ac_values()[63] == 65436 && ac_lengths()[63] == 16 && 65436 < pow2(16));
    assert(ac_values()[64] == 65437 && ac_lengths()[64] == 16 && 65437 < pow2(16));
    assert(ac_values()[65] == 65438 && ac_lengths()[65] == 16 && 65438 < pow2(16));
    assert(ac_values()[66] == 65439 && ac_lengths()[66] == 16 && 65439 < pow2(16));
    assert(ac_values()[67] == 65440 && ac_lengths()[67] == 16 && 65440 < pow2(16));
    assert(ac_values()[68] == 65441 && ac_lengths()[68] == 16 && 65441 < pow2(16));
    assert(ac_values()[69] == 65442 && ac_lengths()[69] == 16 && 65442 < pow2(16));
    assert(ac_values()[70] == 65443 && ac_lengths()[70] == 16 && 65443 < pow2(16));
    assert(ac_values()[71] == 65444 && ac_lengths()[71] == 16 && 65444 < pow2(16));
    assert(ac_values()[72] == 65445 && ac_lengths()[72] == 16 && 65445 < pow2(16));
    assert(ac_values()[73] == 65446 && ac_lengths()[73] == 16 && 65446 < pow2(16));
    assert(ac_values()[74] == 65447 && ac_lengths()[74] == 16 && 65447 < pow2(16));
    assert(ac_values()[75] == 65448 && ac_lengths()[75] == 16 && 65448 < pow2(16));
    assert(ac_values()[76] == 65449 && ac_lengths()[76] == 16 && 65449 < pow2(16));
    assert(ac_values()[77] == 65450 && ac_lengths()[77] == 16 && 65450 < pow2(16));
    assert(ac_values()[78] == 65451 && ac_lengths()[78] == 16 && 65451 < pow2(16));
    assert(ac_values()[79] == 65452 && ac_lengths()[79] == 16 && 65452 < pow2(16));
    assert(ac_values()[80] == 65453 && ac_lengths()[80] == 16 && 65453 < pow2(16));
    assert(ac_values()[81] == 65454 && ac_lengths()[81] == 16 && 65454 < pow2(16));
    assert(ac_values()[82] == 65455 && ac_lengths()[82] == 16 && 65455 < pow2(16));
    assert(ac_values()[83] == 65456 && ac_lengths()[83] == 16 && 65456 < pow2(16));
    assert(ac_values()[84] == 65457 && ac_lengths()[84] == 16 && 65457 < pow2(16));
    assert(ac_values()[85] == 65458 && ac_lengths()[85] == 16 && 65458 < pow2(16));
    assert(ac_values()[86] == 65459 && ac_lengths()[86] == 16 && 65459 < pow2(16));
    assert(ac_values()[87] == 65460 && ac_lengths()[87] == 16 && 65460 < pow2(16));
    assert(ac_values()[88] == 65461 && ac_lengths()[88] == 16 && 65461 < pow2(16));
    assert(ac_values()[89] == 65462 && ac_lengths()[89] == 16 && 65462 < pow2(16));
    assert(ac_values()[90] == 65463 && ac_lengths()[90] == 16 && 65463 < pow2(16));
    assert(ac_values()[91] == 65464 && ac_lengths()[91] == 16 && 65464 < pow2(16));
    assert(ac_values()[92] == 65465 && ac_lengths()[92] == 16 && 65465 < pow2(16));
    assert(ac_values()[93] == 65466 && ac_lengths()[93] == 16 && 65466 < pow2(16));
    assert(ac_values()[94] == 65467 && ac_lengths()[94] == 16 && 65467 < pow2(16));
    assert(ac_values()[95] == 65468 && ac_lengths()[95] == 16 && 65468 < pow2(16));
    assert(ac_values()[96] == 65469 && ac_lengths()[96] == 16 && 65469 < pow2(16));
    assert(ac_values()[97] == 65470 && ac_lengths()[97] == 16 && 65470 < pow2(16));
    assert(ac_values()[98] == 65471 && ac_lengths()[98] == 16 && 65471 < pow2(16));
    assert(ac_values()[99] == 65472 && ac_lengths()[99] == 16 && 65472 < pow2(16));
    assert(ac_values()[100] == 65473 && ac_lengths()[100] == 16 && 65473 < pow2(16));
    assert(ac_values()[101] == 65474 && ac_lengths()[101] == 16 && 65474 < pow2(16));
    assert(ac_values()[102] == 65475 && ac_lengths()[102] == 16 && 65475 < pow2(16));
    assert(ac_values()[103] == 65476 && ac_lengths()[103] == 16 && 65476 < pow2(16));
    assert(ac_values()[104] == 65477 && ac_lengths()[104] == 16 && 65477 < pow2(16));
    assert(ac_values()[105] == 65478 && ac_lengths()[105] == 16 && 65478 < pow2(16));
    assert(ac_values()[106] == 65479 && ac_lengths()[106] == 16 && 65479 < pow2(16));
    assert(ac_values()[107] == 65480 && ac_lengths()[107] == 16 && 65480 < pow2(16));
    assert(ac_values()[108] == 65481 && ac_lengths()[108] == 16 && 65481 < pow2(16));
    assert(ac_values()[109] == 65482 && ac_lengths()[109] == 16 && 65482 < pow2(16));
    assert(ac_values()[110] == 65483 && ac_lengths()[110] == 16 && 65483 < pow2(16));
    assert(ac_values()[111] == 65484 && ac_lengths()[111] == 16 && 65484 < pow2(16));
    assert(ac_values()[112] == 65485 && ac_lengths()[112] == 16 && 65485 < pow2(16));
    assert(ac_values()[113] == 65486 && ac_lengths()[113] == 16 && 65486 < pow2(16));
    assert(ac_values()[114] == 65487 && ac_lengths()[114] == 16 && 65487 < pow2(16));
    assert(ac_values()[115] == 65488 && ac_lengths()[115] == 16 && 65488 < pow2(16));
    assert(ac_values()[116] == 65489 && ac_lengths()[116] == 16 && 65489 < pow2(16));
    assert(ac_values()[117] == 65490 && ac_lengths()[117] == 16 && 65490 < pow2(16));
    assert(ac_values()[118] == 65491 && ac_lengths()[118] == 16 && 65491 < pow2(16));
    assert(ac_values()[119] == 65492 && ac_lengths()[119] == 16 && 65492 < pow2(16));
    assert(ac_values()[120] == 65493 && ac_lengths()[120] == 16 && 65493 < pow2(16));
    assert(ac_values()[121] == 65494 && ac_lengths()[121] == 16 && 65494 < pow2(16));
    assert(ac_values()[122] == 65495 && ac_lengths()[122] == 16 && 65495 < pow2(16));
    assert(ac_values()[123] == 65496 && ac_lengths()[123] == 16 && 65496 < pow2(16));
    assert(ac_values()[124] == 65497 && ac_lengths()[124] == 16 && 65497 < pow2(16));
    assert(ac_values()[125] == 65498 && ac_lengths()[125] == 16 && 65498 < pow2(16));
    assert(ac_values()[126] == 65499 && ac_lengths()[126] == 16 && 65499 < pow2(16));
    assert(ac_values()[127] == 65500 && ac_lengths()[127] == 16 && 65500 < pow2(16));
    assert(ac_values()[128] == 65501 && ac_lengths()[128] == 16 && 65501 < pow2(16));
    assert(ac_values()[129] == 65502 && ac_lengths()[129] == 16 && 65502 < pow2(16));
    assert(ac_values()[130] == 65503 && ac_lengths()[130] == 16 && 65503 < pow2(16));
    assert(ac_values()[131] == 65504 && ac_lengths()[131] == 16 && 65504 < pow2(16));
    assert(ac_values()[132] == 65505 && ac_lengths()[132] == 16 && 65505 < pow2(16));
    assert(ac_values()[133] == 65506 && ac_lengths()[133] == 16 && 65506 < pow2(16));
    assert(ac_values()[134] == 65507 && ac_lengths()[134] == 16 && 65507 < pow2(16));
    assert(ac_values()[135] == 65508 && ac_lengths()[135] == 16 && 65508 < pow2(16));
    assert(ac_values()[136] == 65509 && ac_lengths()[136] == 16 && 65509 < pow2(16));
    assert(ac_values()[137] == 65510 && ac_lengths()[137] == 16 && 65510 < pow2(16));
    assert(ac_values()[138] == 65511 && ac_lengths()[138] == 16 && 65511 < pow2(16));
    assert(ac_values()[139] == 65512 && ac_lengths()[139] == 16 && 65512 < pow2(16));
    assert(ac_values()[140] == 65513 && ac_lengths()[140] == 16 && 65513 < pow2(16));
    assert(ac_values()[141] == 65514 && ac_lengths()[141] == 16 && 65514 < pow2(16));
    assert(ac_values()[142] == 65515 && ac_lengths()[142] == 16 && 65515 < pow2(16));
    assert(ac_values()[143] == 65516 && ac_lengths()[143] == 16 && 65516 < pow2(16));
    assert(ac_values()[144] == 65517 && ac_lengths()[144] == 16 && 65517 < pow2(16));
    assert(ac_values()[145] == 65518 && ac_lengths()[145] == 16 && 65518 < pow2(16));
    assert(ac_values()[146] == 65519 && ac_lengths()[146] == 16 && 65519 < pow2(16));
    assert(ac_values()[147] == 65520 && ac_lengths()[147] == 16 && 65520 < pow2(16));
    assert(ac_values()[148] == 65521 && ac_lengths()[148] == 16 && 65521 < pow2(16));
    assert(ac_values()[149] == 65522 && ac_lengths()[149] == 16 && 65522 < pow2(16));
    assert(ac_values()[150] == 65523 && ac_lengths()[150] == 16 && 65523 < pow2(16));
    assert(ac_values()[151] == 65524 && ac_lengths()[151] == 16 && 65524 < pow2(16));
    assert(ac_values()[152] == 65525 && ac_lengths()[152] == 16 && 65525 < pow2(16));
    assert(ac_values()[153] == 65526 && ac_lengths()[153] == 16 && 65526 < pow2(16));
    assert(ac_values()[154] == 65527 && ac_lengths()[154] == 16 && 65527 < pow2(16));
    assert(ac_values()[155] == 65528 && ac_lengths()[155] == 16 && 65528 < pow2(16));
    assert(ac_values()[156] == 65529 && ac_lengths()[156] == 16 && 65529 < pow2(16));
    assert(ac_values()[157] == 65530 && ac_lengths()[157] == 16 && 65530 < pow2(16));
    assert(ac_values()[158] == 65531 && ac_lengths()[158] == 16 && 65531 < pow2(16));
    assert(ac_values()[159] == 65532 && ac_lengths()[159] == 16 && 65532 < pow2(16));
    assert(ac_values()[160] == 65533 && ac_lengths()[160] == 16 && 65533 < pow2(16));
    assert(ac_values()[161] == 65534 && ac_lengths()[161] == 16 && 65534 < pow2(16));
    assert(ac_values()[162] == 65535 && ac_lengths()[162] == 16 && 65535 < pow2(16));
}

/// Every AC code value but the first is its predecessor plus one, shifted
/// left by the growth in length.
proof fn lemma_ac_codes_step()
    ensures
        forall|i: int|
            0 <= i < ac_values().len() - 1 ==> ac_lengths()[i] <= #[trigger] ac_lengths()[i + 1],
        forall|i: int|
            0 <= i < ac_values().len() - 1 ==> #[trigger] ac_values()[i + 1] == (ac_values()[i] + 1)
                * pow2((ac_lengths()[i + 1] - ac_lengths()[i]) as nat),
{
    lemma2_to64();
    assert(1 == (0 + 1) * pow2(0));
    assert(4 == (1 + 1) * pow2(1));
    assert(10 == (4 + 1) * pow2(1));
    assert(11 == (10 + 1) * pow2(0));
    assert(12 == (11 + 1) * pow2(0));
    assert(26 == (12 + 1) * pow2(1));
    assert(27 == (26 + 1) * pow2(0));
    assert(28 == (27 + 1) * pow2(0));
    assert(58 == (28 + 1) * pow2(1));
    assert(59 == (58 + 1) * pow2(0));
    assert(120 == (59 + 1) * pow2(1));
    assert(121 == (120 + 1) * pow2(0));
    assert(122 == (121 + 1) * pow2(0));
    assert(123 == (122 + 1) * pow2(0));
    assert(248 == (123 + 1) * pow2(1));
    assert(249 == (248 + 1) * pow2(0));
    assert(250 == (249 + 1) * pow2(0));
    assert(502 == (250 + 1) * pow2(1));
    assert(503 == (502 + 1) * pow2(0));
    assert(504 == (503 + 1) * pow2(0));
    assert(505 == (504 + 1) * pow2(0));
    assert(506 == (505 + 1) * pow2(0));
    assert(1014 == (506 + 1) * pow2(1));
    assert(1015 == (1014 + 1) * pow2(0));
    assert(1016 == (1015 + 1) * pow2(0));
    assert(1017 == (1016 + 1) * pow2(0));
    assert(1018 == (1017 + 1) * pow2(0));
    assert(2038 == (1018 + 1) * pow2(1));
    assert(2039 == (2038 + 1) * pow2(0));
    assert(2040 == (2039 + 1) * pow2(0));
    assert(2041 == (2040 + 1) * pow2(0));
    assert(4084 == (2041 + 1) * pow2(1));
    assert(4085 == (4084 + 1) * pow2(0));
    assert(4086 == (4085 + 1) * pow2(0));
    assert(4087 == (4086 + 1) * pow2(0));
    assert(32704 == (4087 + 1) * pow2(3));
    assert(65410 == (32704 + 1) * pow2(1));
    assert(65411 == (65410 + 1) * pow2(0));
    assert(65412 == (65411 + 1) * pow2(0));
    assert(65413 == (65412 + 1) * pow2(0));
    assert(65414 == (65413 + 1) * pow2(0));
    assert(65415 == (65414 + 1) * pow2(0));
    assert(65416 == (65415 + 1) * pow2(0));
    assert(65417 == (65416 + 1) * pow2(0));
    assert(65418 == (65417 + 1) * pow2(0));
    assert(65419 == (65418 + 1) * pow2(0));
    assert(65420 == (65419 + 1) * pow2(0));
    assert(65421 == (65420 + 1) * pow2(0));
    assert(65422 == (65421 + 1) * pow2(0));
    assert(65423 == (65422 + 1) * pow2(0));
    assert(65424 == (65423 + 1) * pow2(0));
    assert(65425 == (65424 + 1) * pow2(0));
    assert(65426 == (65425 + 1) * pow2(0));
    assert(65427 == (65426 + 1) * pow2(0));
    assert(65428 == (65427 + 1) * pow2(0));
    assert(65429 == (65428 + 1) * pow2(0));
    assert(65430 == (65429 + 1) * pow2(0));
    assert(65431 == (65430 + 1) * pow2(0));
    assert(65432 == (65431 + 1) * pow2(0));
    assert(65433 == (65432 + 1) * pow2(0));
    assert(65434 == (65433 + 1) * pow2(0));
    assert(65435 == (65434 + 1) * pow2(0));
    assert(65436 == (65435 + 1) * pow2(0));
    assert(65437 == (65436 + 1) * pow2(0));
    assert(65438 == (65437 + 1) * pow2(0));
    assert(65439 == (65438 + 1) * pow2(0));
    assert(65440 == (65439 + 1) * pow2(0));
    assert(65441 == (65440 + 1) * pow2(0));
    assert(65442 == (65441 + 1) * pow2(0));
    assert(65443 == (65442 + 1) * pow2(0));
    assert(65444 == (65443 + 1) * pow2(0));
    assert(65445 == (65444 + 1) * pow2(0));
    assert(65446 == (65445 + 1) * pow2(0));
    assert(65447 == (65446 + 1) * pow2(0));
    assert(65448 == (65447 + 1) * pow2(0));
    assert(65449 == (65448 + 1) * pow2(0));
    assert(65450 == (65449 + 1) * pow2(0));
    assert(65451 == (65450 + 1) * pow2(0));
    assert(65452 == (65451 + 1) * pow2(0));
    assert(65453 == (65452 + 1) * pow2(0));
    assert(65454 == (65453 + 1) * pow2(0));
    assert(65455 == (65454 + 1) * pow2(0));
    assert(65456 == (65455 + 1) * pow2(0));
    assert(65457 == (65456 + 1) * pow2(0));
    assert(65458 == (65457 + 1) * pow2(0));
    assert(65459 == (65458 + 1) * pow2(0));
    assert(65460 == (65459 + 1) * pow2(0));
    assert(65461 == (65460 + 1) * pow2(0));
    assert(65462 == (65461 + 1) * pow2(0));
    assert(65463 == (65462 + 1) * pow2(0));
    assert(65464 == (65463 + 1) * pow2(0));
    assert(65465 == (65464 + 1) * pow2(0));
    assert(65466 == (65465 + 1) * pow2(0));
    assert(65467 == (65466 + 1) * pow2(0));
    assert(65468 == (65467 + 1) * pow2(0));
    assert(65469 == (65468 + 1) * pow2(0));
    assert(65470 == (65469 + 1) * pow2(0));
    assert(65471 == (65470 + 1) * pow2(0));
    assert(65472 == (65471 + 1) * pow2(0));
    assert(65473 == (65472 + 1) * pow2(0));
    assert(65474 == (65473 + 1) * pow2(0));
    assert(65475 == (65474 + 1) * pow2(0));
    assert(65476 == (65475 + 1) * pow2(0));
    assert(65477 == (65476 + 1) * pow2(0));
    assert(65478 == (65477 + 1) * pow2(0));
    assert(65479 == (65478 + 1) * pow2(0));
    assert(65480 == (65479 + 1) * pow2(0));
    assert(65481 == (65480 + 1) * pow2(0));
    assert(65482 == (65481 + 1) * pow2(0));
    assert(65483 == (65482 + 1) * pow2(0));
    assert(65484 == (65483 + 1) * pow2(0));
    assert(65485 == (65484 + 1) * pow2(0));
    assert(65486 == (65485 + 1) * pow2(0));
    assert(65487 == (65486 + 1) * pow2(0));
    assert(65488 == (65487 + 1) * pow2(0));
    assert(65489 == (65488 + 1) * pow2(0));
    assert(65490 == (65489 + 1) * pow2(0));
    assert(65491 == (65490 + 1) * pow2(0));
    assert(65492 == (65491 + 1) * pow2(0));
    assert(65493 == (65492 + 1) * pow2(0));
    assert(65494 == (65493 + 1) * pow2(0));
    assert(65495 == (65494 + 1) * pow2(0));
    assert(65496 == (65495 + 1) * pow2(0));
    assert(65497 == (65496 + 1) * pow2(0));
    assert(65498 == (65497 + 1) * pow2(0));
    assert(65499 == (65498 + 1) * pow2(0));
    assert(65500 == (65499 + 1) * pow2(0));
    assert(65501 == (65500 + 1) * pow2(0));
    assert(65502 == (65501 + 1) * pow2(0));
    assert(65503 == (65502 + 1) * pow2(0));
    assert(65504 == (65503 + 1) * pow2(0));
    assert(65505 == (65504 + 1) * pow2(0));
    assert(65506 == (65505 + 1) * pow2(0));
    assert(65507 == (65506 + 1) * pow2(0));
    assert(65508 == (65507 + 1) * pow2(0));
    assert(65509 == (65508 + 1) * pow2(0));
    assert(65510 == (65509 + 1) * pow2(0));
    assert(65511 == (65510 + 1) * pow2(0));
    assert(65512 == (65511 + 1) * pow2(0));
    assert(65513 == (65512 + 1) * pow2(0));
    assert(65514 == (65513 + 1) * pow2(0));
    assert(65515 == (65514 + 1) * pow2(0));
    assert(65516 == (65515 + 1) * pow2(0));
    assert(65517 == (65516 + 1) * pow2(0));
    assert(65518 == (65517 + 1) * pow2(0));
    assert(65519 == (65518 + 1) * pow2(0));
    assert(65520 == (65519 + 1) * pow2(0));
    assert(65521 == (65520 + 1) * pow2(0));
    assert(65522 == (65521 + 1) * pow2(0));
    assert(65523 == (65522 + 1) * pow2(0));
    assert(65524 == (65523 + 1) * pow2(0));
    assert(65525 == (65524 + 1) * pow2(0));
    assert(65526 == (65525 + 1) * pow2(0));
    assert(65527 == (65526 + 1) * pow2(0));
    assert(65528 == (65527 + 1) * pow2(0));
    assert(65529 == (65528 + 1) * pow2(0));
    assert(65530 == (65529 + 1) * pow2(0));
    assert(65531 == (65530 + 1) * pow2(0));
    assert(65532 == (65531 + 1) * pow2(0));
    assert(65533 == (65532 + 1) * pow2(0));
    assert(65534 == (65533 + 1) * pow2(0));
    assert(65535 == (65534 + 1) * pow2(0));
}

/// Neither code has one code that is a prefix of another.
pub proof fn lemma_codes_are_prefix_free()
    ensures
        is_prefix_free(dc_codewords()),
        is_prefix_free(ac_codewords()),
{
    lemma_dc_code_is_canonical();
    lemma_ac_code_is_canonical();
    lemma_canonical_is_prefix_free(dc_values(), dc_lengths());
    lemma_canonical_is_prefix_free(ac_values(), ac_lengths());
}

/// Both codes are complete: every path of their trees ends in a leaf.
pub proof fn lemma_codes_are_complete()
    ensures
        is_complete(dc_codewords()),
        is_complete(ac_codewords()),
{
    lemma2_to64();
    lemma_dc_code_is_canonical();
    lemma_ac_code_is_canonical();
    lemma_dc_symbols();
    lemma_ac_symbols();
    assert(dc_values()[12] + 1 == pow2(dc_lengths()[12]));
    assert(ac_values()[162] + 1 == pow2(ac_lengths()[162]));
    lemma_canonical_is_complete(dc_values(), dc_lengths(), 16);
    lemma_canonical_is_complete(ac_values(), ac_lengths(), 16);
}

} // verus!
