//! Size categories and the bits of a coefficient value.
//!
//! A coefficient is coded as its size category, the number of bits of its
//! magnitude, followed by that many value bits. A positive value is written
//! as it is; a negative value `v` of size `s` is written as `v + 2^s - 1`,
//! which is `(v - 1)` masked to `s` bits. The top value bit thus tells the
//! sign: it is set for positive values and clear for negative ones.

use vstd::prelude::*;
use vstd::arithmetic::power2::{
    lemma2_to64, lemma_pow2_pos, lemma_pow2_strictly_increases, lemma_pow2_unfold, pow2,
};
use crate::bitio::{be_bits, be_value, lemma_be_bits_len, lemma_be_value_of_be_bits};

verus! {

/// Number of bits needed to write `n`: 0 for 0, and otherwise the position
/// of the highest set bit, counted from 1.
pub open spec fn bit_length(n: nat) -> nat
    decreases n,
{
    if n == 0 {
        0
    } else {
        1 + bit_length(n / 2)
    }
}

/// The magnitude of `v`.
pub open spec fn magnitude(v: int) -> nat {
    if v >= 0 {
        v as nat
    } else {
        (-v) as nat
    }
}

/// The size category of a coefficient: the bit length of its magnitude.
pub open spec fn size_category(v: int) -> nat {
    bit_length(magnitude(v))
}

/// The number that is written for the value `v`, in `size_category(v)` bits.
pub open spec fn value_code(v: int) -> nat {
    if v >= 0 {
        v as nat
    } else {
        (v + pow2(size_category(v)) - 1) as nat
    }
}

/// The value bits of `v`, most significant first; none for 0.
pub open spec fn value_bits(v: int) -> Seq<bool> {
    be_bits(value_code(v), size_category(v))
}

/// The value that the number `code`, read from `size` bits, stands for.
pub open spec fn decode_value(code: nat, size: nat) -> int {
    if size == 0 {
        0
    } else if code >= pow2((size - 1) as nat) {
        code as int
    } else {
        code - pow2(size) + 1
    }
}

/// A number with bit length `s > 0` lies between `2^(s-1)` and `2^s - 1`.
pub proof fn lemma_bit_length_bounds(n: nat)
    ensures
        n == 0 <==> bit_length(n) == 0,
        n > 0 ==> pow2((bit_length(n) - 1) as nat) <= n < pow2(bit_length(n)),
    decreases n,
{
    if n > 0 {
        lemma_bit_length_bounds(n / 2);
        lemma_pow2_unfold(bit_length(n));
        if n / 2 == 0 {
            lemma2_to64();
        } else {
            lemma_pow2_unfold(bit_length(n / 2));
        }
    }
}

/// A number below `2^s` has bit length at most `s`.
pub proof fn lemma_bit_length_at_most(n: nat, s: nat)
    requires
        n < pow2(s),
    ensures
        bit_length(n) <= s,
{
    lemma_bit_length_bounds(n);
    if n > 0 && bit_length(n) > s {
        if s < bit_length(n) - 1 {
            lemma_pow2_strictly_increases(s, (bit_length(n) - 1) as nat);
        }
    }
}

/// The number written for a value fits its size category, and reading it
/// back gives the value.
pub proof fn lemma_value_code_round_trip(v: int)
    ensures
        value_code(v) < pow2(size_category(v)),
        decode_value(value_code(v), size_category(v)) == v,
        size_category(v) == 0 <==> v == 0,
{
    lemma_bit_length_bounds(magnitude(v));
    lemma_pow2_pos(size_category(v));
    if v != 0 {
        lemma_pow2_unfold(size_category(v));
    }
}

/// Reading the value bits of `v` back, with anything after them, gives `v`
/// and leaves what came after.
pub proof fn lemma_value_bits_round_trip(v: int, rest: Seq<bool>)
    ensures
        value_bits(v).len() == size_category(v),
        (value_bits(v) + rest).take(size_category(v) as int) == value_bits(v),
        (value_bits(v) + rest).skip(size_category(v) as int) == rest,
        decode_value(be_value(value_bits(v)), size_category(v)) == v,
{
    lemma_value_code_round_trip(v);
    lemma_be_bits_len(value_code(v), size_category(v));
    lemma_be_value_of_be_bits(value_code(v), size_category(v));
    assert((value_bits(v) + rest).take(size_category(v) as int) =~= value_bits(v));
    assert((value_bits(v) + rest).skip(size_category(v) as int) =~= rest);
}

/// A value read from `size` bits is smaller in magnitude than `2^size`.
pub proof fn lemma_decode_value_bound(code: nat, size: nat)
    requires
        code < pow2(size),
    ensures
        -pow2(size) < decode_value(code, size) < pow2(size),
{
    lemma_pow2_pos(size);
}

/// The power of two `2^exponent`.
pub fn power_of_two(exponent: u32) -> (p: i64)
    requires
        exponent <= 62,
    ensures
        p == pow2(exponent as nat),
{
    let mut p: i64 = 1;
    let mut k: u32 = 0;
    proof {
        lemma2_to64();
    }
    while k < exponent
        invariant
            k <= exponent <= 62,
            p == pow2(k as nat),
            p <= 0x4000_0000_0000_0000,
        decreases exponent - k,
    {
        proof {
            lemma_pow2_unfold((k + 1) as nat);
            if k + 1 < 62 {
                lemma_pow2_strictly_increases((k + 1) as nat, 62);
            }
            lemma2_to64();
            vstd::arithmetic::power2::lemma2_to64_rest();
        }
        p = p * 2;
        k += 1;
    }
    p
}

/// The size category of `v`.
pub fn category_of(v: i64) -> (size: u32)
    ensures
        size == size_category(v as int),
        size <= 64,
{
    let mut rest: u64 = if v >= 0 {
        v as u64
    } else {
        (-(v + 1)) as u64 + 1
    };
    let mut size: u32 = 0;
    proof {
        lemma2_to64();
        vstd::arithmetic::power2::lemma2_to64_rest();
        assert(rest < pow2(64));
        lemma_bit_length_at_most(rest as nat, 64);
    }
    while rest > 0
        invariant
            size + bit_length(rest as nat) == size_category(v as int),
            size_category(v as int) <= 64,
        decreases rest,
    {
        rest = rest / 2;
        size += 1;
    }
    size
}

/// The number that is written for `v` in `size` bits.
pub fn offset_code(v: i64, size: u32) -> (code: i64)
    requires
        size == size_category(v as int),
        size <= 16,
    ensures
        code == value_code(v as int),
        0 <= code < pow2(size as nat),
{
    proof {
        lemma_value_code_round_trip(v as int);
        lemma_bit_length_bounds(magnitude(v as int));
        lemma2_to64();
        if size < 16 {
            lemma_pow2_strictly_increases(size as nat, 16);
        }
    }
    if v >= 0 {
        v
    } else {
        v + power_of_two(size) - 1
    }
}

/// The value that `code`, read from `size` bits, stands for.
pub fn value_of_code(code: i64, size: u32) -> (v: i64)
    requires
        size <= 16,
        0 <= code < pow2(size as nat),
    ensures
        v == decode_value(code as nat, size as nat),
{
    proof {
        lemma2_to64();
        if size < 16 {
            lemma_pow2_strictly_increases(size as nat, 16);
        }
    }
    if size == 0 {
        0
    } else if code >= power_of_two(size - 1) {
        code
    } else {
        code - power_of_two(size) + 1
    }
}

} // verus!
