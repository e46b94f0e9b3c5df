//! IEEE 754 binary64 numbers, held by their bit patterns.
//!
//! A coordinate is a 64-bit floating-point number. This module never touches
//! the hardware's floating-point unit: it works on the number's encoding (as
//! given by `f64::to_bits`) with integer arithmetic, and its contracts are
//! stated over the value `significand * 2^exponent` that the encoding denotes.

use vstd::prelude::*;
use vstd::arithmetic::div_mod::lemma_basic_div;
use vstd::arithmetic::power2::{
    pow2, lemma_pow2_pos, lemma_pow2_unfold, lemma_pow2_adds, lemma_pow2_strictly_increases,
    lemma2_to64, lemma2_to64_rest,
};

verus! {

/// The lowest encoding whose sign bit is set.
pub const SIGN_BIT: u64 = 0x8000_0000_0000_0000;

/// `2^52`: the weight of the implicit leading bit of a normal significand.
pub const HIDDEN_BIT: u64 = 0x10_0000_0000_0000;

/// The biased exponent that marks infinities and NaNs.
pub const EXPONENT_SPECIAL: u64 = 2047;

/// Whether the sign bit of the encoding is set.
pub open spec fn is_negative(bits: u64) -> bool {
    bits >= SIGN_BIT
}

/// The 11-bit exponent field.
pub open spec fn biased_exponent(bits: u64) -> int {
    (bits as int / HIDDEN_BIT as int) % 2048
}

/// The 52-bit fraction field.
pub open spec fn fraction(bits: u64) -> int {
    bits as int % HIDDEN_BIT as int
}

/// Not a number: the exponent field is all ones and the fraction is not zero.
pub open spec fn is_nan(bits: u64) -> bool {
    biased_exponent(bits) == EXPONENT_SPECIAL && fraction(bits) != 0
}

/// Positive or negative infinity.
pub open spec fn is_infinite(bits: u64) -> bool {
    biased_exponent(bits) == EXPONENT_SPECIAL && fraction(bits) == 0
}

/// The integer significand of a finite number: the fraction, with the
/// implicit leading bit unless the number is subnormal or zero.
pub open spec fn significand(bits: u64) -> nat {
    if biased_exponent(bits) == 0 {
        fraction(bits) as nat
    } else {
        (HIDDEN_BIT + fraction(bits)) as nat
    }
}

/// The power of two that scales the significand of a finite number: its
/// magnitude is `significand(bits) * 2^exponent(bits)`.
pub open spec fn exponent(bits: u64) -> int {
    if biased_exponent(bits) == 0 {
        -1074
    } else {
        biased_exponent(bits) - 1075
    }
}

/// Number of binary digits of `n`; zero has none.
pub open spec fn bit_length(n: nat) -> nat
    decreases n,
{
    if n == 0 {
        0
    } else {
        1 + bit_length(n / 2)
    }
}

/// Rounds `magnitude * 2^exponent` to a significand of at most 53 bits: to the
/// nearest such number, and of two equally near ones to that with the even
/// significand. The result is the pair of significand and exponent.
pub open spec fn round_to_precision(magnitude: nat, exponent: int) -> (nat, int) {
    if magnitude < pow2(53) {
        (magnitude, exponent)
    } else {
        let shift = (bit_length(magnitude) - 53) as nat;
        let quotient = magnitude / pow2(shift);
        let remainder = magnitude % pow2(shift);
        let up = 2 * remainder > pow2(shift) || (2 * remainder == pow2(shift) && quotient % 2
            == 1);
        ((if up {
            quotient + 1
        } else {
            quotient
        }) as nat, exponent + shift)
    }
}

/// The whole part of `magnitude * 2^exponent`: what is left of it when the
/// digits behind the binary point are dropped.
pub open spec fn integer_part(magnitude: nat, exponent: int) -> nat {
    if exponent >= 0 {
        magnitude * pow2(exponent as nat)
    } else {
        magnitude / pow2((-exponent) as nat)
    }
}

/// `2^k` as a machine integer.
pub(crate) fn power_of_two(k: u32) -> (p: u128)
    requires
        k <= 126,
    ensures
        p == pow2(k as nat),
{
    let mut p: u128 = 1;
    let mut i: u32 = 0;
    proof {
        lemma2_to64();
    }
    while i < k
        invariant
            i <= k <= 126,
            p == pow2(i as nat),
        decreases k - i,
    {
        proof {
            lemma_pow2_unfold((i + 1) as nat);
            lemma_pow2_below(i as nat, 126);
        }
        p = p * 2;
        i = i + 1;
    }
    p
}

/// Powers of two up to `2^limit` stay below `2^127`, for `limit <= 126`.
proof fn lemma_pow2_below(e: nat, limit: nat)
    requires
        e <= limit <= 126,
    ensures
        pow2(e) <= pow2(limit) <= 0x4000_0000_0000_0000_0000_0000_0000_0000,
{
    if e < limit {
        lemma_pow2_strictly_increases(e, limit);
    }
    if limit < 126 {
        lemma_pow2_strictly_increases(limit, 126);
    }
    lemma2_to64_rest();
    lemma_pow2_adds(63, 63);
}

/// A positive number lies between the two powers of two that its number of
/// digits names.
pub(crate) proof fn lemma_bit_length_bounds(n: nat)
    ensures
        n < pow2(bit_length(n)),
        n > 0 ==> pow2((bit_length(n) - 1) as nat) <= n,
    decreases n,
{
    lemma2_to64();
    if n > 0 {
        lemma_bit_length_bounds(n / 2);
        lemma_pow2_unfold(bit_length(n));
        if n / 2 > 0 {
            lemma_pow2_unfold((bit_length(n) - 1) as nat);
        }
    }
}

/// The powers of two grow with their exponents.
pub(crate) proof fn lemma_pow2_monotonic(a: nat, b: nat)
    requires
        a <= b,
    ensures
        pow2(a) <= pow2(b),
{
    if a < b {
        lemma_pow2_strictly_increases(a, b);
    }
}

/// Counts the binary digits of `n`.
fn count_bits(n: u128) -> (length: u32)
    ensures
        length == bit_length(n as nat),
        length <= 128,
{
    let mut rest: u128 = n;
    let mut length: u32 = 0;
    proof {
        lemma_bit_length_bounds(n as nat);
        lemma2_to64();
        lemma_pow2_adds(64, 64);
        if bit_length(n as nat) > 128 {
            lemma_pow2_monotonic(128, (bit_length(n as nat) - 1) as nat);
        }
    }
    while rest > 0
        invariant
            length + bit_length(rest as nat) == bit_length(n as nat),
            bit_length(n as nat) <= 128,
        decreases rest,
    {
        rest = rest / 2;
        length = length + 1;
    }
    length
}

/// Rounding a number of more than 53 bits leaves a significand of 53 bits, or
/// `2^53` itself, and raises the exponent by the number of bits dropped.
pub(crate) proof fn lemma_round_large(magnitude: nat, exponent: int)
    requires
        magnitude >= pow2(53),
    ensures
        bit_length(magnitude) > 53,
        round_to_precision(magnitude, exponent).1 == exponent + bit_length(magnitude) - 53,
        pow2(52) <= round_to_precision(magnitude, exponent).0 <= pow2(53),
{
    lemma_bit_length_bounds(magnitude);
    let length = bit_length(magnitude);
    if length <= 53 {
        lemma_pow2_monotonic(length, 53);
    }
    let shift = (length - 53) as nat;
    lemma_pow2_adds(53, shift);
    lemma_pow2_adds(52, shift);
    lemma_pow2_pos(shift);
    let unit: int = pow2(shift) as int;
    let quotient: int = magnitude as int / unit;
    let p52: int = pow2(52) as int;
    let p53: int = pow2(53) as int;
    assert(p52 <= quotient < p53) by (nonlinear_arith)
        requires
            p52 * unit <= magnitude < p53 * unit,
            unit > 0,
            quotient == magnitude as int / unit,
    ;
}

/// Rounds `magnitude * 2^exponent` to 53 significant bits.
pub(crate) fn round(magnitude: u128, exponent: i32) -> (rounded: (u64, i32))
    requires
        -1200 <= exponent <= 1200,
    ensures
        (rounded.0 as nat, rounded.1 as int) == round_to_precision(
            magnitude as nat,
            exponent as int,
        ),
        rounded.0 <= 0x20_0000_0000_0000,
        exponent <= rounded.1 <= exponent + 75,
        rounded.1 > exponent ==> rounded.0 >= 0x10_0000_0000_0000,
{
    let length: u32 = count_bits(magnitude);
    proof {
        lemma2_to64_rest();
        lemma_bit_length_bounds(magnitude as nat);
    }
    if length <= 53 {
        proof {
            lemma_pow2_monotonic(length as nat, 53);
        }
        return (magnitude as u64, exponent);
    }
    let shift: u32 = length - 53;
    let unit: u128 = power_of_two(shift);
    proof {
        lemma_pow2_pos(shift as nat);
    }
    let quotient: u128 = magnitude / unit;
    let remainder: u128 = magnitude % unit;
    let half: u128 = unit / 2;
    proof {
        lemma_pow2_monotonic(53, (length - 1) as nat);
        lemma_pow2_unfold(shift as nat);
        lemma_round_large(magnitude as nat, exponent as int);
    }
    let up: bool = remainder > half || (remainder == half && quotient % 2 == 1);
    let kept: u64 = if up {
        (quotient + 1) as u64
    } else {
        quotient as u64
    };
    (kept, exponent + shift as i32)
}

/// The whole part of `magnitude * 2^exponent`, capped at `2^31`.
pub(crate) fn integer_part_capped(magnitude: u64, exponent: i32) -> (whole: u64)
    requires
        magnitude <= 0x20_0000_0000_0000,
        -1300 <= exponent <= 1300,
    ensures
        whole <= 0x8000_0000,
        integer_part(magnitude as nat, exponent as int) <= 0x8000_0000 ==> whole == integer_part(
            magnitude as nat,
            exponent as int,
        ),
        integer_part(magnitude as nat, exponent as int) > 0x8000_0000 ==> whole == 0x8000_0000,
{
    let cap: u128 = 0x8000_0000;
    proof {
        lemma2_to64();
        lemma2_to64_rest();
    }
    if exponent >= 0 {
        if magnitude == 0 {
            assert(0 * pow2(exponent as nat) == 0) by (nonlinear_arith);
            return 0;
        }
        if exponent >= 32 {
            proof {
                lemma_pow2_monotonic(32, exponent as nat);
                let unit: int = pow2(exponent as nat) as int;
                assert(magnitude * unit >= unit) by (nonlinear_arith)
                    requires
                        magnitude >= 1,
                        unit >= 0,
                ;
            }
            return 0x8000_0000;
        }
        let unit: u128 = power_of_two(exponent as u32);
        proof {
            lemma_pow2_monotonic(exponent as nat, 32);
            assert(magnitude * unit <= 0x20_0000_0000_0000 * 0x1_0000_0000) by (nonlinear_arith)
                requires
                    magnitude <= 0x20_0000_0000_0000,
                    unit <= 0x1_0000_0000,
            ;
        }
        let product: u128 = magnitude as u128 * unit;
        if product > cap {
            0x8000_0000
        } else {
            product as u64
        }
    } else {
        if exponent <= -64 {
            proof {
                lemma_pow2_monotonic(64, (-exponent) as nat);
                lemma_basic_div(magnitude as int, pow2((-exponent) as nat) as int);
            }
            return 0;
        }
        let unit: u128 = power_of_two((-exponent) as u32);
        proof {
            lemma_pow2_pos((-exponent) as nat);
        }
        let quotient: u128 = magnitude as u128 / unit;
        if quotient > cap {
            0x8000_0000
        } else {
            quotient as u64
        }
    }
}

} // verus!
