//! The fixed map from coordinates to pixels.
//!
//! A coordinate `c` lands on the pixel `(c * 100.0 + offset) as i32`, computed
//! as binary64 arithmetic computes it: the product is rounded to the nearest
//! binary64 number, so is the sum, and the cast drops the digits behind the
//! point, saturates at the ends of `i32` and sends NaN to zero.

use vstd::prelude::*;
use vstd::arithmetic::div_mod::{lemma_div_by_multiple, lemma_fundamental_div_mod_converse};
use vstd::arithmetic::power2::{
    pow2, lemma_pow2_pos, lemma_pow2_adds, lemma_pow2_strictly_increases, lemma2_to64,
    lemma2_to64_rest,
};
use crate::binary64::{
    bit_length, exponent, integer_part, integer_part_capped, is_infinite, is_nan, is_negative,
    lemma_bit_length_bounds, lemma_pow2_monotonic, lemma_round_large, power_of_two, round,
    round_to_precision, significand, HIDDEN_BIT, SIGN_BIT,
};

verus! {

/// Pixels per coordinate unit.
pub const SCALE: u64 = 100;

/// The pixel column of the coordinate 0.
pub const X_OFFSET: u32 = 512;

/// The pixel row of the coordinate 0.
pub const Y_OFFSET: u32 = 384;

/// The end of the `i32` range on the side of the given sign.
pub open spec fn extreme(negative: bool) -> int {
    if negative {
        i32::MIN as int
    } else {
        i32::MAX as int
    }
}

/// The nearest `i32` to `value`.
pub open spec fn saturate(value: int) -> int {
    if value < i32::MIN {
        i32::MIN as int
    } else if value > i32::MAX {
        i32::MAX as int
    } else {
        value
    }
}

/// Whether `magnitude * 2^exponent` lies beyond the largest finite binary64
/// number, so that arithmetic gives an infinity in its place.
pub open spec fn overflows(magnitude: nat, exponent: int) -> bool {
    exponent >= 0 && magnitude * pow2(exponent as nat) >= pow2(1024)
}

/// The lower of `exponent` and zero: the exponent at which a number with that
/// exponent and a whole number can both be written without a fraction.
pub open spec fn common_exponent(exponent: int) -> int {
    if exponent < 0 {
        exponent
    } else {
        0
    }
}

/// The exact sum of `offset` and the number of the given sign, `magnitude`
/// and `exponent`, in units of `2^common_exponent(exponent)`.
pub open spec fn offset_sum(negative: bool, magnitude: nat, exponent: int, offset: nat) -> int {
    let common = common_exponent(exponent);
    let term = (magnitude * pow2((exponent - common) as nat)) as int;
    offset * pow2((-common) as nat) + if negative {
        -term
    } else {
        term
    }
}

/// The pixel of the coordinate encoded by `bits`, for an axis whose zero lies
/// at `offset`.
pub open spec fn pixel(bits: u64, offset: nat) -> int {
    if is_nan(bits) {
        0
    } else if is_infinite(bits) {
        extreme(is_negative(bits))
    } else {
        let scaled = round_to_precision(significand(bits) * SCALE as nat, exponent(bits));
        if overflows(scaled.0, scaled.1) {
            extreme(is_negative(bits))
        } else {
            let sum = offset_sum(is_negative(bits), scaled.0, scaled.1, offset);
            let moved = round_to_precision(
                (if sum < 0 {
                    -sum
                } else {
                    sum
                }) as nat,
                common_exponent(scaled.1),
            );
            let whole = integer_part(moved.0, moved.1);
            saturate(
                if sum < 0 {
                    -whole
                } else {
                    whole as int
                },
            )
        }
    }
}

/// A term far above the `i32` range decides the sum: the offset changes
/// neither its sign nor that it saturates.
proof fn lemma_far_term(negative: bool, magnitude: nat, exponent: int, offset: nat)
    requires
        magnitude >= 1,
        exponent > 64,
        offset < 1024,
    ensures
        ({
            let sum = offset_sum(negative, magnitude, exponent, offset);
            let moved = round_to_precision(
                (if sum < 0 {
                    -sum
                } else {
                    sum
                }) as nat,
                0,
            );
            &&& (sum < 0) == negative
            &&& integer_part(moved.0, moved.1) >= pow2(52)
        }),
{
    lemma2_to64();
    lemma2_to64_rest();
    lemma_pow2_monotonic(64, exponent as nat);
    let unit: int = pow2(exponent as nat) as int;
    let term: int = magnitude * unit;
    assert(term >= unit) by (nonlinear_arith)
        requires
            term == magnitude * unit,
            magnitude >= 1,
            unit >= 0,
    ;
    let sum = offset_sum(negative, magnitude, exponent, offset);
    assert(offset * pow2(0) == offset);
    let size = (if sum < 0 {
        -sum
    } else {
        sum
    }) as nat;
    assert(size >= pow2(53));
    lemma_round_large(size, 0);
    let moved = round_to_precision(size, 0);
    lemma_pow2_pos(moved.1 as nat);
    let raised: int = pow2(moved.1 as nat) as int;
    assert(moved.0 * raised >= moved.0) by (nonlinear_arith)
        requires
            raised >= 1,
            moved.0 >= 0,
    ;
}

/// A term far below the spacing of the binary64 numbers around the offset
/// is lost in the rounding of the sum: the offset comes back as it is.
proof fn lemma_near_zero_term(negative: bool, magnitude: nat, exponent: int, offset: nat)
    requires
        magnitude <= pow2(53),
        exponent < -109,
        256 <= offset < 1024,
    ensures
        ({
            let sum = offset_sum(negative, magnitude, exponent, offset);
            let moved = round_to_precision(sum as nat, exponent);
            &&& sum > 0
            &&& integer_part(moved.0, moved.1) == offset
        }),
{
    lemma2_to64();
    lemma2_to64_rest();
    let down = (-exponent) as nat;
    let sum = offset_sum(negative, magnitude, exponent, offset);
    let base = (offset * pow2(down)) as int;
    assert(magnitude * pow2(0) == magnitude);
    lemma_pow2_monotonic(55, down);
    lemma_pow2_adds(7, down);
    lemma_pow2_adds(10, down);
    let scale: int = pow2(down) as int;
    assert(255 * scale <= base - scale && base + scale <= 1024 * scale) by (nonlinear_arith)
        requires
            base == offset * scale,
            256 <= offset < 1024,
            scale > 0,
    ;
    let size = sum as nat;
    assert(pow2(down + 7) <= size < pow2(down + 10));
    lemma_bit_length_bounds(size);
    let length = bit_length(size);
    if length <= down + 7 {
        lemma_pow2_monotonic(length, down + 7);
    }
    if length > down + 10 {
        lemma_pow2_monotonic(down + 10, (length - 1) as nat);
    }
    lemma_pow2_monotonic(53, down + 7);
    lemma_round_large(size, exponent);
    let shift = (length - 53) as nat;
    let kept = (down - shift) as nat;
    lemma_pow2_adds(kept, shift);
    lemma_pow2_monotonic(55, shift);
    lemma_pow2_pos(kept);
    let unit: int = pow2(shift) as int;
    let factor: int = pow2(kept) as int;
    let significand = (offset * factor) as int;
    assert(significand * unit == base) by (nonlinear_arith)
        requires
            significand == offset * factor,
            base == offset * scale,
            scale == factor * unit,
    ;
    if !negative || magnitude == 0 {
        assert(size == significand * unit + magnitude);
        lemma_fundamental_div_mod_converse(size as int, unit, significand, magnitude as int);
    } else {
        assert(size == (significand - 1) * unit + (unit - magnitude)) by (nonlinear_arith)
            requires
                size == significand * unit - magnitude,
        ;
        lemma_fundamental_div_mod_converse(
            size as int,
            unit,
            significand - 1,
            unit - magnitude,
        );
    }
    let moved = round_to_precision(size, exponent);
    assert(moved.0 == significand);
    assert(moved.1 == -kept);
    lemma_div_by_multiple(offset as int, factor);
}

/// Computes the pixel of one coordinate.
fn project(bits: u64, offset: u32) -> (p: i32)
    requires
        256 <= offset < 1024,
    ensures
        p == pixel(bits, offset as nat),
{
    let negative: bool = bits >= SIGN_BIT;
    let field: u64 = (bits / HIDDEN_BIT) % 2048;
    let fraction: u64 = bits % HIDDEN_BIT;
    if field == 2047 {
        if fraction != 0 {
            return 0;
        }
        return if negative {
            i32::MIN
        } else {
            i32::MAX
        };
    }
    let significand: u64 = if field == 0 {
        fraction
    } else {
        HIDDEN_BIT + fraction
    };
    let exponent: i32 = if field == 0 {
        -1074
    } else {
        field as i32 - 1075
    };
    let scaled: (u64, i32) = round(significand as u128 * SCALE as u128, exponent);
    let magnitude: u64 = scaled.0;
    let scale: i32 = scaled.1;
    proof {
        lemma2_to64();
        lemma2_to64_rest();
    }
    if scale > 64 {
        proof {
            lemma_far_term(negative, magnitude as nat, scale as int, offset as nat);
        }
        return if negative {
            i32::MIN
        } else {
            i32::MAX
        };
    }
    proof {
        if scale >= 0 {
            lemma_pow2_monotonic(scale as nat, 64);
            lemma_pow2_adds(53, 64);
            lemma_pow2_strictly_increases(117, 1024);
            let unit: int = pow2(scale as nat) as int;
            assert(magnitude * unit <= pow2(53) * pow2(64)) by (nonlinear_arith)
                requires
                    0 <= magnitude <= pow2(53),
                    0 <= unit <= pow2(64),
            ;
        }
        assert(!overflows(magnitude as nat, scale as int));
    }
    if scale < -109 {
        proof {
            lemma_near_zero_term(negative, magnitude as nat, scale as int, offset as nat);
        }
        return offset as i32;
    }
    let base: u128;
    let term: u128;
    let common: i32;
    if scale >= 0 {
        let unit: u128 = power_of_two(scale as u32);
        proof {
            assert(magnitude * unit <= 0x20_0000_0000_0000 * 0x1_0000_0000_0000_0000)
                by (nonlinear_arith)
                requires
                    0 <= magnitude <= 0x20_0000_0000_0000,
                    0 <= unit <= 0x1_0000_0000_0000_0000,
            ;
        }
        base = offset as u128;
        term = magnitude as u128 * unit;
        common = 0;
        let ghost one: int = pow2((-common) as nat) as int;
        assert(offset * one == offset) by (nonlinear_arith)
            requires
                one == 1,
        ;
    } else {
        let unit: u128 = power_of_two((-scale) as u32);
        proof {
            lemma_pow2_monotonic((-scale) as nat, 109);
            lemma_pow2_adds(64, 45);
            assert(offset * unit <= 1024 * 0x2000_0000_0000_0000_0000_0000_0000) by (nonlinear_arith)
                requires
                    0 <= offset <= 1024,
                    0 <= unit <= 0x2000_0000_0000_0000_0000_0000_0000,
            ;
        }
        base = offset as u128 * unit;
        term = magnitude as u128;
        common = scale;
        let ghost one: int = pow2((scale - common) as nat) as int;
        assert(magnitude * one == magnitude) by (nonlinear_arith)
            requires
                one == 1,
        ;
    }
    let below: bool = negative && term > base;
    let size: u128 = if negative {
        if term > base {
            term - base
        } else {
            base - term
        }
    } else {
        base + term
    };
    let moved: (u64, i32) = round(size, common);
    let whole: u64 = integer_part_capped(moved.0, moved.1);
    if below {
        (-(whole as i64)) as i32
    } else if whole > 0x7fff_ffff {
        i32::MAX
    } else {
        whole as i32
    }
}

/// The pixel on which the point with the coordinates `(x, y)` lands.
pub open spec fn transformed(x: u64, y: u64) -> (int, int) {
    (pixel(x, X_OFFSET as nat), pixel(y, Y_OFFSET as nat))
}

/// Maps a pair of coordinates, each given by its binary64 encoding, to its
/// pixel.
pub fn transform(x: u64, y: u64) -> (p: (i32, i32))
    ensures
        (p.0 as int, p.1 as int) == transformed(x, y),
{
    (project(x, X_OFFSET), project(y, Y_OFFSET))
}

} // verus!
