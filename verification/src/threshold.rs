//! The colour threshold: a binary64 number read through its bit pattern.
//!
//! A pattern of 64 bits holds a sign bit, an exponent field of 11 bits and a
//! fraction field of 52 bits. Where the pattern stands for a number, that
//! number is `significand * 2^(scale - 1074)`, negated where the sign bit is
//! set. The functions below speak of the number multiplied by a fixed power
//! of two, which makes it an integer.
//!
//! A pixel is held against the threshold by its colour distance: the largest
//! channel gap, divided by 255 and rounded to the nearest binary64 number.
//! Whether that rounded quotient is greater than the threshold is decided
//! here without rounding anything, by the place of the exact quotient
//! relative to the point half-way between the threshold and the next larger
//! binary64 number.

use vstd::arithmetic::power2::{
    lemma2_to64_rest, lemma_pow2_adds, lemma_pow2_pos, lemma_pow2_strictly_increases, pow2,
};
use vstd::prelude::*;

verus! {

/// Two to the power 52: the weight of the hidden bit of a significand.
pub const HIDDEN_BIT: u64 = 0x10_0000_0000_0000;

/// Two to the power 63: the weight of the sign bit.
pub const SIGN_WEIGHT: u64 = 0x8000_0000_0000_0000;

/// The exponent field of the infinities and of the values that are no number.
pub const EXPONENT_ALL_ONES: u64 = 2047;

/// The largest gap between two channel values.
pub const CHANNEL_MAX: u64 = 255;

/// The sign bit of a bit pattern: 1 for the negative values.
pub open spec fn sign_bit(bits: u64) -> int {
    bits as int / (SIGN_WEIGHT as int)
}

/// The eleven bits of the exponent field.
pub open spec fn exponent_field(bits: u64) -> int {
    (bits as int / (HIDDEN_BIT as int)) % 2048
}

/// The fifty-two bits of the fraction field.
pub open spec fn fraction_field(bits: u64) -> int {
    bits as int % (HIDDEN_BIT as int)
}

/// Whether the pattern stands for no number at all.
pub open spec fn is_nan(bits: u64) -> bool {
    exponent_field(bits) == EXPONENT_ALL_ONES as int && fraction_field(bits) != 0
}

/// The significand as an integer: the fraction, with the hidden bit in front
/// of it unless the value is subnormal.
pub open spec fn significand(bits: u64) -> int {
    if exponent_field(bits) == 0 {
        fraction_field(bits)
    } else {
        HIDDEN_BIT as int + fraction_field(bits)
    }
}

/// The power of two by which the significand is scaled, counted from that of
/// the subnormal values: the absolute value is
/// `significand * 2^(scale - 1074)`.
pub open spec fn scale(bits: u64) -> nat {
    if exponent_field(bits) == 0 {
        0
    } else {
        (exponent_field(bits) - 1) as nat
    }
}

/// The absolute value of the number, multiplied by `2^1074`. For an infinity
/// this is a number larger than that of every finite value.
pub open spec fn magnitude(bits: u64) -> int {
    significand(bits) * pow2(scale(bits))
}

/// The number itself, multiplied by `2^1074`. Both zeros give 0.
pub open spec fn scaled_value(bits: u64) -> int {
    if sign_bit(bits) == 1 {
        -magnitude(bits)
    } else {
        magnitude(bits)
    }
}

/// The point half-way between a non-negative number and the next larger
/// binary64 number, multiplied by `2^1075`. A real number above this point is
/// rounded to a binary64 number greater than the one given, and a real number
/// below it is not.
pub open spec fn rounding_boundary(bits: u64) -> int {
    (2 * significand(bits) + 1) * pow2(scale(bits))
}

/// A colour threshold: the binary64 number with the bit pattern `bits`.
#[derive(Clone, Copy, Debug)]
pub struct ColorThreshold {
    pub bits: u64,
}

/// Whether a pixel whose largest channel gap is `delta` (0 to 255) is further
/// than the threshold allows: whether `delta / 255`, rounded to the nearest
/// binary64 number, is strictly greater than the threshold.
///
/// Nothing is greater than a threshold that is no number. Everything is
/// greater than a negative threshold, and every gap but 0 is greater than
/// minus zero. Against a threshold that is not negative the quotient is
/// held against the point from which rounding passes the threshold; the
/// quotient never lies on that point, so ties do not arise.
pub open spec fn distance_exceeds(delta: int, threshold: ColorThreshold) -> bool {
    let bits = threshold.bits;
    if is_nan(bits) {
        false
    } else if sign_bit(bits) == 1 {
        delta > 0 || magnitude(bits) > 0
    } else {
        delta * pow2(1075) > (CHANNEL_MAX as int) * rounding_boundary(bits)
    }
}

/// The order of the numbers that two thresholds stand for. A value that is no
/// number is in no order with anything.
pub open spec fn threshold_le(low: ColorThreshold, high: ColorThreshold) -> bool {
    &&& !is_nan(low.bits)
    &&& !is_nan(high.bits)
    &&& scaled_value(low.bits) <= scaled_value(high.bits)
}

/// Whether the threshold is a number and is not below zero.
pub open spec fn is_non_negative(threshold: ColorThreshold) -> bool {
    !is_nan(threshold.bits) && scaled_value(threshold.bits) >= 0
}

/// With `scale <= 1075`, the comparison against the rounding boundary can be
/// made after both sides are divided by `2^scale`.
proof fn lemma_compare_reduced(delta: int, significand: int, scale: nat)
    requires
        scale <= 1075,
    ensures
        delta * pow2(1075) > 255 * ((2 * significand + 1) * pow2(scale)) <==> delta * pow2(
            (1075 - scale) as nat,
        ) > 255 * (2 * significand + 1),
{
    let shift = (1075 - scale) as nat;
    let unit = pow2(scale) as int;
    let left = delta * pow2(shift);
    let right = 255 * (2 * significand + 1);
    lemma_pow2_adds(shift, scale);
    lemma_pow2_pos(scale);
    assert(delta * pow2(1075) == left * unit) by (nonlinear_arith)
        requires
            pow2(1075) == pow2(shift) * pow2(scale),
            unit == pow2(scale),
            left == delta * pow2(shift),
    ;
    assert(255 * ((2 * significand + 1) * pow2(scale)) == right * unit) by (nonlinear_arith)
        requires
            unit == pow2(scale),
            right == 255 * (2 * significand + 1),
    ;
    assert(left * unit > right * unit <==> left > right) by (nonlinear_arith)
        requires
            unit > 0,
    ;
}

/// A product exceeds a bound exactly from the factor one past the quotient.
proof fn lemma_first_factor_past(delta: int, bound: int, unit: int)
    requires
        unit > 0,
        bound >= 0,
    ensures
        delta * unit > bound <==> delta >= bound / unit + 1,
{
    let q = bound / unit;
    vstd::arithmetic::div_mod::lemma_fundamental_div_mod(bound, unit);
    vstd::arithmetic::div_mod::lemma_mod_bound(bound, unit);
    assert(delta * unit > bound <==> delta >= q + 1) by (nonlinear_arith)
        requires
            unit > 0,
            bound == unit * q + bound % unit,
            0 <= bound % unit < unit,
    ;
}

impl ColorThreshold {
    /// The threshold with the given bit pattern.
    pub fn from_bits(bits: u64) -> (threshold: ColorThreshold)
        ensures
            threshold.bits == bits,
    {
        ColorThreshold { bits }
    }

    /// The bit pattern of the threshold.
    pub fn to_bits(&self) -> (bits: u64)
        ensures
            bits == self.bits,
    {
        self.bits
    }

    /// The smallest channel gap that exceeds the threshold, or 256 where not
    /// even the gap 255 does.
    pub fn cutoff(&self) -> (cutoff: u16)
        ensures
            cutoff <= 256,
            forall|delta: int|
                0 <= delta <= 255 ==> (#[trigger] distance_exceeds(delta, *self) <==> delta
                    >= cutoff),
    {
        let bits: u64 = self.bits;
        let sign: u64 = bits / SIGN_WEIGHT;
        let exponent: u64 = (bits / HIDDEN_BIT) % 2048;
        let fraction: u64 = bits % HIDDEN_BIT;
        if exponent == EXPONENT_ALL_ONES && fraction != 0 {
            return 256;
        }
        if sign == 1 {
            proof {
                lemma_pow2_pos(scale(bits));
                assert(magnitude(bits) > 0 <==> significand(bits) > 0) by (nonlinear_arith)
                    requires
                        magnitude(bits) == significand(bits) * pow2(scale(bits)),
                        pow2(scale(bits)) > 0,
                ;
            }
            return if exponent == 0 && fraction == 0 {
                1
            } else {
                0
            };
        }
        let ghost m: int = significand(bits);
        let ghost s: nat = scale(bits);
        if exponent >= 1023 {
            proof {
                lemma2_to64_rest();
                assert forall|delta: int| 0 <= delta <= 255 implies !#[trigger] distance_exceeds(
                    delta,
                    *self,
                ) by {
                    if s <= 1075 {
                        let shift = (1075 - s) as nat;
                        lemma_compare_reduced(delta, m, s);
                        if shift < 53 {
                            lemma_pow2_strictly_increases(shift, 53);
                        }
                        assert(delta * pow2(shift) <= 255 * (2 * m + 1)) by (nonlinear_arith)
                            requires
                                0 <= delta <= 255,
                                pow2(shift) <= 0x20000000000000,
                                m >= 0x10000000000000,
                        ;
                    } else {
                        lemma_pow2_strictly_increases(1075, s);
                        assert(delta * pow2(1075) <= 255 * ((2 * m + 1) * pow2(s)))
                            by (nonlinear_arith)
                            requires
                                0 <= delta <= 255,
                                pow2(1075) < pow2(s),
                                m >= 0,
                        ;
                    }
                }
            }
            return 256;
        }
        if exponent < 1014 {
            proof {
                lemma2_to64_rest();
                assert forall|delta: int| 0 <= delta <= 255 implies (#[trigger] distance_exceeds(
                    delta,
                    *self,
                ) <==> delta >= 1) by {
                    let shift = (1075 - s) as nat;
                    lemma_compare_reduced(delta, m, s);
                    if shift > 63 {
                        lemma_pow2_strictly_increases(63, shift);
                    }
                    assert(delta * pow2(shift) > 255 * (2 * m + 1) <==> delta >= 1)
                        by (nonlinear_arith)
                        requires
                            0 <= delta <= 255,
                            pow2(shift) >= 0x8000000000000000,
                            0 <= m < 0x20000000000000,
                    ;
                }
            }
            return 1;
        }
        let shift: u64 = 1076 - exponent;
        let boundary: u64 = CHANNEL_MAX * (2 * (HIDDEN_BIT + fraction) + 1);
        let unit: u64 = 1u64 << shift;
        proof {
            vstd::bits::lemma_u64_pow2_no_overflow(shift as nat);
            vstd::bits::lemma_u64_shl_is_mul(1, shift);
        }
        let quotient: u64 = boundary / unit;
        proof {
            assert forall|delta: int| 0 <= delta <= 255 implies (#[trigger] distance_exceeds(
                delta,
                *self,
            ) <==> delta >= quotient + 1) by {
                lemma_compare_reduced(delta, m, s);
                lemma_first_factor_past(delta, boundary as int, unit as int);
            }
        }
        if quotient >= 256 {
            256
        } else {
            (quotient + 1) as u16
        }
    }
}

} // verus!
