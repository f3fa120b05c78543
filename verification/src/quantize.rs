//! Quantization of signed distances to bytes.
//!
//! A distance arrives as the bit pattern of a 64-bit IEEE 754 number. The byte
//! is computed in integers from the number that the pattern stands for, so the
//! result is the same on every machine and no rounding happens on the way.

use vstd::arithmetic::power2::pow2;
use vstd::prelude::*;

verus! {

/// 2^52: the weight of the hidden bit of a double.
pub const HIDDEN_BIT: u64 = 0x10_0000_0000_0000;

/// 2^63: the weight of the sign bit of a double.
pub const SIGN_BIT: u64 = 0x8000_0000_0000_0000;

/// The bit pattern of the distance 1.
pub const ONE: u64 = 0x3FF0_0000_0000_0000;

/// The pattern stands for a number between -1 and 1. Patterns of numbers of one
/// sign are ordered as the numbers are, and the patterns of what is no number
/// come last.
pub open spec fn is_unit_distance(bits: u64) -> bool {
    bits % SIGN_BIT <= ONE
}

/// The sign bit of the pattern is set.
pub open spec fn is_negative(bits: u64) -> bool {
    bits >= SIGN_BIT
}

/// The eleven exponent bits of the pattern.
pub open spec fn biased_exponent(bits: u64) -> int {
    ((bits / HIDDEN_BIT) % 2048) as int
}

/// The fifty-two fraction bits of the pattern.
pub open spec fn fraction(bits: u64) -> int {
    (bits % HIDDEN_BIT) as int
}

/// The pattern stands for no number.
pub open spec fn is_nan(bits: u64) -> bool {
    biased_exponent(bits) == 2047 && fraction(bits) != 0
}

/// The pattern stands for an infinity.
pub open spec fn is_infinite(bits: u64) -> bool {
    biased_exponent(bits) == 2047 && fraction(bits) == 0
}

/// The magnitude of a finite double is `mantissa * 2^exponent`: this is its
/// mantissa, with the hidden bit where the number is normal.
pub open spec fn mantissa(bits: u64) -> int {
    if biased_exponent(bits) == 0 {
        fraction(bits)
    } else {
        fraction(bits) + HIDDEN_BIT
    }
}

/// The exponent that goes with `mantissa`.
pub open spec fn exponent(bits: u64) -> int {
    if biased_exponent(bits) == 0 {
        -1074
    } else {
        biased_exponent(bits) - 1075
    }
}

/// The largest integer that is no larger than `(d / radius + 1) * 127.5`, for the
/// distance `d` of magnitude `mantissa * 2^exponent`. Both sides of the division
/// are scaled by the same power of two so that they are integers.
pub open spec fn scaled_floor(negative: bool, mantissa: int, exponent: int, radius: int) -> int {
    let signed = if negative {
        -mantissa
    } else {
        mantissa
    };
    if exponent >= 0 {
        ((signed * pow2(exponent as nat) + radius) * 255) / (2 * radius)
    } else {
        ((signed + radius * pow2((-exponent) as nat)) * 255) / (2 * radius * pow2((-exponent) as nat))
    }
}

/// `value` held to the range of a byte.
pub open spec fn clamp_to_byte(value: int) -> int {
    if value < 0 {
        0
    } else if value > 255 {
        255
    } else {
        value
    }
}

/// The byte for the distance with the bit pattern `bits`:
/// `(d / radius + 1) * 127.5`, held to `0..=255` and cut to a whole number.
/// Distance `-radius` and everything below it, negative infinity included,
/// gives 0; distance 0 gives 127; `radius` and everything above it gives 255.
/// A pattern that stands for no number gives 0.
pub open spec fn quantized(bits: u64, radius: int) -> int {
    if is_nan(bits) {
        0
    } else if is_infinite(bits) {
        if is_negative(bits) {
            0
        } else {
            255
        }
    } else {
        clamp_to_byte(scaled_floor(is_negative(bits), mantissa(bits), exponent(bits), radius))
    }
}

/// The byte of the distance -1: the smallest byte of a field whose distances
/// are held to the range from -1 to 1.
pub open spec fn unit_low(radius: int) -> int {
    ((radius - 1) * 255) / (2 * radius)
}

/// The byte of the distance 1: the largest byte of such a field.
pub open spec fn unit_high(radius: int) -> int {
    ((radius + 1) * 255) / (2 * radius)
}

/// A pattern between -1 and 1 stands for a number, and for a finite one.
pub proof fn lemma_unit_distance_is_finite(bits: u64)
    requires
        is_unit_distance(bits),
    ensures
        !is_nan(bits),
        !is_infinite(bits),
        exponent(bits) <= -52,
{
}

/// Every distance, and every pattern that stands for none, gives a byte.
pub proof fn lemma_quantized_is_byte(bits: u64, radius: int)
    ensures
        0 <= quantized(bits, radius) <= 255,
{
}

/// A quotient is `q` when the dividend lies between `q` and `q + 1` times the
/// divisor.
proof fn lemma_quotient_is(n: int, d: int, q: int)
    requires
        0 < d,
        q * d <= n < q * d + d,
    ensures
        n / d == q,
{
    vstd::arithmetic::div_mod::lemma_fundamental_div_mod_converse(n, d, q, n - q * d);
}

/// A distance much smaller than the radius gives 127, whatever its sign.
proof fn lemma_tiny_distance(negative: bool, mantissa: int, scale: int, radius: int)
    requires
        0 <= mantissa,
        255 * mantissa < scale,
        1 <= radius,
    ensures
        ((if negative {
            -mantissa
        } else {
            mantissa
        } + radius * scale) * 255) / (2 * radius * scale) == 127,
{
    let signed = if negative {
        -mantissa
    } else {
        mantissa
    };
    let n = (signed + radius * scale) * 255;
    let d = 2 * radius * scale;
    assert(0 < d && 127 * d <= n < 127 * d + d) by (nonlinear_arith)
        requires
            n == (signed + radius * scale) * 255,
            d == 2 * radius * scale,
            -mantissa <= signed <= mantissa,
            0 <= mantissa,
            255 * mantissa < scale,
            1 <= radius,
    ;
    lemma_quotient_is(n, d, 127);
}

/// A distance of at least the radius gives 255 or more on the positive side and
/// 0 or less on the negative side.
proof fn lemma_far_distance(negative: bool, magnitude: int, reach: int)
    requires
        0 < reach <= magnitude,
    ensures
        !negative ==> ((magnitude + reach) * 255) / (2 * reach) >= 255,
        negative ==> ((-magnitude + reach) * 255) / (2 * reach) <= 0,
{
    if negative {
        let n = (-magnitude + reach) * 255;
        assert(n <= 0) by (nonlinear_arith)
            requires
                n == (-magnitude + reach) * 255,
                reach <= magnitude,
        ;
        vstd::arithmetic::div_mod::lemma_div_is_ordered(n, 0, 2 * reach);
    } else {
        let n = (magnitude + reach) * 255;
        assert(255 * (2 * reach) <= n) by (nonlinear_arith)
            requires
                n == (magnitude + reach) * 255,
                reach <= magnitude,
        ;
        vstd::arithmetic::div_mod::lemma_div_is_ordered(255 * (2 * reach), n, 2 * reach);
        lemma_quotient_is(255 * (2 * reach), 2 * reach, 255);
    }
}

/// A distance inside the radius gives a value inside the byte range.
proof fn lemma_near_distance(numerator: int, reach: int)
    requires
        0 < reach,
        0 < numerator < 2 * reach,
    ensures
        0 <= (numerator * 255) / (2 * reach) < 255,
{
    vstd::arithmetic::div_mod::lemma_div_pos_is_pos(numerator * 255, 2 * reach);
    let q = (numerator * 255) / (2 * reach);
    vstd::arithmetic::div_mod::lemma_fundamental_div_mod(numerator * 255, 2 * reach);
    vstd::arithmetic::div_mod::lemma_mod_bound(numerator * 255, 2 * reach);
    assert(q < 255) by (nonlinear_arith)
        requires
            numerator * 255 == (2 * reach) * q + (numerator * 255) % (2 * reach),
            0 <= (numerator * 255) % (2 * reach),
            0 < numerator < 2 * reach,
    ;
}

/// A distance between -1 and 1 gives a byte between the bytes of -1 and of 1.
pub proof fn lemma_unit_distance_bytes(bits: u64, radius: int)
    requires
        is_unit_distance(bits),
        radius >= 1,
    ensures
        0 <= unit_low(radius) <= quantized(bits, radius) <= unit_high(radius) <= 255,
{
    vstd::arithmetic::power2::lemma2_to64();
    vstd::arithmetic::power2::lemma2_to64_rest();
    let shift = (-exponent(bits)) as nat;
    let scale = pow2(shift) as int;
    let m = mantissa(bits);
    vstd::arithmetic::power2::lemma_pow2_pos(shift);
    assert(0 <= m <= scale) by {
        if biased_exponent(bits) == 1023 {
            assert(scale == pow2(52));
        } else {
            vstd::arithmetic::power2::lemma_pow2_strictly_increases(52, shift);
            if shift > 53 {
                vstd::arithmetic::power2::lemma_pow2_strictly_increases(53, shift);
            }
        }
    }
    let signed = if is_negative(bits) {
        -m
    } else {
        m
    };
    let n = (signed + radius * scale) * 255;
    let d = 2 * radius * scale;
    let low_n = (radius - 1) * 255;
    let high_n = (radius + 1) * 255;
    assert(0 < d && d == scale * (2 * radius) && scale * low_n <= n <= scale * high_n)
        by (nonlinear_arith)
        requires
            n == (signed + radius * scale) * 255,
            d == 2 * radius * scale,
            low_n == (radius - 1) * 255,
            high_n == (radius + 1) * 255,
            -scale <= signed <= scale,
            scale >= 1,
            radius >= 1,
    ;
    vstd::arithmetic::div_mod::lemma_div_multiples_vanish_quotient(scale, low_n, 2 * radius);
    vstd::arithmetic::div_mod::lemma_div_multiples_vanish_quotient(scale, high_n, 2 * radius);
    vstd::arithmetic::div_mod::lemma_div_is_ordered(scale * low_n, n, d);
    vstd::arithmetic::div_mod::lemma_div_is_ordered(n, scale * high_n, d);
    vstd::arithmetic::div_mod::lemma_div_pos_is_pos(low_n, 2 * radius);
    vstd::arithmetic::div_mod::lemma_div_is_ordered(high_n, 255 * (2 * radius), 2 * radius);
    lemma_quotient_is(255 * (2 * radius), 2 * radius, 255);
}

/// The byte for one signed distance, given as the bit pattern of a double:
/// `(d / radius + 1) * 127.5`, held to `0..=255`, cut to a whole number.
pub fn quantize_distance(bits: u64, radius: u32) -> (byte: u8)
    requires
        radius >= 1,
    ensures
        byte == quantized(bits, radius as int),
{
    let negative = bits >= SIGN_BIT;
    let biased: u64 = (bits / HIDDEN_BIT) % 2048;
    let frac: u64 = bits % HIDDEN_BIT;
    proof {
        vstd::arithmetic::power2::lemma2_to64();
        vstd::arithmetic::power2::lemma2_to64_rest();
    }
    if biased == 2047 {
        if frac != 0 || negative {
            0
        } else {
            255
        }
    } else if biased == 0 {
        proof {
            vstd::arithmetic::power2::lemma_pow2_strictly_increases(60, 1074);
            lemma_tiny_distance(negative, frac as int, pow2(1074) as int, radius as int);
        }
        127
    } else if biased >= 1075 {
        let ghost lift = pow2((biased - 1075) as nat) as int;
        let ghost m = frac + HIDDEN_BIT;
        proof {
            vstd::arithmetic::power2::lemma_pow2_pos((biased - 1075) as nat);
            assert(m * lift >= m) by (nonlinear_arith)
                requires
                    lift >= 1,
                    m >= 0,
            ;
            lemma_far_distance(negative, m * lift, radius as int);
            assert(-(m * lift) == (-m) * lift) by (nonlinear_arith);
        }
        if negative {
            0
        } else {
            255
        }
    } else {
        let shift: u64 = 1075 - biased;
        let m: u64 = frac + HIDDEN_BIT;
        if shift >= 64 {
            proof {
                if shift > 64 {
                    vstd::arithmetic::power2::lemma_pow2_strictly_increases(64, shift as nat);
                }
                lemma_tiny_distance(negative, m as int, pow2(shift as nat) as int, radius as int);
            }
            127
        } else {
            proof {
                vstd::bits::lemma_u64_pow2_no_overflow(shift as nat);
                vstd::bits::lemma_u64_shl_is_mul(1, shift);
                if shift < 63 {
                    vstd::arithmetic::power2::lemma_pow2_strictly_increases(shift as nat, 63);
                }
            }
            let scale: u128 = (1u64 << shift) as u128;
            assert(scale == pow2(shift as nat) && 2 <= scale <= 0x8000_0000_0000_0000) by {
                vstd::arithmetic::power2::lemma_pow2_strictly_increases(0, shift as nat);
            }
            assert(radius * scale <= 0xffff_ffff * 0x8000_0000_0000_0000) by (nonlinear_arith)
                requires
                    radius <= 0xffff_ffff,
                    scale <= 0x8000_0000_0000_0000,
            ;
            let reach: u128 = radius as u128 * scale;
            assert(reach >= 1) by (nonlinear_arith)
                requires
                    reach == radius * scale,
                    radius >= 1,
                    scale >= 2,
            ;
            if m as u128 >= reach {
                proof {
                    lemma_far_distance(negative, m as int, reach as int);
                    assert(2 * radius * pow2(shift as nat) == 2 * reach) by (nonlinear_arith)
                        requires
                            reach == radius * pow2(shift as nat),
                    ;
                }
                if negative {
                    0
                } else {
                    255
                }
            } else {
                let numerator: u128 = if negative {
                    reach - m as u128
                } else {
                    reach + m as u128
                };
                proof {
                    lemma_near_distance(numerator as int, reach as int);
                    assert(2 * radius * pow2(shift as nat) == 2 * reach) by (nonlinear_arith)
                        requires
                            reach == radius * pow2(shift as nat),
                    ;
                }
                ((numerator * 255) / (2 * reach)) as u8
            }
        }
    }
}

} // verus!
