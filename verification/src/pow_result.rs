//! The integer decisions that `pow` and `powf` take after evaluating
//! `z = y * log2|x|`: whether `2^z` surely overflows or underflows, read
//! from the bit pattern of `z`, and how the power of two `2^n` is put into
//! the exponent field of the result.
use vstd::prelude::*;

verus! {

/// Where `z = y * log2|x|` lies against the range of the result.
#[derive(PartialEq, Eq, Structural, Debug, Clone, Copy)]
pub enum PowRange {
    /// `z` is above the largest exponent: the result overflows.
    Overflow,
    /// The leading part of `z` is the largest exponent itself: the low part
    /// decides whether the result overflows.
    AtMax,
    /// `z` is below the smallest exponent: the result underflows.
    Underflow,
    /// The leading part of `z` is the smallest exponent itself: the low part
    /// decides whether the result underflows.
    AtMin,
    /// `2^z` is evaluated.
    InRange,
}

/// The high word of a binary pattern read as a signed `i32`, without its
/// sign bit.
pub open spec fn abs_word(j: i32) -> int {
    if j < 0 { j + 0x8000_0000 } else { j as int }
}

/// The range of binary64 `z`, given by its high word `j` and low word `i`
/// (both read as `i32`): `1024` and `-1075` are the limits.
pub open spec fn pow_range(j: i32, i: i32) -> PowRange {
    if j >= 0x4090_0000 {
        if j == 0x4090_0000 && i == 0 { PowRange::AtMax } else { PowRange::Overflow }
    } else if abs_word(j) >= 0x4090_cc00 {
        if j == -0x3f6f_3400 && i == 0 { PowRange::AtMin } else { PowRange::Underflow }
    } else {
        PowRange::InRange
    }
}

/// Decide where the binary64 `z` of `pow`, given by its high and low words,
/// lies against the range of the result.
pub fn pow_range_of(j: i32, i: i32) -> (r: PowRange)
    ensures
        r == pow_range(j, i),
{
    if j >= 0x4090_0000 {
        /* z >= 1024 */
        if j == 0x4090_0000 && i == 0 {
            return PowRange::AtMax;
        }
        /* z > 1024 */
        return PowRange::Overflow;
    }
    let a: i32 = if j < 0 { j - i32::MIN } else { j };
    if a >= 0x4090_cc00 {
        /* z <= -1075 */
        if j == -0x3f6f_3400 && i == 0 {
            return PowRange::AtMin;
        }
        /* z < -1075 */
        return PowRange::Underflow;
    }
    PowRange::InRange
}

/// The range of binary32 `z`, given by its bit pattern read as `i32`:
/// `128` and `-150` are the limits.
pub open spec fn powf_range(j: i32) -> PowRange {
    if j > 0x4300_0000 {
        PowRange::Overflow
    } else if j == 0x4300_0000 {
        PowRange::AtMax
    } else if abs_word(j) > 0x4316_0000 {
        PowRange::Underflow
    } else if j == -0x3cea_0000 {
        PowRange::AtMin
    } else {
        PowRange::InRange
    }
}

/// Decide where the binary32 `z` of `powf`, given by its bit pattern,
/// lies against the range of the result.
pub fn powf_range_of(j: i32) -> (r: PowRange)
    ensures
        r == powf_range(j),
{
    if j > 0x4300_0000 {
        /* if z > 128 */
        return PowRange::Overflow;
    }
    if j == 0x4300_0000 {
        /* if z == 128 */
        return PowRange::AtMax;
    }
    let a: i32 = if j < 0 { j - i32::MIN } else { j };
    if a > 0x4316_0000 {
        /* z < -150 */
        return PowRange::Underflow;
    }
    if j == -0x3cea_0000 {
        /* z == -150 */
        return PowRange::AtMin;
    }
    PowRange::InRange
}

/// The 32-bit word held in an `i32` (two's complement).
pub open spec fn word(j: i32) -> int {
    if j < 0 { j + 0x1_0000_0000 } else { j as int }
}

/// The binary64 pattern of `z` from its high and low words.
pub open spec fn z_bits(j: i32, i: i32) -> int {
    word(j) * 0x1_0000_0000 + word(i)
}

/// The tests of `pow` on `z` mean what they say of its value: the result
/// overflows exactly for `z > 1024` (NaN and `+inf` among them), the low
/// part decides exactly at `z = 1024` and `z = -1075`, and the result
/// underflows exactly for `z < -1075` (and `-inf`, and NaNs with the sign
/// bit set). Patterns of nonnegative values compare as the values do.
pub proof fn law_pow_range_values(j: i32, i: i32)
    ensures
        ({
            let z = z_bits(j, i);
            &&& (pow_range(j, i) == PowRange::Overflow) == (z < 0x8000_0000_0000_0000
                && z > 0x4090_0000_0000_0000)
            &&& (pow_range(j, i) == PowRange::AtMax) == (z == 0x4090_0000_0000_0000)
            &&& (pow_range(j, i) == PowRange::Underflow) == (z >= 0x8000_0000_0000_0000
                && z - 0x8000_0000_0000_0000 > 0x4090_cc00_0000_0000)
            &&& (pow_range(j, i) == PowRange::AtMin) == (z == 0xc090_cc00_0000_0000)
        }),
{
}

/// The tests of `powf` on `z` mean what they say of its value: overflow
/// exactly for `z > 128`, underflow exactly for `z < -150`, and the low
/// part decides at `z = 128` and `z = -150`.
pub proof fn law_powf_range_values(j: i32)
    ensures
        (powf_range(j) == PowRange::Overflow) == (word(j) < 0x8000_0000 && word(j) > 0x4300_0000),
        (powf_range(j) == PowRange::AtMax) == (word(j) == 0x4300_0000),
        (powf_range(j) == PowRange::Underflow) == (word(j) >= 0x8000_0000 && word(j) - 0x8000_0000
            > 0x4316_0000),
        (powf_range(j) == PowRange::AtMin) == (word(j) == 0xc316_0000),
{
}

/// The word `hi` of a result with `n` added to its exponent field (of
/// `2^shift` units): `None` when the exponent field is no longer positive,
/// where the result is subnormal and is scaled in floating point instead.
pub open spec fn scaled_word(hi: int, n: int, shift: nat) -> Option<int> {
    let j = hi + n * vstd::arithmetic::power2::pow2(shift);
    if j < vstd::arithmetic::power2::pow2(shift) { None } else { Some(j) }
}

/// Add `n` to the exponent field of the binary64 high word `hi` of the
/// result `2^(z - n)` of `pow`: `None` for a subnormal result.
pub fn pow_scale(hi: i32, n: i32) -> (r: Option<u32>)
    requires
        -2048 < n < 2048,
        i32::MIN <= hi + n * 0x10_0000 <= i32::MAX,
    ensures
        r == (match scaled_word(hi as int, n as int, 20) {
            Some(j) => Some(j as u32),
            None => None,
        }),
{
    proof {
        vstd::arithmetic::power2::lemma2_to64();
    }
    let j: i32 = hi + n * 0x10_0000;
    if j < 0x10_0000 {
        /* subnormal output */
        return None;
    }
    Some(j as u32)
}

/// Add `n` to the exponent field of the binary32 pattern `bits` of the
/// result `2^(z - n)` of `powf`: `None` for a subnormal result.
pub fn powf_scale(bits: i32, n: i32) -> (r: Option<u32>)
    requires
        -256 < n < 256,
        i32::MIN <= bits + n * 0x80_0000 <= i32::MAX,
    ensures
        r == (match scaled_word(bits as int, n as int, 23) {
            Some(j) => Some(j as u32),
            None => None,
        }),
{
    proof {
        vstd::arithmetic::power2::lemma2_to64();
    }
    let j: i32 = bits + n * 0x80_0000;
    if j < 0x80_0000 {
        /* subnormal output */
        return None;
    }
    Some(j as u32)
}

} // verus!
