//! The fields of IEEE 754 binary64, binary32 and binary16 bit patterns.
use vstd::prelude::*;

verus! {

/// The sign bit of a binary64 pattern.
pub open spec fn f64_sign(x: u64) -> nat {
    x as nat / 0x8000_0000_0000_0000
}

/// The biased exponent field of a binary64 pattern.
pub open spec fn f64_exp(x: u64) -> nat {
    (x as nat / 0x10_0000_0000_0000) % 0x800
}

/// The fraction field of a binary64 pattern.
pub open spec fn f64_frac(x: u64) -> nat {
    x as nat % 0x10_0000_0000_0000
}

/// The integer significand of a binary64 pattern: the fraction with the
/// implicit leading bit of normal numbers.
pub open spec fn f64_mant(x: u64) -> nat {
    f64_frac(x) + if f64_exp(x) != 0 { 0x10_0000_0000_0000nat } else { 0 }
}

/// The pattern is a NaN.
pub open spec fn f64_is_nan(x: u64) -> bool {
    f64_exp(x) == 0x7ff && f64_frac(x) != 0
}

/// The pattern is a zero of either sign.
pub open spec fn f64_is_zero(x: u64) -> bool {
    x as nat % 0x8000_0000_0000_0000 == 0
}

/// The pattern compares below `0.0`.
pub open spec fn f64_lt_zero(x: u64) -> bool {
    f64_sign(x) == 1 && !f64_is_nan(x) && !f64_is_zero(x)
}

/// The sign bit of a binary16 pattern.
pub open spec fn f16_sign(x: u16) -> nat {
    x as nat / 0x8000
}

/// The biased exponent field of a binary16 pattern.
pub open spec fn f16_exp(x: u16) -> nat {
    (x as nat / 0x400) % 0x20
}

/// The integer significand of a binary16 pattern: the fraction with the
/// implicit leading bit of normal numbers.
pub open spec fn f16_sig(x: u16) -> nat {
    x as nat % 0x400 + if f16_exp(x) != 0 { 0x400nat } else { 0 }
}

/// The power of two that divides the significand of a finite binary16
/// pattern: its magnitude is `f16_sig(x) / 2^f16_scale(x)` when the scale
/// is nonnegative.
pub open spec fn f16_scale(x: u16) -> int {
    25 - (if f16_exp(x) == 0 { 1 } else { f16_exp(x) as int })
}

/// The sign bit of a binary32 pattern.
pub open spec fn f32_sign(x: u32) -> nat {
    x as nat / 0x8000_0000
}

/// The biased exponent field of a binary32 pattern.
pub open spec fn f32_exp(x: u32) -> nat {
    (x as nat / 0x80_0000) % 0x100
}

/// The fraction field of a binary32 pattern.
pub open spec fn f32_frac(x: u32) -> nat {
    x as nat % 0x80_0000
}

/// The integer significand of a binary32 pattern: the fraction with the
/// implicit leading bit of normal numbers.
pub open spec fn f32_sig(x: u32) -> nat {
    f32_frac(x) + if f32_exp(x) != 0 { 0x80_0000nat } else { 0 }
}

/// The power of two that divides the significand of a finite binary32
/// pattern: its magnitude is `f32_sig(x) / 2^f32_scale(x)` when the scale
/// is nonnegative.
pub open spec fn f32_scale(x: u32) -> int {
    150 - (if f32_exp(x) == 0 { 1 } else { f32_exp(x) as int })
}

/// The binary32 pattern `r` has the sign of `x` and the integer magnitude
/// `n` (a zero of that sign when `n` is zero).
pub open spec fn f32_is_signed_int(r: u32, x: u32, n: nat) -> bool {
    &&& f32_sign(r) == f32_sign(x)
    &&& n == 0 ==> r as nat % 0x8000_0000 == 0
    &&& n > 0 ==> {
        &&& 127 <= f32_exp(r) <= 150
        &&& f32_sig(r) == n * vstd::arithmetic::power2::pow2((150 - f32_exp(r)) as nat)
    }
}

/// `|x| * 2^150` for a finite binary32 pattern: the significand times the
/// power of two of the exponent field (of `1` for subnormals).
pub open spec fn f32_scaled(x: u32) -> nat {
    f32_sig(x) * vstd::arithmetic::power2::pow2(if f32_exp(x) == 0 { 1 } else { f32_exp(x) })
}

/// `|x| * 2^1075` for a finite binary64 pattern: the significand times the
/// power of two of the exponent field (of `1` for subnormals).
pub open spec fn f64_scaled(x: u64) -> nat {
    f64_mant(x) * vstd::arithmetic::power2::pow2(if f64_exp(x) == 0 { 1 } else { f64_exp(x) })
}

} // verus!


