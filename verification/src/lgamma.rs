//! The decisions of the logarithm of the gamma function on the bit pattern
//! of its argument: the special arguments, the interval and the
//! approximation used, and the sign of the gamma function for a negative
//! argument from the sign of `sin(pi x)`.
use vstd::prelude::*;
use crate::arith::{lemma_u32_bits, lemma_u64_bits, lemma_u64_high_abs};
use vstd::arithmetic::power2::pow2;
use crate::arith::{lemma_f32_scaled_below, lemma_f64_scaled_below};
use crate::float_bits::{f32_scaled, f64_scaled};
use crate::power::{abs32, abs64, neg32, neg64, flip64, lemma_flip64, lemma_f64_abs_fields, lemma_f32_abs_fields, F32_INF, F64_INF, F64_ONE, F64_TWO, F32_ONE, F32_TWO};
use crate::trig_reduction::{flip32, lemma_flip32};
use crate::trig_reduction::high_abs;

verus! {

/// How `lgamma` and `lgammaf` proceed for an argument, by its magnitude.
#[derive(PartialEq, Eq, Structural, Debug, Clone, Copy)]
pub enum LgammaStep {
    /// An infinity or a NaN: the result is `x * x`.
    NonFinite,
    /// A tiny magnitude (zeros among them): the result is `-log|x|`, and
    /// the sign of the gamma function that of `x`.
    Tiny { negative: bool },
    /// `|x|` is `1` or `2`: the result is `0` (after the reflection for a
    /// negative argument, which finds a pole there).
    OneOrTwo,
    /// `|x| < 2`: one of three approximations `i` around `1` or `2`;
    /// `minus_log` when `|x| <= 0.9`, where `lgamma(x) = lgamma(x + 1) -
    /// log(x)`.
    BelowTwo { i: u8, minus_log: bool },
    /// `2 <= |x| < 8`: a rational approximation and the recurrence.
    BelowEight,
    /// `8 <= |x| < 2^58` (binary64) or `2^58` (binary32): Stirling's series.
    Stirling,
    /// Larger magnitudes: `x * (log(x) - 1)`.
    Huge,
}

/// The step that `lgamma` takes for the binary64 pattern `x`, by the high
/// word of `|x|` (and the low word, to find `1` and `2` exactly).
pub open spec fn lgamma_step(x: u64) -> LgammaStep {
    let ix = high_abs(x);
    if ix >= 0x7ff0_0000 {
        LgammaStep::NonFinite
    } else if ix < 0x3b90_0000 {
        LgammaStep::Tiny { negative: neg64(x) }
    } else if (ix == 0x3ff0_0000 || ix == 0x4000_0000) && x as nat % 0x1_0000_0000 == 0 {
        LgammaStep::OneOrTwo
    } else if ix < 0x4000_0000 {
        if ix <= 0x3fec_cccc {
            LgammaStep::BelowTwo {
                i: if ix >= 0x3fe7_6944 { 0 } else if ix >= 0x3fcd_a661 { 1 } else { 2 },
                minus_log: true,
            }
        } else {
            LgammaStep::BelowTwo {
                i: if ix >= 0x3ffb_b4c3 { 0 } else if ix >= 0x3ff3_b4c4 { 1 } else { 2 },
                minus_log: false,
            }
        }
    } else if ix < 0x4020_0000 {
        LgammaStep::BelowEight
    } else if ix < 0x4390_0000 {
        LgammaStep::Stirling
    } else {
        LgammaStep::Huge
    }
}

/// Decide the step `lgamma` takes for `x`, given by its bit pattern.
pub fn lgamma_step_of(x: u64) -> (r: LgammaStep)
    ensures
        r == lgamma_step(x),
{
    let ix: u32 = ((x >> 32) as u32) & 0x7fff_ffff;
    let lo: u32 = x as u32;
    proof {
        lemma_u64_bits(x);
        lemma_u64_high_abs(x);
    }
    /* purge off +-inf, NaN, +-0, tiny arguments */
    if ix >= 0x7ff0_0000 {
        return LgammaStep::NonFinite;
    }
    if ix < 0x3b90_0000 {
        /* |x|<2^-70, return -log(|x|) */
        return LgammaStep::Tiny { negative: (x >> 63) != 0 };
    }
    /* purge off 1 and 2 */
    if (ix == 0x3ff0_0000 || ix == 0x4000_0000) && lo == 0 {
        return LgammaStep::OneOrTwo;
    }
    if ix < 0x4000_0000 {
        /* for x < 2. */
        if ix <= 0x3fec_cccc {
            /* lgamma(x) = lgamma(x+1)-log(x) */
            let i: u8 = if ix >= 0x3fe7_6944 { 0 } else if ix >= 0x3fcd_a661 { 1 } else { 2 };
            return LgammaStep::BelowTwo { i, minus_log: true };
        }
        let i: u8 = if ix >= 0x3ffb_b4c3 { 0 } else if ix >= 0x3ff3_b4c4 { 1 } else { 2 };
        return LgammaStep::BelowTwo { i, minus_log: false };
    }
    if ix < 0x4020_0000 {
        /* x < 8.0 */
        return LgammaStep::BelowEight;
    }
    if ix < 0x4390_0000 {
        /* 8. <= x < 2^58 */
        return LgammaStep::Stirling;
    }
    /* 2^58 <= x <= inf */
    LgammaStep::Huge
}

/// The step that `lgammaf` takes for the binary32 pattern `x`, by `|x|`.
pub open spec fn lgammaf_step(x: u32) -> LgammaStep {
    let ix = abs32(x);
    if ix >= 0x7f80_0000 {
        LgammaStep::NonFinite
    } else if ix < 0x3500_0000 {
        LgammaStep::Tiny { negative: neg32(x) }
    } else if ix == 0x3f80_0000 || ix == 0x4000_0000 {
        LgammaStep::OneOrTwo
    } else if ix < 0x4000_0000 {
        if ix <= 0x3f66_6666 {
            LgammaStep::BelowTwo {
                i: if ix >= 0x3f3b_4a20 { 0 } else if ix >= 0x3e6d_3308 { 1 } else { 2 },
                minus_log: true,
            }
        } else {
            LgammaStep::BelowTwo {
                i: if ix >= 0x3fdd_a618 { 0 } else if ix >= 0x3f9d_a620 { 1 } else { 2 },
                minus_log: false,
            }
        }
    } else if ix < 0x4100_0000 {
        LgammaStep::BelowEight
    } else if ix < 0x5c80_0000 {
        LgammaStep::Stirling
    } else {
        LgammaStep::Huge
    }
}

/// Decide the step `lgammaf` takes for `x`, given by its bit pattern.
pub fn lgammaf_step_of(x: u32) -> (r: LgammaStep)
    ensures
        r == lgammaf_step(x),
{
    let ix: u32 = x & 0x7fff_ffff;
    proof {
        lemma_u32_bits(x);
    }
    /* purge off +-inf, NaN, +-0, tiny arguments */
    if ix >= 0x7f80_0000 {
        return LgammaStep::NonFinite;
    }
    if ix < 0x3500_0000 {
        /* |x| < 2**-21, return -log(|x|) */
        return LgammaStep::Tiny { negative: (x >> 31) != 0 };
    }
    /* purge off 1 and 2 */
    if ix == 0x3f80_0000 || ix == 0x4000_0000 {
        return LgammaStep::OneOrTwo;
    }
    if ix < 0x4000_0000 {
        /* for x < 2. */
        if ix <= 0x3f66_6666 {
            /* lgamma(x) = lgamma(x+1)-log(x) */
            let i: u8 = if ix >= 0x3f3b_4a20 { 0 } else if ix >= 0x3e6d_3308 { 1 } else { 2 };
            return LgammaStep::BelowTwo { i, minus_log: true };
        }
        let i: u8 = if ix >= 0x3fdd_a618 { 0 } else if ix >= 0x3f9d_a620 { 1 } else { 2 };
        return LgammaStep::BelowTwo { i, minus_log: false };
    }
    if ix < 0x4100_0000 {
        /* x < 8. */
        return LgammaStep::BelowEight;
    }
    if ix < 0x5c80_0000 {
        /* 8. <= x < 2**58 */
        return LgammaStep::Stirling;
    }
    LgammaStep::Huge
}

/// What the reflection for a negative argument makes of `t = sin(pi x)`
/// (binary64): `None` for a zero, a pole of the gamma function (`x` is a
/// negative integer); else the sign of the gamma function, `-1` when `t`
/// compares above zero.
pub open spec fn lgamma_reflect_spec(t: u64) -> Option<isize> {
    if abs64(t) == 0 {
        None
    } else if !neg64(t) && abs64(t) <= F64_INF {
        Some(-1isize)
    } else {
        Some(1isize)
    }
}

/// The pole and the sign of the gamma function for a negative argument,
/// from the bit pattern of `sin(pi x)`.
pub fn lgamma_reflect(t: u64) -> (r: Option<isize>)
    ensures
        r == lgamma_reflect_spec(t),
{
    proof {
        lemma_u64_bits(t);
    }
    let mag: u64 = t & 0x7fff_ffff_ffff_ffff;
    if mag == 0 {
        /* -integer */
        return None;
    }
    if (t >> 63) == 0 && mag <= 0x7ff0_0000_0000_0000 {
        /* t > 0 */
        return Some(-1);
    }
    Some(1)
}

/// The binary32 counterpart of `lgamma_reflect_spec`.
pub open spec fn lgammaf_reflect_spec(t: u32) -> Option<isize> {
    if abs32(t) == 0 {
        None
    } else if !neg32(t) && abs32(t) <= F32_INF {
        Some(-1isize)
    } else {
        Some(1isize)
    }
}

/// The pole and the sign of the gamma function for a negative argument,
/// from the binary32 bit pattern of `sin(pi x)`.
pub fn lgammaf_reflect(t: u32) -> (r: Option<isize>)
    ensures
        r == lgammaf_reflect_spec(t),
{
    proof {
        lemma_u32_bits(t);
    }
    let mag: u32 = t & 0x7fff_ffff;
    if mag == 0 {
        /* -integer */
        return None;
    }
    if (t >> 31) == 0 && mag <= 0x7f80_0000 {
        /* t > 0 */
        return Some(-1);
    }
    Some(1)
}

/// The special arguments that the documentation names: `lgamma(1) =
/// lgamma(2) = 0`, and an infinity or a NaN gives `x * x`, for both
/// formats; a zero is tiny, where the result is `-log|x| = +inf`; and the
/// reflection finds a pole exactly when `sin(pi x)` is a zero.
pub proof fn law_lgamma_special_arguments(x: u64, xf: u32, t: u64, tf: u32)
    ensures
        lgamma_step(0x3ff0_0000_0000_0000) == LgammaStep::OneOrTwo,
        lgamma_step(0x4000_0000_0000_0000) == LgammaStep::OneOrTwo,
        lgammaf_step(0x3f80_0000) == LgammaStep::OneOrTwo,
        lgammaf_step(0x4000_0000) == LgammaStep::OneOrTwo,
        abs64(x) >= F64_INF ==> lgamma_step(x) == LgammaStep::NonFinite,
        abs32(xf) >= F32_INF ==> lgammaf_step(xf) == LgammaStep::NonFinite,
        abs64(x) == 0 ==> lgamma_step(x) is Tiny,
        abs32(xf) == 0 ==> lgammaf_step(xf) is Tiny,
        (lgamma_reflect_spec(t) is None) == (abs64(t) == 0),
        (lgammaf_reflect_spec(tf) is None) == (abs32(tf) == 0),
{
    assert(abs64(0x3ff0_0000_0000_0000) == 0x3ff0_0000_0000_0000);
    assert(abs64(0x4000_0000_0000_0000) == 0x4000_0000_0000_0000);
    let ix = high_abs(x);
    assert(abs64(x) >= F64_INF ==> ix >= 0x7ff0_0000);
    assert(abs64(x) == 0 ==> ix == 0);
}

/// The step with the sign of a tiny argument flipped.
pub open spec fn flip_tiny(st: LgammaStep) -> LgammaStep {
    match st {
        LgammaStep::Tiny { negative } => LgammaStep::Tiny { negative: !negative },
        _ => st,
    }
}

/// `lgamma` decides on `|x|` alone: `-x` takes the step of `x`, but for the
/// sign of a tiny argument.
pub proof fn law_lgamma_step_even(x: u64, xf: u32)
    ensures
        lgamma_step(flip64(x)) == flip_tiny(lgamma_step(x)),
        lgammaf_step(flip32(xf)) == flip_tiny(lgammaf_step(xf)),
{
    lemma_flip64(x);
    lemma_flip32(xf);
    lemma_u64_bits(x);
    lemma_u64_bits(flip64(x));
    let a = abs64(x) as int;
    vstd::arithmetic::div_mod::lemma_fundamental_div_mod(x as int, 0x1_0000_0000);
    vstd::arithmetic::div_mod::lemma_fundamental_div_mod(flip64(x) as int, 0x1_0000_0000);
    vstd::arithmetic::div_mod::lemma_fundamental_div_mod(x as int, 0x8000_0000_0000_0000);
    vstd::arithmetic::div_mod::lemma_fundamental_div_mod(flip64(x) as int, 0x8000_0000_0000_0000);
    vstd::arithmetic::div_mod::lemma_mod_mod(x as int, 0x1_0000_0000, 0x8000_0000);
    vstd::arithmetic::div_mod::lemma_mod_mod(flip64(x) as int, 0x1_0000_0000, 0x8000_0000);
}

/// `lgamma` returns `-log|x|` exactly when `|x| < 2^-70` (binary64) or
/// `|x| < 2^-21` (binary32), with the sign of `x` as the sign of the gamma
/// function; and it returns `0` at `|x| = 1` and `|x| = 2` and there only.
pub proof fn law_lgamma_tiny_and_zeros(x: u64, xf: u32)
    ensures
        (lgamma_step(x) is Tiny) == (f64_scaled(x) < pow2(1005)),
        lgamma_step(x) matches LgammaStep::Tiny { negative } ==> negative == neg64(x),
        (lgamma_step(x) is OneOrTwo) == (abs64(x) == F64_ONE || abs64(x) == F64_TWO),
        (lgammaf_step(xf) is Tiny) == (f32_scaled(xf) < pow2(129)),
        lgammaf_step(xf) matches LgammaStep::Tiny { negative } ==> negative == neg32(xf),
        (lgammaf_step(xf) is OneOrTwo) == (abs32(xf) == F32_ONE || abs32(xf) == F32_TWO),
{
    lemma_u64_bits(x);
    lemma_u32_bits(xf);
    lemma_f64_abs_fields(x);
    lemma_f32_abs_fields(xf);
    lemma_f64_scaled_below(x, 0x3b9);
    lemma_f32_scaled_below(xf, 0x6a);
    let a = abs64(x) as int;
    let ix = high_abs(x) as int;
    vstd::arithmetic::div_mod::lemma_fundamental_div_mod(a, 0x1_0000_0000);
    vstd::arithmetic::div_mod::lemma_mod_bound(a, 0x1_0000_0000);
    vstd::arithmetic::div_mod::lemma_div_denominator(a, 0x1_0000_0000, 0x10_0000);
    vstd::arithmetic::div_mod::lemma_fundamental_div_mod(ix, 0x10_0000);
    vstd::arithmetic::div_mod::lemma_mod_bound(ix, 0x10_0000);
    /* the low word of x is that of |x| */
    vstd::arithmetic::div_mod::lemma_fundamental_div_mod(x as int, 0x8000_0000_0000_0000);
    vstd::arithmetic::div_mod::lemma_mod_mod(x as int, 0x8000_0000_0000_0000, 0x1_0000_0000);
    vstd::arithmetic::div_mod::lemma_fundamental_div_mod(x as int, 0x1_0000_0000);
}

} // verus!
