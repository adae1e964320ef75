//! The decisions of the binary64 reduction of an argument by multiples of
//! `pi/2`: which nearby multiple is subtracted directly, when the
//! medium-size algorithm or the multi-limb one is needed, and the scaled
//! argument that the multi-limb one starts from.
use vstd::prelude::*;
use crate::arith::{lemma_u64_bits, lemma_u64_high_abs};
use crate::arith::lemma_u32_bits;
use crate::float_bits::{f64_exp, f64_frac, f32_exp, f32_frac, f32_scaled};
use crate::arith::lemma_f32_scaled_below;
use vstd::arithmetic::power2::pow2;
use crate::power::{abs64, neg64, abs32, neg32, flip64, lemma_flip64};

verus! {

/// How the reduction by `pi/2` proceeds for an argument.
#[derive(PartialEq, Eq, Structural, Debug, Clone, Copy)]
pub enum PiO2Step {
    /// The argument is close to `n * pi/2` (`n` between `-4` and `4`, not
    /// zero, with the sign of the argument) but not so close that
    /// subtracting it cancels: subtract it directly.
    Multiple { n: i32 },
    /// The medium-size algorithm: `n = rint(x / (pi/2))` in floating point;
    /// also for arguments near `pi/2`, `pi`, `3pi/2` and `2pi`, where a
    /// direct subtraction would cancel.
    Medium,
    /// An infinity or a NaN: the result is a NaN.
    NonFinite,
    /// `|x| >= 2^20 * pi/2`: the multi-limb reduction.
    Large,
}

/// The high word of `|x|`.
pub open spec fn high_abs(x: u64) -> nat {
    abs64(x) / 0x1_0000_0000
}

/// The step that the reduction takes for the binary64 pattern `x`, by the
/// high word of `|x|`.
pub open spec fn pio2_step(x: u64) -> PiO2Step {
    let ix = high_abs(x);
    let s: i32 = if neg64(x) { -1i32 } else { 1i32 };
    if ix <= 0x400f_6a7a {
        if ix % 0x10_0000 == 0x9_21fb {
            PiO2Step::Medium
        } else if ix <= 0x4002_d97c {
            PiO2Step::Multiple { n: s }
        } else {
            PiO2Step::Multiple { n: (2 * s) as i32 }
        }
    } else if ix <= 0x401c_463b {
        if ix <= 0x4015_fdbc {
            if ix == 0x4012_d97c {
                PiO2Step::Medium
            } else {
                PiO2Step::Multiple { n: (3 * s) as i32 }
            }
        } else if ix == 0x4019_21fb {
            PiO2Step::Medium
        } else {
            PiO2Step::Multiple { n: (4 * s) as i32 }
        }
    } else if ix < 0x4139_21fb {
        PiO2Step::Medium
    } else if ix >= 0x7ff0_0000 {
        PiO2Step::NonFinite
    } else {
        PiO2Step::Large
    }
}

/// Decide how to reduce `x`, given by its bit pattern, by multiples of
/// `pi/2`.
pub fn pio2_step_of(x: u64) -> (r: PiO2Step)
    ensures
        r == pio2_step(x),
{
    let ix: u32 = ((x >> 32) as u32) & 0x7fff_ffff;
    let neg: bool = (x >> 63) != 0;
    proof {
        lemma_u64_bits(x);
        lemma_u64_high_abs(x);
        assert(ix & 0xfffff == ix % 0x10_0000) by (bit_vector);
    }
    let s: i32 = if neg { -1 } else { 1 };
    if ix <= 0x400f_6a7a {
        /* |x| ~<= 5pi/4 */
        if (ix & 0xfffff) == 0x9_21fb {
            /* |x| ~= pi/2 or 2pi/2: cancellation, use the medium case */
            return PiO2Step::Medium;
        }
        if ix <= 0x4002_d97c {
            return PiO2Step::Multiple { n: s };
        }
        return PiO2Step::Multiple { n: 2 * s };
    }
    if ix <= 0x401c_463b {
        if ix <= 0x4015_fdbc {
            if ix == 0x4012_d97c {
                return PiO2Step::Medium;
            }
            return PiO2Step::Multiple { n: 3 * s };
        }
        if ix == 0x4019_21fb {
            return PiO2Step::Medium;
        }
        return PiO2Step::Multiple { n: 4 * s };
    }
    if ix < 0x4139_21fb {
        return PiO2Step::Medium;
    }
    if ix >= 0x7ff0_0000 {
        return PiO2Step::NonFinite;
    }
    PiO2Step::Large
}

/// The binary64 pattern nearest `j * pi/4`, for odd `j` from `1` to `9`.
pub open spec fn pio4_multiple(j: int) -> int {
    if j == 1 {
        0x3fe9_21fb_5444_2d18
    } else if j == 3 {
        0x4002_d97c_7f33_21d2
    } else if j == 5 {
        0x400f_6a7a_2955_385e
    } else if j == 7 {
        0x4015_fdbb_e9bb_a775
    } else {
        0x401c_463a_becc_b2bb
    }
}

/// Two units in the last place of the high word of a binary64 pattern
/// near `pi`: the slack of the thresholds, which read the high word only.
pub open spec fn high_word_slack() -> int {
    0x2_0000_0000
}

/// The step with the multiple of `pi/2` negated.
pub open spec fn negate_step(st: PiO2Step) -> PiO2Step {
    match st {
        PiO2Step::Multiple { n } => PiO2Step::Multiple { n: (-n) as i32 },
        _ => st,
    }
}

/// The reduction is odd: `-x` takes the step of `x`, with the multiple of
/// `pi/2` negated.
pub proof fn law_pio2_step_odd(x: u64)
    ensures
        pio2_step(flip64(x)) == negate_step(pio2_step(x)),
{
    lemma_flip64(x);
}

/// A direct subtraction takes the multiple `n * pi/2` nearest the argument:
/// for `|x| >= pi/4`, `n` is not zero, has the sign of `x`, and `|x|` lies
/// within `pi/4` of `|n| * pi/2` (up to two units in the last place of the
/// high word, which the thresholds read).
pub proof fn law_pio2_multiple_nearest(x: u64)
    requires
        abs64(x) >= pio4_multiple(1),
        pio2_step(x) is Multiple,
    ensures
        ({
            let n = pio2_step(x)->n;
            let k = if n < 0 { -n } else { n as int };
            &&& 1 <= k <= 4
            &&& (n < 0) == neg64(x)
            &&& pio4_multiple(2 * k - 1) - high_word_slack() <= abs64(x)
            &&& abs64(x) <= pio4_multiple(2 * k + 1) + high_word_slack()
        }),
{
    let a = abs64(x) as int;
    vstd::arithmetic::div_mod::lemma_fundamental_div_mod(a, 0x1_0000_0000);
    vstd::arithmetic::div_mod::lemma_mod_bound(a, 0x1_0000_0000);
}

/// Infinities and NaNs give a NaN; the multi-limb reduction is used only
/// for finite arguments of at least about `2^20 * pi/2` (the high word of
/// that value), and the medium one only below it.
pub proof fn law_pio2_step_large(x: u64)
    ensures
        (pio2_step(x) is NonFinite) == (abs64(x) >= 0x7ff0_0000_0000_0000),
        pio2_step(x) is Large ==> 0x4139_21fb_0000_0000 <= abs64(x) < 0x7ff0_0000_0000_0000,
        pio2_step(x) is Medium ==> abs64(x) < 0x4139_21fb_0000_0000,
{
    let a = abs64(x) as int;
    vstd::arithmetic::div_mod::lemma_fundamental_div_mod(a, 0x1_0000_0000);
    vstd::arithmetic::div_mod::lemma_mod_bound(a, 0x1_0000_0000);
}

/// For the multi-limb reduction of a finite `x`: the pattern of
/// `|x| / 2^(e - 23)`, in `[2^23, 2^24)`, where `e` is the exponent of
/// `x`, and the exponent `e - 23` itself (negative for arguments below
/// `2^23`).
pub fn large_parts(x: u64) -> (r: (u64, i32))
    ensures
        r.0 == f64_frac(x) + 0x416 * 0x10_0000_0000_0000,
        r.1 == f64_exp(x) - 0x416,
{
    proof {
        lemma_u64_bits(x);
        assert(x & ((!1u64) >> 12) == x & (u64::MAX >> 12)) by (bit_vector);
        assert((x & (u64::MAX >> 12)) | (0x416u64 << 52) == (x & (u64::MAX >> 12)) + 0x416u64
            * 0x10_0000_0000_0000) by (bit_vector);
        assert(((x >> 32) as u32 & 0x7fff_ffff) >> 20 == (x >> 52) & 0x7ff) by (bit_vector);
    }
    let ix: u32 = (x >> 32) as u32 & 0x7fff_ffff;
    let ui: u64 = (x & ((!1u64) >> 12)) | ((0x3ffu64 + 23) << 52);
    (ui, (ix >> 20) as i32 - (0x3ff + 23))
}

/// How the binary32 reduction by `pi/2` proceeds for an argument.
#[derive(PartialEq, Eq, Structural, Debug, Clone, Copy)]
pub enum PiO2StepF {
    /// `|x| <= pi/4`: no reduction.
    Small,
    /// `|x| < 3pi/4`: subtract `pi/2` with the sign of the argument (`n` is
    /// `1` or `-1`); `near` when `|x|` is so close to `pi/2` that a third
    /// chunk of `pi/2` is needed.
    One { n: i32, near: bool },
    /// `|x| <= 2^7 * pi/2`: the medium-size algorithm.
    Medium,
    /// An infinity or a NaN: the result is a NaN.
    NonFinite,
    /// The multi-limb reduction.
    Large,
}

/// The step that the binary32 reduction takes for the pattern `x`.
pub open spec fn pio2f_step(x: u32) -> PiO2StepF {
    let ix = abs32(x);
    if ix <= 0x3f49_0fd8 {
        PiO2StepF::Small
    } else if ix < 0x4016_cbe4 {
        PiO2StepF::One {
            n: if neg32(x) { -1i32 } else { 1i32 },
            near: ix / 16 == 0x3fc9_0fd,
        }
    } else if ix <= 0x4349_0f80 {
        PiO2StepF::Medium
    } else if ix >= 0x7f80_0000 {
        PiO2StepF::NonFinite
    } else {
        PiO2StepF::Large
    }
}

/// Decide how to reduce `x`, given by its binary32 bit pattern, by
/// multiples of `pi/2`.
pub fn pio2f_step_of(x: u32) -> (r: PiO2StepF)
    ensures
        r == pio2f_step(x),
{
    let ix: u32 = x & 0x7fff_ffff;
    proof {
        lemma_u32_bits(x);
        assert((ix & 0xffff_fff0) == 0x3fc9_0fd0 <==> ix / 16 == 0x3fc9_0fd) by (bit_vector);
        assert(x & 0x7fff_ffff == x % 0x8000_0000) by (bit_vector);
    }
    if ix <= 0x3f49_0fd8 {
        return PiO2StepF::Small;
    }
    if ix < 0x4016_cbe4 {
        let n: i32 = if x >= 0x8000_0000 { -1 } else { 1 };
        return PiO2StepF::One { n, near: (ix & 0xffff_fff0) == 0x3fc9_0fd0 };
    }
    if ix <= 0x4349_0f80 {
        return PiO2StepF::Medium;
    }
    if ix >= 0x7f80_0000 {
        return PiO2StepF::NonFinite;
    }
    PiO2StepF::Large
}

/// For the binary32 multi-limb reduction of a finite `x`: the pattern of
/// `|x| / 2^(e - 7)`, in `[2^7, 2^8)`, where `e` is the exponent of `x`,
/// and the exponent `e - 7` itself.
pub fn large_parts_f(x: u32) -> (r: (u32, i32))
    ensures
        r.0 == f32_frac(x) + 0x86 * 0x80_0000,
        r.1 == f32_exp(x) - 0x86,
{
    let ix: i32 = (x & 0x7fff_ffff) as i32;
    proof {
        lemma_u32_bits(x);
        assert((((x & 0x7fff_ffff) as i32) >> 23) as u32 == (x >> 23) & 0xff) by (bit_vector);
        assert((x & 0x7fff_ffff) == ((x >> 23) & 0xff) * 0x80_0000 + (x & 0x7f_ffff)) by (bit_vector);
    }
    let e0: i32 = (ix >> 23) - 134;
    let z: u32 = (ix - e0 * 0x80_0000) as u32;
    (z, e0)
}

/// Where a binary32 argument of `sincosf` lies, by its magnitude.
#[derive(PartialEq, Eq, Structural, Debug, Clone, Copy)]
pub enum SincosfRange {
    /// `|x| < 2^-12`: `sin x = x`, `cos x = 1`; `very_small` below `2^-124`,
    /// where the result underflows.
    Tiny { very_small: bool },
    /// `|x| <= pi/4`: the kernels on `x` itself.
    Kernel,
    /// `|x|` within `pi/4` of `k * pi/2`, `k` from `1` to `4`: the kernels
    /// on `x` minus that multiple.
    Near { k: u32 },
    /// An infinity or a NaN: both results are NaNs.
    NonFinite,
    /// The general argument reduction.
    Reduce,
}

/// The range that `sincosf` finds the binary32 pattern `x` in.
pub open spec fn sincosf_range(x: u32) -> SincosfRange {
    let ix = abs32(x);
    if ix <= 0x3f49_0fda {
        if ix < 0x3980_0000 {
            SincosfRange::Tiny { very_small: ix < 0x0010_0000 }
        } else {
            SincosfRange::Kernel
        }
    } else if ix <= 0x407b_53d1 {
        SincosfRange::Near { k: if ix <= 0x4016_cbe3 { 1 } else { 2 } }
    } else if ix <= 0x40e2_31d5 {
        SincosfRange::Near { k: if ix <= 0x40af_eddf { 3 } else { 4 } }
    } else if ix >= 0x7f80_0000 {
        SincosfRange::NonFinite
    } else {
        SincosfRange::Reduce
    }
}

/// Find the range of the binary32 pattern `x` for `sincosf`.
pub fn sincosf_range_of(x: u32) -> (r: SincosfRange)
    ensures
        r == sincosf_range(x),
{
    let ix: u32 = x & 0x7fff_ffff;
    proof {
        lemma_u32_bits(x);
    }
    if ix <= 0x3f49_0fda {
        if ix < 0x3980_0000 {
            return SincosfRange::Tiny { very_small: ix < 0x0010_0000 };
        }
        return SincosfRange::Kernel;
    }
    if ix <= 0x407b_53d1 {
        return SincosfRange::Near { k: if ix <= 0x4016_cbe3 { 1 } else { 2 } };
    }
    if ix <= 0x40e2_31d5 {
        return SincosfRange::Near { k: if ix <= 0x40af_eddf { 3 } else { 4 } };
    }
    if ix >= 0x7f80_0000 {
        return SincosfRange::NonFinite;
    }
    SincosfRange::Reduce
}

/// The binary32 pattern nearest `j * pi/4`, for odd `j` from `1` to `9`.
pub open spec fn pio4f_multiple(j: int) -> int {
    if j == 1 {
        0x3f49_0fdb
    } else if j == 3 {
        0x4016_cbe4
    } else if j == 5 {
        0x407b_53d1
    } else if j == 7 {
        0x40af_eddf
    } else {
        0x40e2_31d6
    }
}

/// The binary32 pattern with its sign bit flipped: `-x`.
pub open spec fn flip32(x: u32) -> u32 {
    if neg32(x) { (x - 0x8000_0000) as u32 } else { (x + 0x8000_0000) as u32 }
}

/// The magnitude of `-x` is that of `x`, and its sign the other.
pub(crate) proof fn lemma_flip32(x: u32)
    ensures
        abs32(flip32(x)) == abs32(x),
        neg32(flip32(x)) == !neg32(x),
{
    let a = abs32(x) as int;
    vstd::arithmetic::div_mod::lemma_fundamental_div_mod(x as int, 0x8000_0000);
    vstd::arithmetic::div_mod::lemma_mod_bound(x as int, 0x8000_0000);
    if neg32(x) {
        vstd::arithmetic::div_mod::lemma_fundamental_div_mod_converse(flip32(x) as int, 0x8000_0000, 0, a);
    } else {
        vstd::arithmetic::div_mod::lemma_fundamental_div_mod_converse(flip32(x) as int, 0x8000_0000, 1, a);
    }
}

/// The binary32 step with the multiple of `pi/2` negated.
pub open spec fn negate_step_f(st: PiO2StepF) -> PiO2StepF {
    match st {
        PiO2StepF::One { n, near } => PiO2StepF::One { n: (-n) as i32, near },
        _ => st,
    }
}

/// The binary32 reduction is odd: `-x` takes the step of `x`, with the
/// multiple of `pi/2` negated.
pub proof fn law_pio2f_step_odd(x: u32)
    ensures
        pio2f_step(flip32(x)) == negate_step_f(pio2f_step(x)),
{
    lemma_flip32(x);
}

/// The binary32 reduction leaves `|x| <= pi/4` alone; it subtracts `pi/2`
/// with the sign of `x` only below `3pi/4`, taking a third chunk of `pi/2`
/// only within 16 units in the last place of `pi/2`.
pub proof fn law_pio2f_step_ranges(x: u32)
    ensures
        pio2f_step(x) is Small ==> abs32(x) < pio4f_multiple(1),
        pio2f_step(x) matches PiO2StepF::One { n, near } ==> {
            &&& pio4f_multiple(1) - 4 <= abs32(x) < pio4f_multiple(3)
            &&& (n == 1 || n == -1)
            &&& (n < 0) == neg32(x)
            &&& near ==> -16 < abs32(x) - 0x3fc9_0fdb < 16
        },
{
}

/// Where `sincosf` finds `x` depends on `|x|` alone.
pub proof fn law_sincosf_range_even(x: u32)
    ensures
        sincosf_range(flip32(x)) == sincosf_range(x),
{
    lemma_flip32(x);
}

/// `sincosf` returns `(x, 1)` exactly when `|x| < 2^-12`; it uses the
/// kernels on `x` only below `pi/4`, and on `x` minus `k * pi/2` only when
/// `|x|` is within `pi/4` of `k * pi/2`.
pub proof fn law_sincosf_range_values(x: u32)
    ensures
        (sincosf_range(x) is Tiny) == (f32_scaled(x) < pow2(138)),
        sincosf_range(x) is Kernel ==> abs32(x) < pio4f_multiple(1),
        sincosf_range(x) matches SincosfRange::Near { k } ==> {
            &&& 1 <= k <= 4
            &&& pio4f_multiple(2 * k - 1) <= abs32(x) <= pio4f_multiple(2 * k + 1)
        },
{
    lemma_u32_bits(x);
    crate::ceilf::lemma_f32_split(x);
    lemma_f32_scaled_below(x, 0x73);
}

} // verus!
