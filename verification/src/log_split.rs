//! The first step of the logarithms that reduce their argument into
//! `[sqrt(2)/2, sqrt(2))` by its leading fraction bits: the special
//! arguments, and `x = 2^k * y` exactly.
use vstd::prelude::*;
use vstd::arithmetic::mul::*;
use vstd::arithmetic::power2::*;
use vstd::bits::lemma_u64_shl_is_mul;
use vstd::std_specs::bits::u64_leading_zeros;
use crate::arith::{lemma_f32_scaled_below, lemma_f64_scaled_below, bit_len, lemma_bit_len_bounds, lemma_bit_len_le, lemma_bit_len_unique, lemma_u32_bits, lemma_u64_bits, lemma_u64_leading_zeros};
use crate::float_bits::{f32_exp, f32_frac, f32_sig, f32_sign, f32_scaled, f64_exp, f64_frac, f64_is_zero, f64_sign, f64_scaled};
use crate::ceilf::lemma_f32_split;
use crate::log::{fast_extract, lemma_log_normalize, lemma_split_value, one_bits, split_value};

verus! {

/// What a binary64 logarithm does with its argument before evaluating.
#[derive(PartialEq, Eq, Structural, Debug, Clone, Copy)]
pub enum LogSplit {
    /// A zero: the result is `-inf`.
    NegInf,
    /// A negative argument, infinities and NaNs among them: the result is a
    /// NaN.
    Nan,
    /// `+inf` or a positive NaN: the result is `x`.
    Itself,
    /// The argument is one: the result is `+0`.
    Zero,
    /// `x = 2^k * y` with `y`, a bit pattern, in `[sqrt(2)/2, sqrt(2))`.
    Reduce { k: i32, y: u64 },
}

/// What `log_split` makes of `x`: `y` is halved below one when the leading
/// 20 bits of its fraction reach those of `sqrt(2)`.
pub open spec fn log_split_post(x: u64, r: LogSplit) -> bool {
    match r {
        LogSplit::NegInf => f64_is_zero(x),
        LogSplit::Nan => f64_sign(x) == 1 && !f64_is_zero(x),
        LogSplit::Itself => f64_sign(x) == 0 && f64_exp(x) == 0x7ff,
        LogSplit::Zero => x == one_bits(),
        LogSplit::Reduce { k, y } => {
            &&& f64_sign(x) == 0
            &&& f64_exp(x) < 0x7ff
            &&& !f64_is_zero(x)
            &&& x != one_bits()
            &&& split_value(x, k as int, y, if f64_frac(y) >= 0x6_a09e_0000_0000 { 1 } else { 0 })
        },
    }
}

/// The first step of the binary and decimal logarithms of `x`, given by its
/// bit pattern: settles the special arguments (zero, negative, infinite,
/// NaN, one), and otherwise writes `x = 2^k * y` with `y` in
/// `[sqrt(2)/2, sqrt(2))`.
pub fn log_split(x: u64) -> (r: LogSplit)
    ensures
        log_split_post(x, r),
{
    proof {
        lemma_u64_bits(x);
    }
    if x & 0x7fff_ffff_ffff_ffff == 0 {
        /* log(+-0)=-inf */
        return LogSplit::NegInf;
    }
    if x >> 63 != 0 {
        /* log(-#) = NaN */
        return LogSplit::Nan;
    }
    let ef: u64 = (x >> 52) & 0x7ff;
    if ef == 0x7ff {
        return LogSplit::Itself;
    }
    if x == 0x3ff0_0000_0000_0000 {
        return LogSplit::Zero;
    }
    let (ex, m) = fast_extract(x);
    let t: u32 = m.leading_zeros();
    proof {
        lemma_log_normalize(x, m, t);
        lemma_u64_shl_is_mul(m, (t - 11) as u64);
    }
    /* subnormal numbers are scaled up to a leading one bit */
    let mn: u64 = m << (t - 11);
    let f: u64 = mn & 0xf_ffff_ffff_ffff;
    /* reduce x into [sqrt(2)/2, sqrt(2)] */
    let c: u64 = if f >= 0x6_a09e_0000_0000 { 1 } else { 0 };
    let k: i32 = (if ef == 0 { -1011 - t as i32 } else { ex as i32 }) + c as i32;
    let y: u64 = ((0x3ff - c) << 52) | f;
    proof {
        lemma_split_value(x, m, t, mn, c, y, k as int);
        assert(f == mn % 0x10_0000_0000_0000) by (bit_vector)
            requires
                f == mn & 0xf_ffff_ffff_ffff,
        ;
    }
    LogSplit::Reduce { k, y }
}

/// What a binary32 logarithm does with its argument before evaluating.
#[derive(PartialEq, Eq, Structural, Debug, Clone, Copy)]
pub enum LogSplitF {
    /// A zero: the result is `-inf`.
    NegInf,
    /// A negative argument, infinities and NaNs among them: the result is a
    /// NaN.
    Nan,
    /// `+inf` or a positive NaN: the result is `x`.
    Itself,
    /// The argument is one: the result is `+0`.
    Zero,
    /// `x = 2^k * y` with `y`, a bit pattern, in `[sqrt(2)/2, sqrt(2))`.
    Reduce { k: i32, y: u32 },
}

/// `y` and `k` split the positive finite binary32 `x`: `x = 2^k * y`
/// exactly, with `y` positive and the exponent field of `[1, 2)`, or of
/// `[1/2, 1)` when `c` is one.
pub open spec fn split_value_f(x: u32, k: int, y: u32, c: nat) -> bool {
    let ex: nat = if f32_exp(x) == 0 { 1 } else { f32_exp(x) };
    &&& f32_sign(y) == 0
    &&& f32_exp(y) == 0x7f - c
    &&& f32_exp(y) + k + 23 >= 0
    &&& f32_sig(x) * pow2(ex + 23) == f32_sig(y) * pow2((f32_exp(y) + k + 23) as nat)
}

/// What `logf_split` makes of `x`: `y` is halved below one when its
/// fraction reaches that of `sqrt(2)`.
pub open spec fn logf_split_post(x: u32, r: LogSplitF) -> bool {
    match r {
        LogSplitF::NegInf => x as nat % 0x8000_0000 == 0,
        LogSplitF::Nan => f32_sign(x) == 1 && x as nat % 0x8000_0000 != 0,
        LogSplitF::Itself => f32_sign(x) == 0 && f32_exp(x) == 0xff,
        LogSplitF::Zero => x == 0x3f80_0000,
        LogSplitF::Reduce { k, y } => {
            &&& f32_sign(x) == 0
            &&& f32_exp(x) < 0xff
            &&& x as nat % 0x8000_0000 != 0
            &&& x != 0x3f80_0000
            &&& split_value_f(x, k as int, y, if f32_frac(y) >= 0x35_04f3 { 1 } else { 0 })
        },
    }
}

/// The first step of the binary32 natural logarithm of `x`, given by its
/// bit pattern: settles the special arguments (zero, negative, infinite,
/// NaN, one), and otherwise writes `x = 2^k * y` with `y` in
/// `[sqrt(2)/2, sqrt(2))`.
pub fn logf_split(x: u32) -> (r: LogSplitF)
    ensures
        logf_split_post(x, r),
{
    proof {
        lemma_u32_bits(x);
    }
    if x & 0x7fff_ffff == 0 {
        /* log(+-0)=-inf */
        return LogSplitF::NegInf;
    }
    if x >> 31 != 0 {
        /* log(-#) = NaN */
        return LogSplitF::Nan;
    }
    let ef: u32 = (x >> 23) & 0xff;
    if ef == 0xff {
        return LogSplitF::Itself;
    }
    if x == 0x3f80_0000 {
        return LogSplitF::Zero;
    }
    let m: u64 = ((x & 0x7f_ffff) + if ef != 0 { 0x80_0000u32 } else { 0u32 }) as u64;
    let t: u32 = m.leading_zeros();
    proof {
        lemma_logf_normalize(x, m, t);
        lemma_u64_shl_is_mul(m, (t - 40) as u64);
    }
    /* subnormal numbers are scaled up to a leading one bit */
    let mn: u64 = m << (t - 40);
    let f: u64 = mn & 0x7f_ffff;
    /* reduce x into [sqrt(2)/2, sqrt(2)] */
    let c: u64 = if f >= 0x35_04f3 { 1 } else { 0 };
    let k: i32 = (if ef == 0 { -86 - t as i32 } else { ef as i32 - 0x7f }) + c as i32;
    let y: u32 = (((0x7f - c) << 23) | f) as u32;
    proof {
        lemma_logf_parts(x, m, t, mn, c, f, y, k as int);
    }
    LogSplitF::Reduce { k, y }
}

/// What `log1p` does with its binary64 argument before evaluating.
#[derive(PartialEq, Eq, Structural, Debug, Clone, Copy)]
pub enum Log1pStep {
    /// `x = -1`: the result is `-inf`.
    Pole,
    /// `x < -1`, or a NaN with the sign bit set: the result is a NaN.
    Nan,
    /// `|x| < 2^-53`: the result is `x`; `subnormal` when the exponent
    /// field is zero.
    Tiny { subnormal: bool },
    /// `sqrt(2)/2 <= 1 + x < sqrt(2)`: the polynomial on `x` itself.
    Small,
    /// `+inf` or a positive NaN: the result is `x`.
    Itself,
    /// Reduce `1 + x` (computed in floating point) by a power of two.
    Reduce,
}

/// The step `log1p` takes for the binary64 pattern `x`, by its high word.
pub open spec fn log1p_step(x: u64) -> Log1pStep {
    let hx = x as nat / 0x1_0000_0000;
    if hx < 0x3fda_827a || hx >= 0x8000_0000 {
        if hx >= 0xbff0_0000 {
            if x == 0xbff0_0000_0000_0000 { Log1pStep::Pole } else { Log1pStep::Nan }
        } else if hx % 0x8000_0000 < 0x3ca0_0000 {
            Log1pStep::Tiny { subnormal: f64_exp(x) == 0 }
        } else if hx <= 0xbfd2_bec4 {
            Log1pStep::Small
        } else {
            Log1pStep::Reduce
        }
    } else if hx >= 0x7ff0_0000 {
        Log1pStep::Itself
    } else {
        Log1pStep::Reduce
    }
}

/// Decide the step `log1p` takes for `x`, given by its bit pattern.
pub fn log1p_step_of(x: u64) -> (r: Log1pStep)
    ensures
        r == log1p_step(x),
{
    let hx: u32 = (x >> 32) as u32;
    proof {
        lemma_u64_bits(x);
        lemma_u32_bits(hx);
        assert((hx << 1) < (0x3ca0_0000u32 << 1) <==> (hx & 0x7fff_ffff) < 0x3ca0_0000)
            by (bit_vector);
        assert(((x >> 32) as u32 & 0x7ff0_0000) == 0 <==> (x >> 52) & 0x7ff == 0) by (bit_vector);
        assert(x >> 32 == ((x >> 32) as u32) as u64) by (bit_vector);
    }
    if hx < 0x3fda_827a || (hx >> 31) > 0 {
        /* 1+x < sqrt(2)+ */
        if hx >= 0xbff0_0000 {
            /* x <= -1.0 */
            if x == 0xbff0_0000_0000_0000 {
                return Log1pStep::Pole;
            }
            return Log1pStep::Nan;
        }
        if hx << 1 < 0x3ca0_0000u32 << 1 {
            /* |x| < 2**-53 */
            return Log1pStep::Tiny { subnormal: (hx & 0x7ff0_0000) == 0 };
        }
        if hx <= 0xbfd2_bec4 {
            /* sqrt(2)/2- <= 1+x < sqrt(2)+ */
            return Log1pStep::Small;
        }
        return Log1pStep::Reduce;
    }
    if hx >= 0x7ff0_0000 {
        return Log1pStep::Itself;
    }
    Log1pStep::Reduce
}

/// What `log1pf` does with its binary32 argument before evaluating.
#[derive(PartialEq, Eq, Structural, Debug, Clone, Copy)]
pub enum Log1pfStep {
    /// `x = -1`: the result is `+inf`.
    Pole,
    /// `x < -1`, or a NaN with the sign bit set: the result is a NaN.
    Nan,
    /// `|x| < 2^-24`: the result is `x`; `subnormal` when the exponent
    /// field is zero.
    Tiny { subnormal: bool },
    /// `sqrt(2)/2 <= 1 + x < sqrt(2)`: the polynomial on `x` itself.
    Small,
    /// `+inf` or a positive NaN: the result is `x`.
    Itself,
    /// Reduce `1 + x` (computed in floating point) by a power of two.
    Reduce,
}

/// The step `log1pf` takes for the binary32 pattern `x`.
pub open spec fn log1pf_step(x: u32) -> Log1pfStep {
    if x < 0x3ed4_13d0 || x >= 0x8000_0000 {
        if x >= 0xbf80_0000 {
            if x == 0xbf80_0000 { Log1pfStep::Pole } else { Log1pfStep::Nan }
        } else if x as nat % 0x8000_0000 < 0x3380_0000 {
            Log1pfStep::Tiny { subnormal: f32_exp(x) == 0 }
        } else if x <= 0xbe95_f619 {
            Log1pfStep::Small
        } else {
            Log1pfStep::Reduce
        }
    } else if x >= 0x7f80_0000 {
        Log1pfStep::Itself
    } else {
        Log1pfStep::Reduce
    }
}

/// Decide the step `log1pf` takes for `x`, given by its bit pattern.
pub fn log1pf_step_of(x: u32) -> (r: Log1pfStep)
    ensures
        r == log1pf_step(x),
{
    proof {
        lemma_u32_bits(x);
        assert((x << 1) < (0x3380_0000u32 << 1) <==> (x & 0x7fff_ffff) < 0x3380_0000)
            by (bit_vector);
        assert((x & 0x7f80_0000) == 0 <==> (x >> 23) & 0xff == 0) by (bit_vector);
    }
    if x < 0x3ed4_13d0 || (x >> 31) > 0 {
        /* 1+x < sqrt(2)+ */
        if x >= 0xbf80_0000 {
            /* x <= -1.0 */
            if x == 0xbf80_0000 {
                return Log1pfStep::Pole;
            }
            return Log1pfStep::Nan;
        }
        if x << 1 < 0x3380_0000u32 << 1 {
            /* |x| < 2**-24 */
            return Log1pfStep::Tiny { subnormal: (x & 0x7f80_0000) == 0 };
        }
        if x <= 0xbe95_f619 {
            /* sqrt(2)/2- <= 1+x < sqrt(2)+ */
            return Log1pfStep::Small;
        }
        return Log1pfStep::Reduce;
    }
    if x >= 0x7f80_0000 {
        return Log1pfStep::Itself;
    }
    Log1pfStep::Reduce
}

/// The facts about the normalizing shift of a positive finite binary32
/// significand held in 64 bits.
proof fn lemma_logf_normalize(x: u32, m: u64, t: u32)
    requires
        f32_sign(x) == 0,
        f32_exp(x) < 0xff,
        x as nat % 0x8000_0000 != 0,
        m == f32_sig(x),
        t as int == u64_leading_zeros(m),
    ensures
        40 <= t <= 63,
        t as int == 64 - bit_len(m as nat),
        f32_exp(x) != 0 ==> t == 40,
        m * pow2((t - 40) as nat) <= u64::MAX,
        0x80_0000 <= m * pow2((t - 40) as nat) < 0x100_0000,
{
    lemma_u64_leading_zeros(m);
    lemma2_to64();
    lemma_u32_bits(x);
    assert(m > 0);
    lemma_bit_len_bounds(m as nat);
    let k = bit_len(m as nat);
    if f32_exp(x) != 0 {
        lemma_bit_len_unique(m as nat, 24);
    } else {
        lemma_bit_len_le(m as nat, 23);
    }
    let s = (t - 40) as nat;
    lemma_pow2_adds((k - 1) as nat, s);
    lemma_pow2_adds(k, s);
    lemma_pow2_pos(s);
    lemma_mul_inequality(pow2((k - 1) as nat) as int, m as int, pow2(s) as int);
    lemma_mul_strict_inequality(m as int, pow2(k) as int, pow2(s) as int);
}

/// The split of a positive finite binary32 `x` by its normalized
/// significand `mn`.
proof fn lemma_logf_parts(x: u32, m: u64, t: u32, mn: u64, c: u64, f: u64, y: u32, k: int)
    requires
        f32_sign(x) == 0,
        f32_exp(x) < 0xff,
        x as nat % 0x8000_0000 != 0,
        x != 0x3f80_0000,
        m == f32_sig(x),
        40 <= t <= 63,
        t as int == 64 - bit_len(m as nat),
        f32_exp(x) != 0 ==> t == 40,
        mn == m * pow2((t - 40) as nat),
        0x80_0000 <= mn < 0x100_0000,
        f == mn & 0x7f_ffff,
        c == (if f >= 0x35_04f3 { 1u64 } else { 0u64 }),
        y == ((((0x7f - c) as u64) << 23) | f) as u32,
        k == (if f32_exp(x) == 0 { -86 - t } else { f32_exp(x) - 0x7f }) + c,
    ensures
        logf_split_post(x, LogSplitF::Reduce { k: k as i32, y }),
{
    lemma2_to64();
    assert(f == mn % 0x80_0000 && y == (0x7f - c) * 0x80_0000 + f) by (bit_vector)
        requires
            c <= 1,
            mn < 0x100_0000,
            f == mn & 0x7f_ffff,
            y == ((((0x7f - c) as u64) << 23) | f) as u32,
    ;
    lemma_u32_bits(y);
    assert(f32_exp(y) == 0x7f - c);
    assert(f32_frac(y) == f);
    assert(f32_sig(y) == mn);
    let s = (t - 40) as nat;
    if f32_exp(x) != 0 {
        assert(s == 0);
        assert(pow2(s) == 1);
        lemma_mul_basics(m as int);
        assert(mn == m);
    } else {
        assert(f32_exp(y) + k + 23 == 64 - t);
        lemma_pow2_adds(s, (64 - t) as nat);
        lemma_mul_is_associative(m as int, pow2(s) as int, pow2((64 - t) as nat) as int);
    }
}

/// `log1p` returns its argument unchanged exactly when `|x| < 2^-53`, where
/// `x` is within half a unit in the last place of `log1p(x)`; it raises
/// underflow there exactly for the subnormal arguments.
pub proof fn law_log1p_tiny(x: u64)
    ensures
        (log1p_step(x) is Tiny) == (f64_scaled(x) < pow2(1022)),
        log1p_step(x) matches Log1pStep::Tiny { subnormal } ==> subnormal == (f64_exp(x) == 0),
{
    lemma_u64_bits(x);
    lemma_f64_scaled_below(x, 0x3ca);
    let hx = x as nat / 0x1_0000_0000;
    let a = x as nat % 0x8000_0000_0000_0000;
    /* the high word without its sign is the magnitude's high word */
    vstd::arithmetic::div_mod::lemma_fundamental_div_mod(x as int, 0x8000_0000_0000_0000);
    vstd::arithmetic::div_mod::lemma_fundamental_div_mod(a as int, 0x1_0000_0000);
    vstd::arithmetic::div_mod::lemma_fundamental_div_mod(x as int, 0x1_0000_0000);
    vstd::arithmetic::div_mod::lemma_fundamental_div_mod(hx as int, 0x8000_0000);
    vstd::arithmetic::div_mod::lemma_mod_bound(a as int, 0x1_0000_0000);
    vstd::arithmetic::div_mod::lemma_mod_bound(x as int, 0x1_0000_0000);
    assert(hx % 0x8000_0000 == a / 0x1_0000_0000) by {
        let q = x as int / 0x8000_0000_0000_0000;
        let h = a as int / 0x1_0000_0000;
        let l = a as int % 0x1_0000_0000;
        assert(x as int == (q * 0x8000_0000 + h) * 0x1_0000_0000 + l);
        vstd::arithmetic::div_mod::lemma_fundamental_div_mod_converse(x as int, 0x1_0000_0000,
            q * 0x8000_0000 + h, l);
        vstd::arithmetic::div_mod::lemma_fundamental_div_mod_converse(hx as int, 0x8000_0000, q, h);
    }
    /* and the exponent field is the top of the magnitude */
    assert(f64_exp(x) == a / 0x10_0000_0000_0000) by {
        let q = x as int / 0x8000_0000_0000_0000;
        let e = a as int / 0x10_0000_0000_0000;
        let f = a as int % 0x10_0000_0000_0000;
        vstd::arithmetic::div_mod::lemma_fundamental_div_mod(a as int, 0x10_0000_0000_0000);
        vstd::arithmetic::div_mod::lemma_mod_bound(a as int, 0x10_0000_0000_0000);
        vstd::arithmetic::div_mod::lemma_div_pos_is_pos(a as int, 0x10_0000_0000_0000);
        vstd::arithmetic::div_mod::lemma_div_is_ordered(a as int, 0x7fff_ffff_ffff_ffff, 0x10_0000_0000_0000);
        assert(x as int == (q * 0x800 + e) * 0x10_0000_0000_0000 + f);
        vstd::arithmetic::div_mod::lemma_fundamental_div_mod_converse(x as int, 0x10_0000_0000_0000,
            q * 0x800 + e, f);
        vstd::arithmetic::div_mod::lemma_fundamental_div_mod_converse(q * 0x800 + e, 0x800, q, e);
    }
    assert((a / 0x1_0000_0000 < 0x3ca0_0000) == (a / 0x10_0000_0000_0000 < 0x3ca)) by {
        vstd::arithmetic::div_mod::lemma_div_denominator(a as int, 0x1_0000_0000, 0x10_0000);
        vstd::arithmetic::div_mod::lemma_fundamental_div_mod(a as int / 0x1_0000_0000, 0x10_0000);
        vstd::arithmetic::div_mod::lemma_mod_bound(a as int / 0x1_0000_0000, 0x10_0000);
    }
}

/// `log1pf` returns its argument unchanged exactly when `|x| < 2^-24`,
/// where `x` is within half a unit in the last place of `log1p(x)`; it
/// raises underflow there exactly for the subnormal arguments.
pub proof fn law_log1pf_tiny(x: u32)
    ensures
        (log1pf_step(x) is Tiny) == (f32_scaled(x) < pow2(126)),
        log1pf_step(x) matches Log1pfStep::Tiny { subnormal } ==> subnormal == (f32_exp(x) == 0),
{
    lemma_u32_bits(x);
    lemma_f32_split(x);
    lemma_f32_scaled_below(x, 103);
}

/// The special arguments of `log1p`: `x = -1` is the pole, `x < -1` (and
/// `-inf`, and NaNs with the sign bit set) gives a NaN, and `+inf` and the
/// other NaNs come back unchanged.
pub proof fn law_log1p_special(x: u64)
    ensures
        (log1p_step(x) is Pole) == (x == 0xbff0_0000_0000_0000),
        (log1p_step(x) is Nan) == (x >= 0x8000_0000_0000_0000 && x - 0x8000_0000_0000_0000
            > 0x3ff0_0000_0000_0000),
        (log1p_step(x) is Itself) == (x < 0x8000_0000_0000_0000 && x >= 0x7ff0_0000_0000_0000),
{
    lemma_u64_bits(x);
    vstd::arithmetic::div_mod::lemma_fundamental_div_mod(x as int, 0x1_0000_0000);
    vstd::arithmetic::div_mod::lemma_mod_bound(x as int, 0x1_0000_0000);
}

/// The special arguments of `log1pf`: `x = -1` is the pole, `x < -1` (and
/// `-inf`, and NaNs with the sign bit set) gives a NaN, and `+inf` and the
/// other NaNs come back unchanged.
pub proof fn law_log1pf_special(x: u32)
    ensures
        (log1pf_step(x) is Pole) == (x == 0xbf80_0000),
        (log1pf_step(x) is Nan) == (x >= 0x8000_0000 && x - 0x8000_0000 > 0x3f80_0000),
        (log1pf_step(x) is Itself) == (x < 0x8000_0000 && x >= 0x7f80_0000),
{
}

} // verus!
