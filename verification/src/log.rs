//! The accurate path of the correctly rounded natural logarithm, in
//! `DInt64` arithmetic.
use vstd::prelude::*;
use vstd::arithmetic::mul::*;
use vstd::arithmetic::div_mod::*;
use vstd::arithmetic::power2::*;
use vstd::bits::{lemma_u128_shr_is_div, lemma_u64_shl_is_mul, lemma_u64_shr_is_div};
use vstd::std_specs::bits::u64_leading_zeros;
use crate::float_bits::{f64_exp, f64_frac, f64_mant, f64_is_nan, f64_is_zero, f64_sign, f64_lt_zero};
use crate::log_tables::{INVERSE_2, LOG_INV_2, M_ONE, LOG2};
use crate::dint::{DInt64, add_spec, mul_spec, mul2_spec, entry, pow2_spec, pow2_ok, mul_ok, add_ok, mul2_ok, fromd_spec, tod_spec, tod_ok};
use crate::arith::{lemma_u128_bits, lemma_u128_join, lemma_u64_bits, lemma_u16_bits, lemma_u128_shl_mod, bit_len, lemma_bit_len_le, lemma_pow2_128, lemma_bit_len_bounds, lemma_bit_len_unique, lemma_u64_leading_zeros, lemma_u128_shl_is_mul};

verus! {

/// Above this leading word the argument is halved before the table lookup
/// (the leading bits of `sqrt(2)`).
pub open spec fn sqrt2_hi() -> u64 {
    0xb504f333f9de6484
}

/// The table index used by `log_2` for `x`: the top 9 bits of its
/// significand, halved above `sqrt(2)`, minus 128.
pub open spec fn log_2_index(x: DInt64) -> int {
    let i = x.hi as int / 0x80_0000_0000_0000;
    (if x.hi > sqrt2_hi() { i / 2 } else { i }) - 128
}

/// The power of two that `log_2` factors out of `x`.
pub open spec fn log_2_exp(x: DInt64) -> int {
    if x.hi > sqrt2_hi() { x.ex + 1 } else { x.ex as int }
}

/// `x` with the factored power of two removed: in `[1/sqrt(2), sqrt(2)]`.
pub open spec fn log_2_reduced(x: DInt64) -> DInt64 {
    DInt64 { ex: (x.ex - log_2_exp(x)) as i64, ..x }
}

/// `x * r - 1` for the tabulated inverse `r` of the reduced argument.
pub open spec fn log_2_z(x: DInt64) -> DInt64 {
    add_spec(entry(M_ONE), mul_spec(log_2_reduced(x), entry(INVERSE_2[log_2_index(x)])))
}

/// The value computed by `log_2`: `-log(r) + z * P(z) + e * log(2)` with
/// `z = x * r / 2^e - 1`.
pub open spec fn log_2_spec(x: DInt64) -> DInt64 {
    let z = log_2_z(x);
    let p = add_spec(entry(LOG_INV_2[log_2_index(x)]), pow2_spec(z));
    add_spec(p, mul2_spec(entry(LOG2), log_2_exp(x) as i64))
}

/// `log_2` runs without overflow or out-of-range lookup on `x`.
pub open spec fn log_2_ok(x: DInt64) -> bool {
    let idx = log_2_index(x);
    let z = log_2_z(x);
    let p = add_spec(entry(LOG_INV_2[idx]), pow2_spec(z));
    let e = log_2_exp(x);
    &&& x.hi >= 0x4000_0000_0000_0000
    &&& e <= i64::MAX
    &&& mul_ok(log_2_reduced(x), entry(INVERSE_2[idx]))
    &&& add_ok(entry(M_ONE), mul_spec(log_2_reduced(x), entry(INVERSE_2[idx])))
    &&& mul2_ok(entry(LOG2), e as i64)
    &&& pow2_ok(z)
    &&& add_ok(entry(LOG_INV_2[idx]), pow2_spec(z))
    &&& add_ok(p, mul2_spec(entry(LOG2), e as i64))
}

/// The bit pattern of `+1.0`.
pub open spec fn one_bits() -> u64 {
    0x3ff0_0000_0000_0000
}

/// `cr_log_accurate` runs without overflow or out-of-range lookup on `x`.
pub open spec fn cr_log_accurate_ok(x: u64) -> bool {
    &&& !f64_is_zero(x)
    &&& x != one_bits() ==> log_2_ok(fromd_spec(x)) && tod_ok(log_2_spec(fromd_spec(x)))
}

/// The bit pattern that `cr_log_accurate` returns.
pub open spec fn cr_log_accurate_spec(x: u64) -> u64 {
    if x == one_bits() { 0 } else { tod_spec(log_2_spec(fromd_spec(x))) }
}

/// Extracts the unbiased exponent and the integer significand of a binary64
/// value given by its bit pattern.
pub fn fast_extract(xi: u64) -> (r: (i64, u64))
    ensures
        r.0 == f64_exp(xi) - 0x3ff,
        r.1 == f64_mant(xi),
{
    let e = (xi >> 52) & 0x7ff;
    let f = xi & (u64::MAX >> 12);
    proof {
        lemma_u64_bits(xi);
    }
    let m = f + (if e != 0 { 1u64 << 52 } else { 0 });
    let e = e as i64 - 0x3ff;
    (e, m)
}

/// Whether a binary64 value, given by its bit pattern, compares below zero.
pub fn lt_zero(x: u64) -> (r: bool)
    ensures
        r == f64_lt_zero(x),
{
    let e = (x >> 52) & 0x7ff;
    let f = x & (u64::MAX >> 12);
    let mag = x & (u64::MAX >> 1);
    let s = x >> 63;
    proof {
        lemma_u64_bits(x);
    }
    s == 1 && !(e == 0x7ff && f != 0) && mag != 0
}

/// What the logarithm does with an argument before its fast path.
#[derive(PartialEq, Eq, Structural, Debug, Clone, Copy)]
pub enum LogStep {
    /// A negative argument: the result is a NaN.
    Nan,
    /// A zero: the result is `-inf`, with the division by zero signalled.
    NegInf,
    /// `+inf` or a NaN: the result is `x + x`.
    Sum,
    /// The argument is `1`: the result is `+0`.
    Zero,
    /// `x = 2^e * y` for the binary64 `y` (a bit pattern) in
    /// `[sqrt(2)/2, sqrt(2))`, whose table interval is `index`.
    Reduce { e: i32, y: u64, index: usize },
}

/// Above this significand the reduced argument is halved (the leading
/// bits of `sqrt(2)`).
pub open spec fn sqrt2_mant() -> nat {
    0x16a09e667f3bcd
}

/// `y` and `e` split the positive finite `x`: `x = 2^e * y` exactly, with
/// `y` positive and the exponent field of `[1, 2)`, or of `[1/2, 1)` when
/// `c` is one.
pub open spec fn split_value(x: u64, e: int, y: u64, c: nat) -> bool {
    let ex: nat = if f64_exp(x) == 0 { 1 } else { f64_exp(x) };
    &&& f64_sign(y) == 0
    &&& f64_exp(y) == 0x3ff - c
    &&& f64_exp(y) + e + 52 >= 0
    &&& f64_mant(x) * pow2(ex + 52) == f64_mant(y) * pow2((f64_exp(y) + e + 52) as nat)
}

/// `y` and `e` reduce the positive finite `x`: `x = 2^e * y` exactly, `y`
/// in `[1, 2)`, or in `[1/2, 1)` when its significand is at least that of
/// `sqrt(2)`, and `index` is the interval of `y` among the 363 of the
/// tables (`2^-9` wide over `[1, 2)`, `2^-8` wide below).
pub open spec fn log_reduced(x: u64, e: int, y: u64, index: int) -> bool {
    let c: nat = if f64_mant(y) >= sqrt2_mant() { 1 } else { 0 };
    &&& split_value(x, e, y, c)
    &&& index == f64_mant(y) / pow2(43 + c) - 362
    &&& 0 <= index < 363
}

/// What the logarithm's first step makes of `x`, given by its bit pattern:
/// the special arguments, or the reduction of a positive finite one.
pub open spec fn log_step_post(x: u64, r: LogStep) -> bool {
    match r {
        LogStep::Nan => f64_lt_zero(x),
        LogStep::NegInf => f64_is_zero(x),
        LogStep::Sum => f64_is_nan(x) || x == 0x7ff0_0000_0000_0000,
        LogStep::Zero => x == one_bits(),
        LogStep::Reduce { e, y, index } => {
            &&& f64_sign(x) == 0
            &&& f64_exp(x) < 0x7ff
            &&& !f64_is_zero(x)
            &&& x != one_bits()
            &&& log_reduced(x, e as int, y, index as int)
        },
    }
}

/// The first step of the natural logarithm of `x`, given by its bit
/// pattern: settles the special arguments (negative, zero, infinite, NaN,
/// one), and otherwise writes `x = 2^e * y` with `y` about `1` and finds
/// the table interval of `y`.
pub fn log_step(x: u64) -> (r: LogStep)
    ensures
        log_step_post(x, r),
{
    let ef: u64 = (x >> 52) & 0x7ff;
    proof {
        lemma_u64_bits(x);
    }
    if lt_zero(x) {
        /* f(x<0) is NaN */
        return LogStep::Nan;
    }
    if x & 0x7fff_ffff_ffff_ffff == 0 {
        /* f(+/-0) is -Inf and raises DivByZero */
        return LogStep::NegInf;
    }
    if ef == 0x7ff {
        /* +Inf or NaN */
        return LogStep::Sum;
    }
    if x == 0x3ff0_0000_0000_0000 {
        return LogStep::Zero;
    }
    let (ex, m) = fast_extract(x);
    let t: u32 = m.leading_zeros();
    proof {
        lemma_log_normalize(x, m, t);
    }
    let sh: u32 = t - 11;
    proof {
        lemma_u64_shl_is_mul(m, sh as u64);
    }
    let mn: u64 = m << sh;
    /* now x = mn * 2^(e - 52) with 2^52 <= mn < 2^53 */
    let mut e: i32 = if ef == 0 { -1011 - t as i32 } else { ex as i32 };
    /* if the significand is above that of sqrt(2), halve the reduced
    argument to avoid cancellation */
    let c: u64 = if mn >= 0x16a09e667f3bcd { 1 } else { 0 };
    e += c as i32;
    let i: u64 = mn >> (43 + c);
    let y: u64 = ((0x3ff - c) << 52) | (mn & 0xf_ffff_ffff_ffff);
    proof {
        lemma_log_reduce_parts(x, m, t, mn, c, i, y, e as int);
    }
    LogStep::Reduce { e, y, index: (i - 362) as usize }
}

/// The facts about the normalizing shift of a positive finite significand.
pub(crate) proof fn lemma_log_normalize(x: u64, m: u64, t: u32)
    requires
        f64_sign(x) == 0,
        f64_exp(x) < 0x7ff,
        !f64_is_zero(x),
        m == f64_mant(x),
        t as int == u64_leading_zeros(m),
    ensures
        11 <= t <= 63,
        t as int == 64 - bit_len(m as nat),
        f64_exp(x) != 0 ==> t == 11,
        m * pow2((t - 11) as nat) <= u64::MAX,
        0x10_0000_0000_0000 <= m * pow2((t - 11) as nat) < 0x20_0000_0000_0000,
{
    lemma_u64_leading_zeros(m);
    lemma_pow2_128();
    lemma2_to64();
    lemma2_to64_rest();
    lemma_u64_bits(x);
    assert(m > 0);
    lemma_bit_len_bounds(m as nat);
    let k = bit_len(m as nat);
    if f64_exp(x) != 0 {
        lemma_bit_len_unique(m as nat, 53);
    } else {
        lemma_bit_len_le(m as nat, 52);
    }
    let s = (t - 11) as nat;
    lemma_pow2_adds((k - 1) as nat, s);
    lemma_pow2_adds(k, s);
    lemma_pow2_pos(s);
    lemma_mul_inequality(pow2((k - 1) as nat) as int, m as int, pow2(s) as int);
    lemma_mul_strict_inequality(m as int, pow2(k) as int, pow2(s) as int);
}

/// The split of a positive finite `x` by its normalized significand `mn`:
/// `y` takes the fraction of `mn` and the exponent field of `[1, 2)` less
/// `c`, and `e` the exponent of `x` plus `c`.
pub(crate) proof fn lemma_split_value(x: u64, m: u64, t: u32, mn: u64, c: u64, y: u64, e: int)
    requires
        f64_sign(x) == 0,
        f64_exp(x) < 0x7ff,
        !f64_is_zero(x),
        m == f64_mant(x),
        11 <= t <= 63,
        f64_exp(x) != 0 ==> t == 11,
        f64_exp(x) == 0 ==> t as int == 64 - bit_len(m as nat),
        mn == m * pow2((t - 11) as nat),
        0x10_0000_0000_0000 <= mn < 0x20_0000_0000_0000,
        c <= 1,
        y == (((0x3ff - c) as u64) << 52) | (mn & 0xf_ffff_ffff_ffff),
        e == (if f64_exp(x) == 0 { -1011 - t } else { f64_exp(x) - 1023 }) + c,
    ensures
        f64_mant(y) == mn,
        split_value(x, e, y, c as nat),
{
    lemma2_to64();
    lemma2_to64_rest();
    assert(y == (0x3ff - c) * 0x10_0000_0000_0000 + mn % 0x10_0000_0000_0000) by (bit_vector)
        requires
            c <= 1,
            y == (((0x3ff - c) as u64) << 52) | (mn & 0xf_ffff_ffff_ffff),
    ;
    assert(f64_exp(y) == 0x3ff - c);
    assert(f64_sign(y) == 0);
    assert(f64_mant(y) == mn);
    let s = (t - 11) as nat;
    if f64_exp(x) != 0 {
        assert(s == 0);
        assert(pow2(s) == 1);
        lemma_mul_basics(m as int);
        assert(mn == m);
    } else {
        lemma_u64_leading_zeros(m);
        assert(f64_exp(y) + e + 52 == 64 - t);
        lemma_pow2_adds(s, (64 - t) as nat);
        lemma_mul_is_associative(m as int, pow2(s) as int, pow2((64 - t) as nat) as int);
    }
}

/// The reduced argument, its exponent and its table interval.
proof fn lemma_log_reduce_parts(x: u64, m: u64, t: u32, mn: u64, c: u64, i: u64, y: u64, e: int)
    requires
        f64_sign(x) == 0,
        f64_exp(x) < 0x7ff,
        !f64_is_zero(x),
        m == f64_mant(x),
        11 <= t <= 63,
        f64_exp(x) != 0 ==> t == 11,
        f64_exp(x) == 0 ==> t as int == 64 - bit_len(m as nat),
        mn == m * pow2((t - 11) as nat),
        0x10_0000_0000_0000 <= mn < 0x20_0000_0000_0000,
        c == (if mn >= 0x16a09e667f3bcd { 1u64 } else { 0u64 }),
        i == mn >> ((43 + c) as u64),
        y == (((0x3ff - c) as u64) << 52) | (mn & 0xf_ffff_ffff_ffff),
        e == (if f64_exp(x) == 0 { -1011 - t } else { f64_exp(x) - 1023 }) + c,
    ensures
        362 <= i < 725,
        log_reduced(x, e, y, i - 362),
{
    lemma_split_value(x, m, t, mn, c, y, e);
    lemma2_to64();
    lemma_u64_shr_is_div(mn, (43 + c) as u64);
    assert(pow2(43) == 0x800_0000_0000) by {
        lemma2_to64_rest();
    }
    assert(pow2(44) == 0x1000_0000_0000) by {
        lemma2_to64_rest();
    }
}

/// Computes `log(x)` in `DInt64` arithmetic: the argument is reduced to
/// about `[1/sqrt(2), sqrt(2)]`, multiplied by a tabulated inverse, and the
/// logarithm of the remainder near 1 is evaluated by a polynomial.
pub fn log_2(x: &DInt64) -> (r: DInt64)
    requires
        log_2_ok(*x),
    ensures
        r == log_2_spec(*x),
{
    let mut x = x.clone();
    let ghost x0 = x;
    let mut e = x.ex;
    let mut i: u16 = (x.hi >> 55) as u16;
    proof {
        lemma_u64_bits(x.hi);
        lemma_u16_bits((x.hi >> 55) as u16);
    }
    if x.hi > 0xb504f333f9de6484 {
        e += 1;
        i = i >> 1;
    }
    x.ex = x.ex - e;
    assert(x == log_2_reduced(x0));
    assert(i as int - 128 == log_2_index(x0));
    let inv2 = DInt64::from_entry(INVERSE_2[(i - 128) as usize]);
    let mut z = x.mul(&inv2);
    z = DInt64::from_entry(M_ONE).add(&z);
    let r = DInt64::from_entry(LOG2).mul2(e);
    let mut p = z.pow2();
    p = DInt64::from_entry(LOG_INV_2[(i - 128) as usize]).add(&p);
    p.add(&r)
}

/// Computes `log(x)` in `DInt64` arithmetic like `log_2`; `None` where the
/// table index is out of range or a step overflows.
pub fn log_2_checked(x: &DInt64) -> (r: Option<DInt64>)
    ensures
        r == (if log_2_ok(*x) { Some(log_2_spec(*x)) } else { None }),
{
    let mut x = x.clone();
    let ghost x0 = x;
    let mut e = x.ex;
    let mut i: u16 = (x.hi >> 55) as u16;
    proof {
        lemma_u64_bits(x.hi);
        lemma_u16_bits((x.hi >> 55) as u16);
    }
    if x.hi > 0xb504f333f9de6484 {
        e = match e.checked_add(1) {
            Some(v) => v,
            None => {
                return None;
            },
        };
        i = i >> 1;
    }
    if i < 128 {
        /* the table index would be negative */
        return None;
    }
    x.ex = x.ex - e;
    assert(x == log_2_reduced(x0));
    assert(i as int - 128 == log_2_index(x0));
    let inv2 = DInt64::from_entry(INVERSE_2[(i - 128) as usize]);
    let z = match x.mul_checked(&inv2) {
        Some(v) => v,
        None => {
            return None;
        },
    };
    let z = match DInt64::from_entry(M_ONE).add_checked(&z) {
        Some(v) => v,
        None => {
            return None;
        },
    };
    let r = match DInt64::from_entry(LOG2).mul2_checked(e) {
        Some(v) => v,
        None => {
            return None;
        },
    };
    let p = match z.pow2_checked() {
        Some(v) => v,
        None => {
            return None;
        },
    };
    let p = match DInt64::from_entry(LOG_INV_2[(i - 128) as usize]).add_checked(&p) {
        Some(v) => v,
        None => {
            return None;
        },
    };
    p.add_checked(&r)
}

/// The correctly rounded natural logarithm of a positive binary64 value,
/// given by its bit pattern, on the accurate path: exact conversion,
/// `log_2`, and one final rounding.
pub fn cr_log_accurate(x: u64) -> (r: u64)
    requires
        cr_log_accurate_ok(x),
    ensures
        r == cr_log_accurate_spec(x),
{
    if x == 0x3ff0_0000_0000_0000 {
        return 0;
    }
    let dx = DInt64::fromd(x);
    /* x = (-1)^sgn*2^ex*(hi/2^63+lo/2^127) */
    let dy = log_2(&dx);
    dy.tod()
}

/// The accurate path of the logarithm like `cr_log_accurate`; `None` where
/// the computation overflows or its result leaves the binary64 normal range.
pub fn cr_log_accurate_checked(x: u64) -> (r: Option<u64>)
    ensures
        r == (if cr_log_accurate_ok(x) { Some(cr_log_accurate_spec(x)) } else { None }),
{
    if x == 0x3ff0_0000_0000_0000 {
        return Some(0);
    }
    if x & 0x7fff_ffff_ffff_ffff == 0 {
        /* a zero has no leading one bit to shift into place */
        proof {
            lemma_u64_bits(x);
        }
        return None;
    }
    proof {
        lemma_u64_bits(x);
    }
    let dx = DInt64::fromd(x);
    let dy = match log_2_checked(&dx) {
        Some(v) => v,
        None => {
            return None;
        },
    };
    if dy.sign > 1 || dy.ex < -1022 || dy.ex > 1023 {
        return None;
    }
    Some(dy.tod())
}

} // verus!
