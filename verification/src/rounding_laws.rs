//! Properties that relate the binary32 rounding functions.
use vstd::prelude::*;
use vstd::arithmetic::power2::*;
use vstd::arithmetic::div_mod::*;
use vstd::arithmetic::mul::*;
use crate::arith::lemma_u32_bits;
use crate::ceilf::{ceilf_post, div_ceil_pow2, lemma_f32_split};
use crate::floorf::floorf_post;
use crate::float_bits::{f32_exp, f32_frac, f32_sig, f32_sign, f32_scale, f32_is_signed_int};

verus! {

/// The sign bit of `x` flipped: the pattern of `-x`.
pub open spec fn f32_neg(x: u32) -> u32 {
    (x as nat + if f32_sign(x) == 0 { 0x8000_0000int } else { -0x8000_0000int }) as u32
}

/// Two binary32 patterns with the same sign that both hold the same
/// integer are the same pattern.
proof fn lemma_int_pattern_unique(r1: u32, x1: u32, r2: u32, x2: u32, n: nat)
    requires
        f32_is_signed_int(r1, x1, n),
        f32_is_signed_int(r2, x2, n),
        f32_sign(x1) == f32_sign(x2),
    ensures
        r1 == r2,
{
    lemma_f32_split(r1);
    lemma_f32_split(r2);
    if n > 0 {
        let s1 = (150 - f32_exp(r1)) as nat;
        let s2 = (150 - f32_exp(r2)) as nat;
        lemma_same_binade_f32(n, s1, s2);
    }
}

/// Two normal significands of the same integer have the same exponent.
proof fn lemma_same_binade_f32(n: nat, s1: nat, s2: nat)
    requires
        0x80_0000 <= n * pow2(s1) < 0x100_0000,
        0x80_0000 <= n * pow2(s2) < 0x100_0000,
    ensures
        s1 == s2,
{
    lemma2_to64();
    if s1 < s2 {
        lemma_pow2_adds(s1, (s2 - s1) as nat);
        lemma_pow2_strictly_increases(0, (s2 - s1) as nat);
        lemma_mul_is_associative(n as int, pow2(s1) as int, pow2((s2 - s1) as nat) as int);
        lemma_mul_inequality(2, pow2((s2 - s1) as nat) as int, (n * pow2(s1)) as int);
    } else if s2 < s1 {
        lemma_pow2_adds(s2, (s1 - s2) as nat);
        lemma_pow2_strictly_increases(0, (s1 - s2) as nat);
        lemma_mul_is_associative(n as int, pow2(s2) as int, pow2((s1 - s2) as nat) as int);
        lemma_mul_inequality(2, pow2((s1 - s2) as nat) as int, (n * pow2(s2)) as int);
    }
}

/// Rounding an integer-valued pattern, up or down, gives its integer back.
proof fn lemma_round_integer(r: u32, x: u32, n: nat)
    requires
        f32_is_signed_int(r, x, n),
        f32_exp(r) < 150,
    ensures
        div_ceil_pow2(f32_sig(r), f32_scale(r) as nat) == n,
        f32_sig(r) / pow2(f32_scale(r) as nat) == n,
{
    lemma_f32_split(r);
    let k = f32_scale(r) as nat;
    lemma_pow2_pos(k);
    let p = pow2(k) as int;
    if n == 0 {
        assert(f32_exp(r) == 0 && f32_frac(r) == 0);
        lemma_fundamental_div_mod_converse(0, p, 0, 0);
        lemma_fundamental_div_mod_converse(p - 1, p, 0, p - 1);
    } else {
        assert(k == 150 - f32_exp(r));
        lemma_fundamental_div_mod_converse((n * pow2(k)) as int, p, n as int, 0);
        lemma_fundamental_div_mod_converse((n * pow2(k)) as int + p - 1, p, n as int, p - 1);
    }
}

/// `ceilf` is idempotent: rounding its result up again changes nothing.
pub proof fn law_ceilf_idempotent(x: u32, r: u32, r2: u32)
    requires
        ceilf_post(x, r),
        ceilf_post(r, r2),
    ensures
        r2 == r,
{
    if f32_exp(x) < 150 && f32_exp(r) < 150 {
        let n = if f32_sign(x) == 0 {
            div_ceil_pow2(f32_sig(x), f32_scale(x) as nat)
        } else {
            f32_sig(x) / pow2(f32_scale(x) as nat)
        };
        lemma_round_integer(r, x, n);
        lemma_int_pattern_unique(r2, r, r, x, n);
    }
}

/// `floorf` is idempotent: rounding its result down again changes nothing.
pub proof fn law_floorf_idempotent(x: u32, r: u32, r2: u32)
    requires
        floorf_post(x, r),
        floorf_post(r, r2),
    ensures
        r2 == r,
{
    lemma_f32_split(x);
    lemma_f32_split(r);
    if f32_exp(x) < 150 {
        let n: nat = if f32_sign(x) == 0 {
            f32_sig(x) / pow2(f32_scale(x) as nat)
        } else {
            div_ceil_pow2(f32_sig(x), f32_scale(x) as nat)
        };
        if f32_exp(r) < 150 {
            lemma_round_integer(r, x, n);
            lemma_int_pattern_unique(r2, r, r, x, n);
        } else {
            /* the result is a nonzero integer pattern at 2^23 in magnitude,
            where floorf changes nothing */
            lemma_pow2_pos(f32_scale(x) as nat);
            assert(f32_exp(r) == 150);
        }
    } else {
        lemma_floor_quiet(x, r);
    }
}

/// Above `2^23` in magnitude `floorf` keeps the exponent field and leaves a
/// quiet NaN as it is.
proof fn lemma_floor_quiet(x: u32, r: u32)
    requires
        f32_exp(x) >= 150,
        floorf_post(x, r),
    ensures
        f32_exp(r) == f32_exp(x),
        f32_exp(r) == 0xff && f32_frac(r) != 0 ==> (r as nat / 0x40_0000) % 2 == 1,
{
    lemma_f32_split(x);
    lemma_f32_split(r);
    if f32_exp(x) == 0xff && f32_frac(x) != 0 && (x as nat / 0x40_0000) % 2 == 0 {
        let q = x as nat / 0x40_0000;
        lemma_fundamental_div_mod(x as int, 0x40_0000);
        lemma_fundamental_div_mod_converse(r as int, 0x40_0000, (q + 1) as int, (x as nat % 0x40_0000) as int);
        assert(f32_frac(x) < 0x40_0000) by {
            lemma_fundamental_div_mod_converse(x as int, 0x80_0000,
                (f32_sign(x) * 0x100 + f32_exp(x)) as int, f32_frac(x) as int);
            lemma_fundamental_div_mod_converse(q as int, 2,
                (f32_sign(x) * 0x100 + f32_exp(x)) as int, 0);
        }
        lemma_fundamental_div_mod_converse(r as int, 0x80_0000,
            (f32_sign(x) * 0x100 + f32_exp(x)) as int, (f32_frac(x) + 0x40_0000) as int);
        lemma_fundamental_div_mod_converse(r as int, 0x8000_0000, f32_sign(x) as int,
            (f32_exp(x) * 0x80_0000 + f32_frac(x) + 0x40_0000) as int);
    }
}

/// Rounding up is rounding the negation down, negated:
/// `ceilf(x) == -floorf(-x)` for every `x` that is not a NaN.
pub proof fn law_ceilf_is_negated_floorf(x: u32, r1: u32, r2: u32)
    requires
        !(f32_exp(x) == 0xff && f32_frac(x) != 0),
        ceilf_post(x, r1),
        floorf_post(f32_neg(x), r2),
    ensures
        r1 == f32_neg(r2),
{
    lemma_f32_split(x);
    let y = f32_neg(x);
    lemma_f32_split(y);
    assert(f32_exp(y) == f32_exp(x) && f32_frac(y) == f32_frac(x) && f32_sign(y) == 1 - f32_sign(x))
        by {
        lemma_fundamental_div_mod_converse(y as int, 0x8000_0000, 1 - f32_sign(x),
            (x as nat % 0x8000_0000) as int);
        lemma_fundamental_div_mod_converse(y as int % 0x8000_0000, 0x80_0000,
            f32_exp(x) as int, f32_frac(x) as int);
        lemma_u32_bits(y);
    }
    let ny = f32_neg(r2);
    lemma_f32_split(r2);
    lemma_f32_split(ny);
    assert(f32_exp(ny) == f32_exp(r2) && f32_frac(ny) == f32_frac(r2) && f32_sign(ny) == 1
        - f32_sign(r2)) by {
        lemma_fundamental_div_mod_converse(ny as int, 0x8000_0000, 1 - f32_sign(r2),
            (r2 as nat % 0x8000_0000) as int);
        lemma_u32_bits(ny);
    }
    if f32_exp(x) < 150 {
        let n = if f32_sign(x) == 0 {
            div_ceil_pow2(f32_sig(x), f32_scale(x) as nat)
        } else {
            f32_sig(x) / pow2(f32_scale(x) as nat)
        };
        assert(f32_is_signed_int(ny, x, n));
        lemma_int_pattern_unique(r1, x, ny, x, n);
    }
}

} // verus!
