//! Rounding of binary16 values to integers, ties to even.
use vstd::prelude::*;
use vstd::arithmetic::power2::*;
use vstd::arithmetic::div_mod::*;
use vstd::arithmetic::mul::*;
use crate::arith::lemma_u16_bits;
use crate::float_bits::{f16_exp, f16_sig, f16_sign, f16_scale};

verus! {

/// `n / 2^k` rounded to the nearest integer, ties to the even one.
pub open spec fn round_half_even(n: nat, k: nat) -> nat {
    let q = n / pow2(k);
    let r = n % pow2(k);
    if 2 * r > pow2(k) || (2 * r == pow2(k) && q % 2 == 1) {
        q + 1
    } else {
        q
    }
}

/// The binary16 pattern `r` has the sign of `x` and the integer value `n`
/// (a zero of that sign when `n` is zero).
pub open spec fn f16_is_signed_int(r: u16, x: u16, n: nat) -> bool {
    &&& f16_sign(r) == f16_sign(x)
    &&& n == 0 ==> r as nat % 0x8000 == 0
    &&& n > 0 ==> {
        &&& 15 <= f16_exp(r) <= 25
        &&& f16_sig(r) == n * pow2((25 - f16_exp(r)) as nat)
    }
}

/// What `rintf16` promises of its result `r` for the argument `x`.
pub open spec fn rintf16_post(x: u16, r: u16) -> bool {
    &&& f16_exp(x) >= 25 ==> r == x
    &&& f16_exp(x) < 25 ==> f16_is_signed_int(r, x, round_half_even(f16_sig(x), f16_scale(x) as nat))
}

/// Round `x` to the nearest integer, breaking ties toward even. The value is
/// given and returned as its binary16 bit pattern; NaNs, infinities and
/// values of 1024 or more in magnitude come back unchanged.
pub fn rintf16(x: u16) -> (r: u16)
    ensures
        rintf16_post(x, r),
{
    let e = (x >> 10) & 0x1f;
    proof {
        lemma_u16_bits(x);
    }
    if e >= 25 {
        /* no fractional part */
        return x;
    }
    let sign: u16 = x & 0x8000;
    let e1: u32 = if e == 0 { 1 } else { e as u32 };
    let frac: u32 = (x & 0x3ff) as u32;
    proof {
        lemma_u16_bits(x);
    }
    let sig: u32 = frac + if e != 0 { 0x400 } else { 0 };
    let sh: u32 = 25 - e1;
    let pk: u32 = 1u32 << sh;
    proof {
        lemma_pow2_values(sh);
    }
    let q: u32 = sig / pk;
    let rem: u32 = sig % pk;
    let n: u32 = if 2 * rem > pk || (2 * rem == pk && q % 2 == 1) { q + 1 } else { q };
    assert(n == round_half_even(sig as nat, sh as nat));
    proof {
        lemma_round_half_even_bound(sig as nat, sh as nat);
    }
    if n == 0 {
        return sign;
    }
    /* normalize the integer into a significand of 11 bits */
    let mut m: u32 = n;
    let mut ee: u32 = 25;
    assert(n * pow2(0) == n) by {
        lemma2_to64();
        lemma_mul_basics(n as int);
    }
    while m < 0x400
        invariant
            0 < n <= 0x400,
            15 <= ee <= 25,
            m == n * pow2((25 - ee) as nat),
            m < 0x800,
        decreases ee,
    {
        proof {
            lemma_pow2_unfold((25 - ee + 1) as nat);
            lemma_mul_is_associative(n as int, pow2((25 - ee) as nat) as int, 2);
            if ee == 15 {
                lemma_pow2_values(10);
                lemma_mul_inequality(1, n as int, pow2(10) as int);
            }
        }
        m = m * 2;
        ee = ee - 1;
    }
    let r: u16 = sign | ((ee as u16) << 10) | ((m - 0x400) as u16);
    proof {
        let ee16 = ee as u16;
        let mm = (m - 0x400) as u16;
        let s0 = x / 0x8000;
        assert(r / 0x8000 == s0 && (r / 0x400) % 0x20 == ee16 && r % 0x400 == mm) by (bit_vector)
            requires
                r == sign | (ee16 << 10) | mm,
                sign == s0 * 0x8000,
                s0 <= 1,
                ee16 < 32,
                mm < 0x400,
        ;
    }
    r
}

/// Rounding is idempotent: rounding the result of `rintf16` again gives it
/// back unchanged.
pub proof fn law_rintf16_idempotent(x: u16, r: u16, r2: u16)
    requires
        rintf16_post(x, r),
        rintf16_post(r, r2),
    ensures
        r2 == r,
{
    lemma2_to64();
    lemma_u16_bits(r);
    lemma_u16_bits(r2);
    if f16_exp(x) < 25 && f16_exp(r) < 25 {
        let n = round_half_even(f16_sig(x), f16_scale(x) as nat);
        if n == 0 {
            assert(f16_sig(r) == 0);
            lemma_round_half_even_zero(f16_scale(r) as nat);
        } else {
            let e1 = f16_exp(r);
            let s1 = (25 - e1) as nat;
            lemma_round_half_even_exact(n, s1);
            assert(f16_scale(r) == s1);
            let e2 = f16_exp(r2);
            let s2 = (25 - e2) as nat;
            assert(f16_sig(r2) == n * pow2(s2));
            lemma_same_binade(n, s1, s2);
        }
    }
}

/// `x` is a NaN, an infinity, or an integer: `rintf16` gives it back
/// unchanged, bit for bit (a negative zero stays negative).
pub proof fn law_rintf16_fixed_points(x: u16, r: u16)
    requires
        rintf16_post(x, r),
        f16_exp(x) >= 25 || f16_sig(x) % pow2(f16_scale(x) as nat) == 0,
    ensures
        r == x,
{
    lemma2_to64();
    lemma_u16_bits(x);
    lemma_u16_bits(r);
    if f16_exp(x) < 25 {
        let k = f16_scale(x) as nat;
        lemma_pow2_pos(k);
        let sig = f16_sig(x);
        let n = sig / pow2(k);
        lemma_fundamental_div_mod(sig as int, pow2(k) as int);
        lemma_fundamental_div_mod_converse((n * pow2(k)) as int, pow2(k) as int, n as int, 0);
        assert(sig == n * pow2(k));
        assert(round_half_even(sig, k) == n);
        if n == 0 {
            assert(sig == 0);
        } else {
            /* x is normal: a subnormal is below one */
            if f16_exp(x) == 0 {
                lemma_pow2_strictly_increases(11, 24);
                lemma_mul_inequality(1, n as int, pow2(k) as int);
            }
            assert(f16_exp(x) >= 1);
            assert(k == 25 - f16_exp(x));
            lemma_mul_inequality(1, n as int, pow2(k) as int);
            if k > 10 {
                lemma_pow2_strictly_increases(10, k);
                assert(pow2(11) == 2 * pow2(10));
                lemma_pow2_strictly_increases(11, k);
            }
            assert(f16_exp(x) >= 15);
            let s1 = (25 - f16_exp(r)) as nat;
            lemma_same_binade(n, s1, k);
        }
    }
}

/// The value of a binary16 pattern that is not a NaN, times `2^24` (so an
/// integer); the infinities count as `±2^40`, beyond every finite value.
pub open spec fn f16_val(x: u16) -> int {
    let m: int = if f16_exp(x) == 31 {
        pow2(40) as int
    } else {
        (f16_sig(x) * pow2((24 - f16_scale(x)) as nat)) as int
    };
    if f16_sign(x) == 1 { -m } else { m }
}

/// The pattern is a NaN.
pub open spec fn f16_is_nan(x: u16) -> bool {
    f16_exp(x) == 31 && x as nat % 0x400 != 0
}

/// `v / 2^24` rounded to the nearest integer, ties to even, times `2^24`.
pub open spec fn rint_val(v: int) -> int {
    if v < 0 {
        -(round_half_even((-v) as nat, 24) * pow2(24)) as int
    } else {
        (round_half_even(v as nat, 24) * pow2(24)) as int
    }
}

/// Rounding is monotone: `x <= y` gives `rintf16(x) <= rintf16(y)`, for
/// values that are not NaNs.
pub proof fn law_rintf16_monotone(x: u16, y: u16, rx: u16, ry: u16)
    requires
        !f16_is_nan(x),
        !f16_is_nan(y),
        rintf16_post(x, rx),
        rintf16_post(y, ry),
        f16_val(x) <= f16_val(y),
    ensures
        f16_val(rx) <= f16_val(ry),
{
    lemma_rint_val(x, rx);
    lemma_rint_val(y, ry);
    let v = f16_val(x);
    let w = f16_val(y);
    lemma_pow2_pos(24);
    if 0 <= v {
        lemma_round_half_even_monotone(v as nat, w as nat, 24);
        lemma_mul_inequality(round_half_even(v as nat, 24) as int,
            round_half_even(w as nat, 24) as int, pow2(24) as int);
    } else if w < 0 {
        lemma_round_half_even_monotone((-w) as nat, (-v) as nat, 24);
        lemma_mul_inequality(round_half_even((-w) as nat, 24) as int,
            round_half_even((-v) as nat, 24) as int, pow2(24) as int);
    } else {
        lemma_mul_nonnegative(round_half_even((-v) as nat, 24) as int, pow2(24) as int);
        lemma_mul_nonnegative(round_half_even(w as nat, 24) as int, pow2(24) as int);
    }
}

/// The value of `rintf16(x)` is that of `x` rounded.
proof fn lemma_rint_val(x: u16, r: u16)
    requires
        !f16_is_nan(x),
        rintf16_post(x, r),
    ensures
        f16_val(r) == rint_val(f16_val(x)),
{
    lemma2_to64();
    lemma_u16_bits(x);
    lemma_u16_bits(r);
    lemma_pow2_pos(24);
    if f16_exp(x) >= 25 {
        /* a multiple of 2^24: rounding changes nothing */
        let m: nat = if f16_exp(x) == 31 {
            pow2(16)
        } else {
            f16_sig(x) * pow2((f16_exp(x) - 25) as nat)
        };
        if f16_exp(x) == 31 {
            lemma_pow2_adds(16, 24);
        } else {
            lemma_pow2_adds((f16_exp(x) - 25) as nat, 24);
            lemma_mul_is_associative(f16_sig(x) as int, pow2((f16_exp(x) - 25) as nat) as int,
                pow2(24) as int);
        }
        assert(m * pow2(24) == if f16_sign(x) == 1 { -f16_val(x) } else { f16_val(x) });
        lemma_round_half_even_exact(m, 24);
        assert(r == x);
        assert(f16_val(r) == rint_val(f16_val(x)));
    } else {
        let k = f16_scale(x) as nat;
        let j = (24 - k) as nat;
        let sig = f16_sig(x);
        lemma_round_half_even_scale(sig, k, j);
        lemma_mul_is_commutative(sig as int, pow2(j) as int);
        let n = round_half_even(sig, k);
        assert(f16_sig(x) * pow2((24 - f16_scale(x)) as nat) == sig * pow2(j));
        assert(round_half_even(sig * pow2(j), 24) == n);
        if n == 0 {
            assert(f16_exp(r) == 0 && r as nat % 0x400 == 0);
            lemma_mul_basics(pow2(24) as int);
            assert(f16_sig(r) == 0);
            lemma_mul_basics(pow2((24 - f16_scale(r)) as nat) as int);
            assert(f16_val(r) == 0);
            assert(f16_val(r) == rint_val(f16_val(x)));
        } else {
            let er = f16_exp(r);
            lemma_pow2_adds((25 - er) as nat, (er - 1) as nat);
            lemma_mul_is_associative(n as int, pow2((25 - er) as nat) as int,
                pow2((er - 1) as nat) as int);
            assert(f16_sig(r) * pow2((24 - f16_scale(r)) as nat) == n * pow2(24));
            assert(f16_val(r) == rint_val(f16_val(x)));
        }
    }
}

/// Rounding `n * 2^j` at the scale `2^(k + j)` is rounding `n` at `2^k`.
proof fn lemma_round_half_even_scale(n: nat, k: nat, j: nat)
    ensures
        round_half_even(n * pow2(j), k + j) == round_half_even(n, k),
{
    let p = pow2(k) as int;
    let t = pow2(j) as int;
    lemma_pow2_pos(k);
    lemma_pow2_pos(j);
    lemma_pow2_adds(k, j);
    let q = n as int / p;
    let r = n as int % p;
    lemma_fundamental_div_mod(n as int, p);
    lemma_mod_bound(n as int, p);
    assert(n * pow2(j) == q * (p * t) + r * t) by {
        lemma_mul_is_distributive_add_other_way(t, q * p, r);
        lemma_mul_is_associative(q, p, t);
        lemma_mul_is_commutative(p, q);
    }
    lemma_mul_strict_inequality(r, p, t);
    lemma_mul_nonnegative(r, t);
    lemma_fundamental_div_mod_converse((n * pow2(j)) as int, p * t, q, r * t);
    lemma_mul_is_associative(2, r, t);
    if 2 * r > p {
        lemma_mul_strict_inequality(p, 2 * r, t);
    } else if 2 * r < p {
        lemma_mul_strict_inequality(2 * r, p, t);
    }
}

/// Rounding is monotone in the numerator.
proof fn lemma_round_half_even_monotone(a: nat, b: nat, k: nat)
    requires
        a <= b,
    ensures
        round_half_even(a, k) <= round_half_even(b, k),
{
    lemma_pow2_pos(k);
    let p = pow2(k) as int;
    lemma_div_is_ordered(a as int, b as int, p);
    lemma_fundamental_div_mod(a as int, p);
    lemma_fundamental_div_mod(b as int, p);
    lemma_mod_bound(a as int, p);
    lemma_mod_bound(b as int, p);
}

/// Rounding zero gives zero.
proof fn lemma_round_half_even_zero(k: nat)
    ensures
        round_half_even(0, k) == 0,
{
    lemma_pow2_pos(k);
    lemma_small_mod(0, pow2(k));
    lemma_basic_div(0, pow2(k) as int);
}

/// Rounding a multiple of `2^k` divided by `2^k` is exact.
proof fn lemma_round_half_even_exact(n: nat, k: nat)
    ensures
        round_half_even(n * pow2(k), k) == n,
{
    lemma_pow2_pos(k);
    lemma_fundamental_div_mod_converse((n * pow2(k)) as int, pow2(k) as int, n as int, 0);
}

/// Two normal significands of the same integer have the same exponent.
proof fn lemma_same_binade(n: nat, s1: nat, s2: nat)
    requires
        0x400 <= n * pow2(s1) < 0x800,
        0x400 <= n * pow2(s2) < 0x800,
    ensures
        s1 == s2,
{
    if s1 < s2 {
        lemma_pow2_adds(s1, (s2 - s1) as nat);
        lemma_pow2_increases_at(0, (s2 - s1) as nat);
        lemma2_to64();
        lemma_mul_is_associative(n as int, pow2(s1) as int, pow2((s2 - s1) as nat) as int);
        lemma_mul_inequality(2, pow2((s2 - s1) as nat) as int, (n * pow2(s1)) as int);
    } else if s2 < s1 {
        lemma_pow2_adds(s2, (s1 - s2) as nat);
        lemma_pow2_increases_at(0, (s1 - s2) as nat);
        lemma2_to64();
        lemma_mul_is_associative(n as int, pow2(s2) as int, pow2((s1 - s2) as nat) as int);
        lemma_mul_inequality(2, pow2((s1 - s2) as nat) as int, (n * pow2(s2)) as int);
    }
}

/// Small powers of two as shifts of one.
proof fn lemma_pow2_values(k: u32)
    requires
        k <= 24,
    ensures
        1u32 << k == pow2(k as nat),
        0 < pow2(k as nat) <= 0x100_0000,
        pow2(10) == 0x400,
        pow2(0) == 1,
{
    lemma_pow2_pos(k as nat);
    lemma2_to64();
    assert(1u32 << k == pow2(k as nat)) by {
        vstd::bits::lemma_u32_shl_is_mul(1, k);
        vstd::arithmetic::power2::lemma_pow2_strictly_increases(k as nat, 32);
    }
    if k < 24 {
        lemma_pow2_strictly_increases(k as nat, 24);
    }
}

/// Rounding a significand of at most 11 bits to an integer gives at most
/// 1024.
proof fn lemma_round_half_even_bound(sig: nat, k: nat)
    requires
        sig < 0x800,
        1 <= k <= 24,
    ensures
        round_half_even(sig, k) <= 0x400,
{
    lemma_pow2_pos(k);
    lemma2_to64();
    if k == 1 {
        assert(pow2(1) == 2);
    } else {
        lemma_pow2_increases_at(1, k);
        lemma_div_is_ordered(sig as int, 0x800, pow2(k) as int);
        lemma_div_by_multiple_le(k);
    }
}

/// Helper: `pow2` grows.
proof fn lemma_pow2_increases_at(a: nat, b: nat)
    requires
        a < b,
    ensures
        pow2(a) < pow2(b),
{
    lemma_pow2_strictly_increases(a, b);
}

/// `0x800 / 2^k` is at most `0x400` for `k >= 1`.
proof fn lemma_div_by_multiple_le(k: nat)
    requires
        k >= 2,
    ensures
        0x800int / pow2(k) as int <= 0x200,
{
    lemma2_to64();
    if k > 2 {
        lemma_pow2_strictly_increases(2, k);
    }
    lemma_div_is_ordered_by_denominator(0x800, 4, pow2(k) as int);
}

} // verus!
