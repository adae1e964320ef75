//! Properties of the `DInt64` operations that hold for all operands.
use vstd::prelude::*;
use core::cmp::Ordering;
use vstd::arithmetic::power2::*;
use vstd::arithmetic::div_mod::*;
use vstd::arithmetic::mul::*;
use crate::arith::{lemma_u128_join, lemma_u64_bits, bit_len, lemma_bit_len_bounds, lemma_bit_len_le, lemma_bit_len_unique, lemma_pow2_128};
use crate::float_bits::{f64_exp, f64_frac, f64_mant, f64_sign};
use crate::dint::{
    DInt64, order_of, lex_less, mul_q, mul_shift, mul_spec, add_spec, zero_spec, mul2_spec,
    with_sig, two64, lemma_mul_parts, add_ok, add_big_ok, add_big_spec, add_raw, norm_shift,
    mul2_ok, mul2_sum, mul2_shift, abs_i64, tod_spec, tod_sig, tod_ok, align_sig, add_shift,
    add_aligned, add_raw_ex, fromd_spec,
};

verus! {

/// Rebuilding a value from its significand, exponent and sign (what
/// `DInt64::new` does with the result of `DInt64::u128`) gives it back, and
/// a significand below `2^128` is kept exactly.
pub proof fn law_new_u128_roundtrip(d: DInt64, sig: nat, ex: i64, sign: u64)
    requires
        sig < 0x1_0000_0000_0000_0000_0000_0000_0000_0000,
    ensures
        with_sig(d.sig(), d.ex as int, d.sign as nat) == d,
        with_sig(sig, ex as int, sign as nat).sig() == sig,
{
    lemma_fundamental_div_mod_converse(d.sig() as int, two64() as int, d.hi as int, d.lo as int);
    lemma_fundamental_div_mod(sig as int, two64() as int);
    lemma_div_is_ordered(sig as int, 0x1_0000_0000_0000_0000_0000_0000_0000_0000int, two64() as int);
}

/// A significand of exactly 128 bits gives a normalized value.
proof fn lemma_with_sig_normalized(s: nat, ex: int, sign: nat)
    requires
        0x8000_0000_0000_0000_0000_0000_0000_0000 <= s < 0x1_0000_0000_0000_0000_0000_0000_0000_0000,
    ensures
        with_sig(s, ex, sign).normalized(),
        with_sig(s, ex, sign).sig() == s,
{
    lemma_div_is_ordered(0x8000_0000_0000_0000_0000_0000_0000_0000int, s as int, two64() as int);
    lemma_div_is_ordered(s as int, 0x1_0000_0000_0000_0000_0000_0000_0000_0000int, two64() as int);
    lemma_fundamental_div_mod(s as int, two64() as int);
}

/// The product of values that keep the representation invariant keeps it:
/// a product of normalized significands starts with a 1 bit.
pub proof fn law_mul_wf(a: DInt64, b: DInt64)
    requires
        a.wf(),
        b.wf(),
    ensures
        mul_spec(a, b).wf(),
{
    lemma_mul_parts(a.hi, a.lo, b.hi, b.lo);
    lemma_u128_join(a.sign, b.sign);
    let q = mul_q(a, b);
    let h = a.hi as nat * b.hi as nat;
    let m = a.hi as nat * b.lo as nat + a.lo as nat * b.hi as nat;
    let p = a.sig() * b.sig() - a.lo as nat * b.lo as nat;
    assert(p == h * 0x1_0000_0000_0000_0000_0000_0000_0000_0000 + m * two64());
    if a.sig() == 0 || b.sig() == 0 {
        assert(a.hi == 0 && a.lo == 0 || b.hi == 0 && b.lo == 0);
        assert(h == 0 && m == 0) by {
            lemma_mul_basics(a.hi as int);
            lemma_mul_basics(a.lo as int);
            lemma_mul_basics(b.hi as int);
            lemma_mul_basics(b.lo as int);
        }
        assert(q == 0);
        lemma_fundamental_div_mod(0, two64() as int);
    } else {
        assert(h >= 0x4000_0000_0000_0000_0000_0000_0000_0000) by {
            lemma_mul_inequality(0x8000_0000_0000_0000, a.hi as int, b.hi as int);
            lemma_mul_inequality(0x8000_0000_0000_0000, b.hi as int, 0x8000_0000_0000_0000);
            lemma_mul_is_commutative(0x8000_0000_0000_0000, b.hi as int);
        }
        let bound = 0x4000_0000_0000_0000_0000_0000_0000_0000_0000_0000_0000_0000_0000_0000_0000_0000int;
        assert(p >= bound);
        lemma_div_is_ordered(bound, p as int, 0x8000_0000_0000_0000_0000_0000_0000_0000int);
        assert(bound / 0x8000_0000_0000_0000_0000_0000_0000_0000int
            == 0x8000_0000_0000_0000_0000_0000_0000_0000int);
        assert(q >= 0x8000_0000_0000_0000_0000_0000_0000_0000);
        assert(p < 0x1_0000_0000_0000_0000_0000_0000_0000_0000_0000_0000_0000_0000_0000_0000_0000_0000int) by {
            lemma_mul_strict_upper_bound(a.sig() as int, 0x1_0000_0000_0000_0000_0000_0000_0000_0000int,
                b.sig() as int, 0x1_0000_0000_0000_0000_0000_0000_0000_0000int);
        }
        lemma_div_is_ordered(p as int,
            0x1_0000_0000_0000_0000_0000_0000_0000_0000_0000_0000_0000_0000_0000_0000_0000_0000int,
            0x8000_0000_0000_0000_0000_0000_0000_0000int);
        let s: nat = if q < 0x1_0000_0000_0000_0000_0000_0000_0000_0000 { q } else { (q + 1) / 2 };
        lemma_with_sig_normalized(s, a.ex + b.ex - mul_shift(a, b) + 1, (a.sign ^ b.sign) as nat);
    }
}

/// `cmp` is antisymmetric: swapping the operands reverses the order, and
/// `Equal` means equal exponents and significands.
pub proof fn law_cmp_antisymmetric(a: DInt64, b: DInt64)
    ensures
        order_of(a, b) == Ordering::Less <==> order_of(b, a) == Ordering::Greater,
        order_of(a, b) == Ordering::Equal <==> (a.ex == b.ex && a.sig() == b.sig()),
        order_of(a, b) == Ordering::Equal <==> order_of(b, a) == Ordering::Equal,
{
}

/// `cmp` is transitive.
pub proof fn law_cmp_transitive(a: DInt64, b: DInt64, c: DInt64)
    requires
        order_of(a, b) == Ordering::Less,
        order_of(b, c) == Ordering::Less,
    ensures
        order_of(a, c) == Ordering::Less,
{
}

/// Multiplication is commutative.
pub proof fn law_mul_commutative(a: DInt64, b: DInt64)
    ensures
        mul_spec(a, b) == mul_spec(b, a),
{
    assert(a.sig() * b.sig() == b.sig() * a.sig()) by {
        vstd::arithmetic::mul::lemma_mul_is_commutative(a.sig() as int, b.sig() as int);
    }
    assert(a.lo as nat * b.lo as nat == b.lo as nat * a.lo as nat) by {
        vstd::arithmetic::mul::lemma_mul_is_commutative(a.lo as int, b.lo as int);
    }
    assert(mul_q(a, b) == mul_q(b, a));
    lemma_u128_join(a.sign, b.sign);
}

/// Addition is commutative, except that adding two zero significands gives
/// back the second operand.
pub proof fn law_add_commutative(a: DInt64, b: DInt64)
    requires
        a.sig() != 0 || b.sig() != 0 || a == b,
    ensures
        add_spec(a, b) == add_spec(b, a),
{
    if a.sig() != 0 && b.sig() != 0 && a.ex == b.ex && a.sig() == b.sig() {
        assert(a.hi == b.hi && a.lo == b.lo) by {
            vstd::arithmetic::div_mod::lemma_fundamental_div_mod_converse(
                a.sig() as int, crate::dint::two64() as int, a.hi as int, a.lo as int);
            vstd::arithmetic::div_mod::lemma_fundamental_div_mod_converse(
                b.sig() as int, crate::dint::two64() as int, b.hi as int, b.lo as int);
        }
        lemma_u128_join(a.sign, b.sign);
    }
}

/// A zero significand is the identity of addition.
pub proof fn law_add_zero(a: DInt64, z: DInt64)
    requires
        z.sig() == 0,
    ensures
        add_spec(z, a) == a,
        a.sig() != 0 ==> add_spec(a, z) == a,
{
}

/// A nonzero value plus its negation is zero.
pub proof fn law_add_negation(a: DInt64)
    requires
        a.sig() != 0,
        a.sign <= 1,
    ensures
        add_spec(a, DInt64 { sign: if a.sign == 0 { 1 } else { 0 }, ..a }) == zero_spec(),
{
    lemma_u64_bits(a.sign);
}

/// Multiplying by zero gives zero.
pub proof fn law_mul2_zero(a: DInt64)
    ensures
        mul2_spec(a, 0) == zero_spec(),
{
}

/// A nonzero significand below `2^128`, shifted left by its leading zeros,
/// has exactly 128 bits.
proof fn lemma_norm_shift_range(c: nat)
    requires
        0 < c < 0x1_0000_0000_0000_0000_0000_0000_0000_0000,
    ensures
        0x8000_0000_0000_0000_0000_0000_0000_0000 <= c * pow2((128 - bit_len(c)) as nat)
            < 0x1_0000_0000_0000_0000_0000_0000_0000_0000,
{
    lemma_pow2_128();
    lemma_bit_len_bounds(c);
    lemma_bit_len_le(c, 128);
    let k = bit_len(c);
    let t = (128 - k) as nat;
    lemma_pow2_adds((k - 1) as nat, t);
    lemma_pow2_adds(k, t);
    lemma_pow2_pos(t);
    lemma_mul_inequality(pow2((k - 1) as nat) as int, c as int, pow2(t) as int);
    lemma_mul_strict_inequality(c as int, pow2(k) as int, pow2(t) as int);
}

/// The sum of values that keep the representation invariant keeps it.
pub proof fn law_add_wf(a: DInt64, b: DInt64)
    requires
        a.wf(),
        b.wf(),
        add_ok(a, b),
    ensures
        add_spec(a, b).wf(),
{
    if a.sig() != 0 && b.sig() != 0 && !(a.ex == b.ex && a.sig() == b.sig()) {
        let (big, small) = if lex_less(a, b) { (b, a) } else { (a, b) };
        let c = add_raw(big, small);
        crate::dint::lemma_add_raw_bound(big, small);
        lemma_u64_bits(big.sign);
        lemma_fundamental_div_mod(big.sig() as int, two64() as int);
        if c == 0 {
            lemma_fundamental_div_mod(0, two64() as int);
        } else {
            lemma_norm_shift_range(c);
            lemma_with_sig_normalized(c * pow2((128 - bit_len(c)) as nat),
                crate::dint::add_raw_ex(big, small) - norm_shift(c, big.ex as int),
                big.sign as nat % 256);
        }
    }
}

/// The product with a machine integer of a value that keeps the
/// representation invariant keeps it.
pub proof fn law_mul2_wf(a: DInt64, b: i64)
    requires
        a.wf(),
        mul2_ok(a, b),
    ensures
        mul2_spec(a, b).wf(),
{
    if b != 0 {
        lemma_pow2_128();
        let c = abs_i64(b);
        let m = mul2_shift(a, b);
        let p = a.hi as nat * c;
        let u = mul2_sum(a, b);
        let l = ((a.lo as nat * c * pow2((m - 1) as nat)) % pow2(128)) / pow2(63);
        let t = p * pow2(m);
        assert(c <= 0x8000_0000_0000_0000);
        assert(p < 0x8000_0000_0000_0000_0000_0000_0000_0000) by {
            lemma_mul_upper_bound(a.hi as int, 0xffff_ffff_ffff_ffff, c as int,
                0x8000_0000_0000_0000);
        }
        if p >= two64() {
            lemma_bit_len_bounds(p);
            lemma_bit_len_le(p, 127);
            let k = bit_len(p);
            lemma_pow2_adds((k - 1) as nat, m);
            lemma_pow2_adds(k, m);
            lemma_mul_inequality(pow2((k - 1) as nat) as int, p as int, pow2(m) as int);
            lemma_mul_strict_inequality(p as int, pow2(k) as int, pow2(m) as int);
        } else {
            lemma_mul_strict_inequality(p as int, two64() as int, two64() as int);
            if a.hi != 0 {
                lemma_mul_inequality(1, c as int, a.hi as int);
                lemma_mul_is_commutative(c as int, a.hi as int);
                lemma_mul_inequality(0x8000_0000_0000_0000, p as int, two64() as int);
            }
        }
        assert(t < 0x1_0000_0000_0000_0000_0000_0000_0000_0000);
        lemma_mod_bound((a.lo as nat * c * pow2((m - 1) as nat)) as int, pow2(128) as int);
        lemma_div_is_ordered(((a.lo as nat * c * pow2((m - 1) as nat)) % pow2(128)) as int,
            pow2(128) as int, pow2(63) as int);
        assert(l <= 0x2_0000_0000_0000_0000);
        let sg: nat = if b < 0 { if a.sign == 0 { 1 } else { 0 } } else { a.sign as nat };
        if a.sig() == 0 {
            assert(a.hi == 0 && a.lo == 0);
            assert(p == 0) by { lemma_mul_basics(c as int); }
            assert(t == 0) by { lemma_mul_basics(pow2(m) as int); }
            assert(a.lo as nat * c * pow2((m - 1) as nat) == 0) by {
                lemma_mul_basics(c as int);
                lemma_mul_basics(pow2((m - 1) as nat) as int);
            }
            lemma_small_mod(0, pow2(128));
            assert(u == 0);
            lemma_fundamental_div_mod(0, two64() as int);
        } else {
            assert(t >= 0x8000_0000_0000_0000_0000_0000_0000_0000);
            if u < pow2(128) {
                lemma_with_sig_normalized(u, a.ex + 64 - m, sg);
            } else {
                lemma_with_sig_normalized((u + 1) / 2, a.ex + 65 - m, sg);
            }
        }
    }
}

/// The product with a machine integer keeps the exact product to within
/// one unit of its last place: with `m` the shift that normalized the high
/// product, `a.sig() * |b| * 2^m` and `r.sig() * 2^(r.ex - a.ex + m)` (a
/// power of 64 or 65) differ by less than `2^64`. In values,
/// `|V(r) - V(a) * b| <= 2^(r.ex - 127)`.
pub proof fn law_mul2_error(a: DInt64, b: i64)
    requires
        a.normalized(),
        mul2_ok(a, b),
        b != 0,
    ensures
        ({
            let r = mul2_spec(a, b);
            let m = mul2_shift(a, b);
            let e = a.sig() * abs_i64(b) * pow2(m) - r.sig() * pow2((r.ex - a.ex + m) as nat);
            -0x1_0000_0000_0000_0000int <= e < 0x1_0000_0000_0000_0000int
        }),
{
    lemma_pow2_128();
    lemma2_to64();
    let r = mul2_spec(a, b);
    let c = abs_i64(b);
    let m = mul2_shift(a, b);
    let p = a.hi as nat * c;
    let t = p * pow2(m);
    let x = a.lo as nat * c * pow2((m - 1) as nat);
    let l = (x % pow2(128)) / pow2(63);
    let u = mul2_sum(a, b);
    assert(1 <= c <= 0x7fff_ffff_ffff_ffff);
    assert(p < 0x8000_0000_0000_0000_0000_0000_0000_0000) by {
        lemma_mul_upper_bound(a.hi as int, 0xffff_ffff_ffff_ffff, c as int, 0x7fff_ffff_ffff_ffff);
    }
    assert(p >= 0x8000_0000_0000_0000) by {
        lemma_mul_inequality(1, c as int, a.hi as int);
        lemma_mul_is_commutative(c as int, a.hi as int);
    }
    if p >= two64() {
        lemma_bit_len_bounds(p);
        lemma_bit_len_le(p, 127);
        let k = bit_len(p);
        if k < 65 {
            crate::arith::lemma_pow2_increases(k, 64);
            lemma2_to64_rest();
        }
        lemma_pow2_adds((k - 1) as nat, m);
        lemma_pow2_adds(k, m);
        lemma_mul_inequality(pow2((k - 1) as nat) as int, p as int, pow2(m) as int);
        lemma_mul_strict_inequality(p as int, pow2(k) as int, pow2(m) as int);
    } else {
        lemma_mul_strict_inequality(p as int, two64() as int, two64() as int);
        lemma_mul_inequality(0x8000_0000_0000_0000, p as int, two64() as int);
    }
    assert(1 <= m <= 64);
    assert(0x8000_0000_0000_0000_0000_0000_0000_0000 <= t < 0x1_0000_0000_0000_0000_0000_0000_0000_0000);
    /* the low product, shifted, stays below the high one */
    let pm1 = pow2((m - 1) as nat) as int;
    lemma_pow2_pos((m - 1) as nat);
    lemma_pow2_unfold(m);
    assert(pow2(m) == 2 * pm1);
    assert(x < t) by {
        assert(a.lo as nat * c * pm1 < (2 * a.hi as nat) * c * pm1) by (nonlinear_arith)
            requires
                (a.lo as int) < 2 * (a.hi as int),
                c >= 1,
                pm1 >= 1,
        ;
        lemma_mul_is_associative(a.hi as int * c as int, 2, pm1);
        assert((2 * a.hi as nat) * c * pm1 == (a.hi as nat * c) * (2 * pm1)) by (nonlinear_arith);
    }
    lemma_small_mod(x, pow2(128));
    lemma_fundamental_div_mod(x as int, pow2(63) as int);
    lemma_mod_bound(x as int, pow2(63) as int);
    assert(u == t + l);
    /* the exact product times 2^m, and the cut */
    let exact = a.sig() * c * pow2(m);
    assert(exact == t * two64() + 2 * x) by (nonlinear_arith)
        requires
            exact == a.sig() * c * pow2(m),
            a.sig() == a.hi * two64() + a.lo,
            t == a.hi * c * pow2(m),
            x == a.lo * c * pm1,
            pow2(m) == 2 * pm1,
    ;
    assert(2 * x == l * two64() + 2 * (x % pow2(63)));
    let sg: nat = if b < 0 { if a.sign == 0 { 1 } else { 0 } } else { a.sign as nat };
    if u < pow2(128) {
        law_new_u128_roundtrip(a, u, 0, 0);
        assert(r.sig() == u);
        assert(r.ex - a.ex + m == 64);
        assert(r.sig() * pow2((r.ex - a.ex + m) as nat) == u * two64());
    } else {
        let s = (u + 1) / 2;
        lemma_fundamental_div_mod((u + 1) as int, 2);
        lemma_mod_bound((u + 1) as int, 2);
        law_new_u128_roundtrip(a, s, 0, 0);
        assert(r.sig() == s);
        assert(r.ex - a.ex + m == 65);
        lemma_pow2_unfold(65);
        lemma2_to64_rest();
        assert(pow2(65) == 2 * two64());
        assert(r.sig() * pow2((r.ex - a.ex + m) as nat) == (2 * s) * two64()) by {
            lemma_mul_is_associative(s as int, 2, two64() as int);
            lemma_mul_is_commutative(s as int, 2);
        }
    }
}

/// The product keeps the exact product of the significands to within less
/// than three units of its last place: with `s` the shift that normalized
/// it, `r.sig() * 2^(128 - s)` is within `[-2^127, 3 * 2^127)` of
/// `a.sig() * b.sig()`. In values, `|V(r) - V(a) * V(b)| < 3 * 2^(a.ex + b.ex - 127)`.
pub proof fn law_mul_error(a: DInt64, b: DInt64)
    ensures
        ({
            let r = mul_spec(a, b);
            let e = a.sig() * b.sig() - r.sig() * pow2((128 - mul_shift(a, b)) as nat);
            -0x8000_0000_0000_0000_0000_0000_0000_0000int <= e
                < 3 * 0x8000_0000_0000_0000_0000_0000_0000_0000int
        }),
{
    lemma_pow2_128();
    let d = 0x8000_0000_0000_0000_0000_0000_0000_0000int;
    let ab = a.sig() * b.sig();
    let ll = a.lo as nat * b.lo as nat;
    assert(ll <= 0xffff_ffff_ffff_fffe_0000_0000_0000_0001) by {
        lemma_mul_upper_bound(a.lo as int, 0xffff_ffff_ffff_ffff, b.lo as int, 0xffff_ffff_ffff_ffff);
    }
    assert(ab >= ll) by {
        lemma_mul_inequality(a.lo as int, a.sig() as int, b.lo as int);
        lemma_mul_inequality(b.lo as int, b.sig() as int, a.sig() as int);
        lemma_mul_is_commutative(a.sig() as int, b.lo as int);
        lemma_mul_is_commutative(a.sig() as int, b.sig() as int);
        assert(a.lo as int * b.lo as int <= a.sig() as int * b.lo as int);
        assert(b.lo as int * a.sig() as int <= b.sig() as int * a.sig() as int);
    }
    let p = ab - ll;
    let q = mul_q(a, b);
    lemma_fundamental_div_mod(p as int, d);
    lemma_mod_bound(p as int, d);
    let big = 0xffff_ffff_ffff_ffff_ffff_ffff_ffff_ffff_int * 0xffff_ffff_ffff_ffff_ffff_ffff_ffff_ffff_int;
    assert(ab <= big) by {
        lemma_mul_upper_bound(a.sig() as int, 0xffff_ffff_ffff_ffff_ffff_ffff_ffff_ffff,
            b.sig() as int, 0xffff_ffff_ffff_ffff_ffff_ffff_ffff_ffff);
    }
    lemma_div_is_ordered(p as int, big, d);
    assert(big / d < 0x1_ffff_ffff_ffff_ffff_ffff_ffff_ffff_ffffint);
    let s: nat = if q < 0x1_0000_0000_0000_0000_0000_0000_0000_0000 { q } else { (q + 1) / 2 };
    lemma_fundamental_div_mod((q + 1) as int, 2);
    let dummy_ex: i64 = 0;
    law_new_u128_roundtrip(a, s, dummy_ex, 0);
    let r = mul_spec(a, b);
    assert(r.sig() == s) by {
        lemma_fundamental_div_mod(s as int, two64() as int);
        lemma_div_is_ordered(s as int, 0x1_0000_0000_0000_0000_0000_0000_0000_0000int, two64() as int);
    }
    assert(p == d * q + p % d);
    if q < 0x1_0000_0000_0000_0000_0000_0000_0000_0000 {
        assert(mul_shift(a, b) == 1);
        assert(((128 - mul_shift(a, b)) as nat) == 127);
        assert(r.sig() * pow2(127) == q * d);
        assert(0 <= p % d < d);
        assert(ab - q * d == p % d + ll);
        assert(0 <= ab - r.sig() * pow2(127) < 3 * d);
    } else {
        assert(mul_shift(a, b) == 0);
        assert(((128 - mul_shift(a, b)) as nat) == 128);
        assert(r.sig() * pow2(128) == 2 * s * d);
        assert(2 * s == q + 1 - (q + 1) % 2);
        lemma_mod_bound((q + 1) as int, 2);
        assert(2 * s * d == q * d + d - ((q + 1) % 2) * d);
        assert(0 <= p % d < d);
        assert(ab - q * d == p % d + ll);
        assert(-d <= ab - r.sig() * pow2(128) < 3 * d);
    }
}

/// Aligning the smaller operand of a sum (what `DInt64::add` does before
/// adding) keeps its significand to within one unit of the shifted-out
/// place: with `b' = align_sig(b, sh)`, `-1 <= b - b' * 2^sh < 2^sh`. The
/// bit below the cut is added at the bottom of `b`, so the shift truncates
/// but for a run of ones below the cut.
pub proof fn law_add_alignment_error(b: nat, sh: int)
    requires
        1 <= sh < 128,
    ensures
        -1 <= b - align_sig(b, sh) * pow2(sh as nat) < pow2(sh as nat),
{
    let p = pow2(sh as nat) as int;
    let h = pow2((sh - 1) as nat) as int;
    lemma_pow2_pos(sh as nat);
    lemma_pow2_pos((sh - 1) as nat);
    let bit = (b as int / h) % 2;
    lemma_mod_bound(b as int / h, 2);
    let b1 = b as int + bit;
    lemma_fundamental_div_mod(b1, p);
    lemma_mod_bound(b1, p);
    lemma_mul_is_commutative(p, b1 / p);
    assert(align_sig(b, sh) == b1 / p);
}

/// The sign of a value as `1` or `-1`.
pub open spec fn sign_of(d: DInt64) -> int {
    if d.sign == 0 { 1 } else { -1 }
}

/// The value of `d` in units of `2^(m - 127)` for `m` at most `d.ex`: the
/// signed significand times `2^(d.ex - m)`.
pub open spec fn scaled(d: DInt64, m: int) -> int {
    sign_of(d) * (d.sig() * pow2((d.ex - m) as nat))
}

/// A significand shifted left by `l` at an exponent lowered by `l` has the
/// value of the unshifted one.
proof fn lemma_shift_value(c: nat, l: nat, e: nat)
    requires
        l <= e,
    ensures
        (c * pow2(l)) * pow2((e - l) as nat) == c * pow2(e),
{
    lemma_pow2_adds(l, (e - l) as nat);
    lemma_mul_is_associative(c as int, pow2(l) as int, pow2((e - l) as nat) as int);
}

/// The sum of two nonzero values, `big` the larger by exponent and then by
/// significand, is within two units of the last place of `big` of the
/// exact sum.
proof fn lemma_add_big_error(big: DInt64, small: DInt64, m: int)
    requires
        big.sig() != 0,
        small.sig() != 0,
        !lex_less(big, small),
        !(big.ex == small.ex && big.sig() == small.sig()),
        big.sign <= 1,
        small.sign <= 1,
        add_big_ok(big, small),
        big.ex - small.ex <= 0x7fff_ffff,
        m <= small.ex,
        m <= add_big_spec(big, small).ex,
    ensures
        ({
            let err = scaled(big, m) + scaled(small, m) - scaled(add_big_spec(big, small), m);
            -2 * pow2((big.ex - m) as nat) < err < 2 * pow2((big.ex - m) as nat)
        }),
{
    let r = add_big_spec(big, small);
    let a = big.sig();
    let b = small.sig();
    let sh: int = big.ex - small.ex;
    assert(add_shift(big, small) == sh) by {
        if big.ex > small.ex {
            let d: i64 = (big.ex - small.ex) as i64;
            assert(0 <= d <= 0x7fff_ffff ==> (d as i32) as i64 == d) by (bit_vector);
        }
    }
    let bp = add_aligned(big, small);
    let p = pow2(sh as nat) as int;
    let u = pow2((small.ex - m) as nat) as int;
    lemma_pow2_pos(sh as nat);
    lemma_pow2_pos((small.ex - m) as nat);
    lemma_pow2_adds(sh as nat, (small.ex - m) as nat);
    assert(pow2((big.ex - m) as nat) == p * u);
    let ea: int = b - bp * p;
    assert(-1 <= ea < p && (p == 1 ==> ea == 0)) by {
        if sh == 0 {
            lemma2_to64();
            assert(p == 1);
            assert(bp == b);
            lemma_mul_basics(bp as int);
            assert(ea == 0);
        } else if sh < 128 {
            law_add_alignment_error(b, sh);
            lemma_pow2_strictly_increases(0, sh as nat);
            lemma2_to64();
            assert(p >= 2);
        } else {
            assert(bp == 0);
            lemma_pow2_128();
            lemma_pow2_increases_128_to(sh as nat);
            assert(b < 0x1_0000_0000_0000_0000_0000_0000_0000_0000);
            lemma_mul_basics(p);
            assert(ea == b);
            assert(p >= 0x1_0000_0000_0000_0000_0000_0000_0000_0000);
        }
    }
    let c = add_raw(big, small);
    let l = norm_shift(c, big.ex as int);
    let rex = add_raw_ex(big, small);
    crate::dint::lemma_add_raw_bound(big, small);
    let sig: nat = if c == 0 { 0 } else { c * pow2(l as nat) };
    if c != 0 {
        lemma_pow2_128();
        lemma_norm_shift_range(c);
        lemma_bit_len_bounds(c);
        lemma_bit_len_le(c, 128);
    }
    law_new_u128_roundtrip(big, sig, 0, 0);
    assert(r.sig() == sig);
    assert(r.ex == rex - l);
    assert(r.sign == big.sign);
    let s = sign_of(big);
    assert(scaled(big, m) == s * (a * (p * u))) by {
        assert(scaled(big, m) == s * (a * pow2((big.ex - m) as nat)));
    }
    assert(scaled(small, m) == sign_of(small) * (b * u));
    /* the value of the result in units */
    let big_x: int = if rex == big.ex { 1 } else { 2 };
    assert(scaled(r, m) == s * (c * (big_x * p * u))) by {
        assert(sign_of(r) == s);
        assert(r.ex - m == (rex - m) - l);
        if rex == big.ex {
            assert(pow2((rex - m) as nat) == p * u);
        } else {
            lemma_pow2_unfold((rex - m) as nat);
            assert(pow2((rex - m) as nat) == 2 * (p * u));
        }
        lemma_mul_is_associative(big_x, p, u);
        assert(pow2((rex - m) as nat) == big_x * p * u);
        if c == 0 {
            lemma_mul_basics(pow2((r.ex - m) as nat) as int);
            lemma_mul_basics(big_x * p * u);
        } else {
            lemma_shift_value(c, l as nat, (rex - m) as nat);
            assert(r.sig() * pow2((r.ex - m) as nat) == c * pow2((rex - m) as nat));
        }
    }
    let x: int = if big.sign ^ small.sign != 0 {
        -ea
    } else if rex == big.ex {
        ea
    } else {
        ea - (1 - (a + bp + 1) % 2) * p
    };
    assert(scaled(big, m) + scaled(small, m) - scaled(r, m) == s * (u * x)) by {
        lemma_u64_bits(big.sign);
        lemma_u64_bits(small.sign);
        let (bs, ss) = (big.sign, small.sign);
        assert((bs ^ ss != 0) == (bs != ss)) by (bit_vector)
            requires
                bs <= 1,
                ss <= 1,
        ;
        lemma_fundamental_div_mod((a + bp + 1) as int, 2);
        assert(s * (a * (p * u)) + sign_of(small) * (b * u) - s * (c * (big_x * p * u))
            == s * (u * x)) by (nonlinear_arith)
            requires
                sign_of(small) == (if big.sign ^ small.sign != 0 { -s } else { s }),
                big.sign ^ small.sign != 0 ==> c == a - bp,
                big.sign ^ small.sign == 0 && rex == big.ex ==> c == a + bp,
                big.sign ^ small.sign == 0 && rex != big.ex ==> 2 * c == a + bp + 1 - (a + bp
                    + 1) % 2,
                big.sign ^ small.sign != 0 ==> rex == big.ex,
                big_x == (if rex == big.ex { 1int } else { 2 }),
                ea == b - bp * p,
                x == (if big.sign ^ small.sign != 0 {
                    -ea
                } else if rex == big.ex {
                    ea
                } else {
                    ea - (1 - (a + bp + 1) % 2) * p
                }),
        ;
    }
    assert(-2 * p < x < 2 * p) by {
        let t = (a + bp + 1) % 2;
        lemma_mod_bound((a + bp + 1) as int, 2);
        assert((1 - t) * p == if t == 0 { p } else { 0 }) by (nonlinear_arith)
            requires
                t == 0 || t == 1,
        ;
    }
    assert(-2 * (p * u) < s * (u * x) < 2 * (p * u)) by (nonlinear_arith)
        requires
            -2 * p < x < 2 * p,
            u > 0,
            s == 1 || s == -1,
    ;
}

/// The least of three exponents.
pub open spec fn min3(a: int, b: int, c: int) -> int {
    if a <= b && a <= c {
        a
    } else if b <= c {
        b
    } else {
        c
    }
}

/// The sum keeps the exact sum to within two units of the last place of
/// the larger operand: in units of `2^(m - 127)`, with `m` the least of the
/// exponents of `a`, `b` and the result `r`,
/// `|a + b - r| < 2 * 2^(max(a.ex, b.ex) - m)`; in values,
/// `|V(r) - (V(a) + V(b))| < 2^(max(a.ex, b.ex) - 126)`. The sum reads the
/// distance of the exponents as an `i32`, so farther ones are left out.
pub proof fn law_add_error(a: DInt64, b: DInt64)
    requires
        a.sign <= 1,
        b.sign <= 1,
        add_ok(a, b),
        -0x7fff_ffff <= a.ex - b.ex <= 0x7fff_ffff,
    ensures
        ({
            let r = add_spec(a, b);
            let m = min3(a.ex as int, b.ex as int, r.ex as int);
            let top: int = if a.ex < b.ex { b.ex as int } else { a.ex as int };
            let err = scaled(a, m) + scaled(b, m) - scaled(r, m);
            -2 * pow2((top - m) as nat) < err < 2 * pow2((top - m) as nat)
        }),
{
    let r = add_spec(a, b);
    let m = min3(a.ex as int, b.ex as int, r.ex as int);
    let top: int = if a.ex < b.ex { b.ex as int } else { a.ex as int };
    lemma_pow2_pos((top - m) as nat);
    let pa = pow2((a.ex - m) as nat) as int;
    let pb = pow2((b.ex - m) as nat) as int;
    let (sa, sb) = (a.sign, b.sign);
    assert((sa ^ sb != 0) == (sa != sb)) by (bit_vector)
        requires
            sa <= 1,
            sb <= 1,
    ;
    if a.sig() == 0 {
        lemma_mul_basics(pa);
    } else if b.sig() == 0 {
        lemma_mul_basics(pb);
    } else if a.ex == b.ex && a.sig() == b.sig() {
        if a.sign ^ b.sign != 0 {
            lemma_mul_basics(pow2((r.ex - m) as nat) as int);
        } else {
            lemma_pow2_unfold((r.ex - m) as nat);
            assert(pow2((r.ex - m) as nat) == 2 * pa);
            lemma_mul_is_associative(a.sig() as int, 2, pa);
            lemma_mul_is_commutative(a.sig() as int, 2);
            assert(scaled(r, m) == 2 * scaled(a, m)) by (nonlinear_arith)
                requires
                    scaled(r, m) == sign_of(a) * (a.sig() * (2 * pa)),
                    scaled(a, m) == sign_of(a) * (a.sig() * pa),
            ;
        }
    } else if lex_less(a, b) {
        lemma_add_big_error(b, a, m);
    } else {
        lemma_add_big_error(a, b, m);
    }
}

/// `2^128 <= 2^sh` from `128 <= sh`.
proof fn lemma_pow2_increases_128_to(sh: nat)
    requires
        128 <= sh,
    ensures
        pow2(128) <= pow2(sh),
{
    if sh > 128 {
        lemma_pow2_strictly_increases(128, sh);
    }
}

/// Converting a binary64 value of the normal range to `DInt64` and
/// rounding it back gives the same bit pattern: the conversion is exact
/// and the rounding keeps a value of 53 bits.
pub proof fn law_fromd_tod_roundtrip(x: u64)
    requires
        1 <= f64_exp(x) <= 0x7fe,
    ensures
        tod_ok(fromd_spec(x)),
        tod_spec(fromd_spec(x)) == x,
{
    lemma_u64_bits(x);
    lemma2_to64();
    lemma2_to64_rest();
    let m = f64_mant(x);
    assert(x == (x >> 63) * 0x8000_0000_0000_0000 + ((x >> 52) & 0x7ff) * 0x10_0000_0000_0000
        + (x & 0xf_ffff_ffff_ffff)) by (bit_vector);
    assert(x & 0xf_ffff_ffff_ffff == x & (u64::MAX >> 12)) by (bit_vector);
    assert(0x10_0000_0000_0000 <= m < 0x20_0000_0000_0000);
    lemma_bit_len_unique(m, 53);
    let d = fromd_spec(x);
    assert(d.hi == m * 0x800);
    assert(d.lo == 0);
    assert(d.ex == f64_exp(x) - 1023);
    assert(d.sign == f64_sign(x));
    assert((d.hi as nat / 0x800) % 0x10_0000_0000_0000 == f64_frac(x));
    assert((d.hi as nat / 0x400) % 2 == 0) by {
        lemma_mod_multiples_vanish(m as int, 0, 2);
    }
}

/// Multiplying a normalized value by one gives it back.
pub proof fn law_mul2_one(a: DInt64)
    requires
        a.normalized(),
        mul2_ok(a, 1),
    ensures
        mul2_spec(a, 1) == a,
{
    lemma_pow2_128();
    assert(abs_i64(1) == 1);
    assert(a.hi as nat * 1 == a.hi);
    assert(mul2_shift(a, 1) == 64);
    assert(a.lo as nat * 1 * pow2(63) < pow2(128)) by {
        lemma_mul_strict_inequality(a.lo as int, two64() as int, pow2(63) as int);
        lemma_pow2_adds(64, 63);
        lemma_pow2_increases_128();
    }
    lemma_small_mod(a.lo as nat * 1 * pow2(63), pow2(128));
    lemma_div_multiples_vanish(a.lo as int, pow2(63) as int);
    assert(mul2_sum(a, 1) == a.sig());
    law_new_u128_roundtrip(a, 0, 0, 0);
}

/// `2^127 <= 2^128`, by value.
proof fn lemma_pow2_increases_128()
    ensures
        pow2(127) * 2 == pow2(128),
{
    lemma_pow2_128();
}

/// `DInt64::tod` rounds to nearest, ties to even: the 53-bit significand it
/// keeps is within half a unit of the 128-bit significand scaled to 53
/// bits, and even on a tie; the bit pattern holds that significand with
/// the exponent and sign.
pub proof fn law_tod_nearest_even(d: DInt64)
    requires
        d.normalized(),
        tod_ok(d),
    ensures
        0x10_0000_0000_0000 <= tod_sig(d) <= 0x20_0000_0000_0000,
        tod_spec(d) as int == d.sign * 0x8000_0000_0000_0000 + (d.ex + 1023) * 0x10_0000_0000_0000
            + tod_sig(d) - 0x10_0000_0000_0000,
        -0x400_0000_0000_0000_0000int <= tod_sig(d) * 0x800_0000_0000_0000_0000int - d.sig()
            <= 0x400_0000_0000_0000_0000int,
        (tod_sig(d) * 0x800_0000_0000_0000_0000int - d.sig() == 0x400_0000_0000_0000_0000int
            || tod_sig(d) * 0x800_0000_0000_0000_0000int - d.sig() == -0x400_0000_0000_0000_0000int)
            ==> tod_sig(d) % 2 == 0,
{
    let hi = d.hi as int;
    let top = hi / 0x800;
    lemma_fundamental_div_mod(hi, 0x800);
    lemma_fundamental_div_mod(hi % 0x800, 0x400);
    lemma_mod_bound(hi, 0x800);
    lemma_mod_bound(hi % 0x800, 0x400);
    lemma_div_is_ordered(0x8000_0000_0000_0000, hi, 0x800);
    lemma_div_is_ordered(hi, 0xffff_ffff_ffff_ffff, 0x800);
    assert(0x10_0000_0000_0000 <= top < 0x20_0000_0000_0000);
    lemma_fundamental_div_mod(top, 0x10_0000_0000_0000);
    lemma_fundamental_div_mod_converse(top, 0x10_0000_0000_0000, 1, top - 0x10_0000_0000_0000);
    assert((hi / 0x400) % 2 == (hi % 0x800) / 0x400) by {
        lemma_div_denominator(hi, 0x400, 2);
        lemma_fundamental_div_mod(hi / 0x400, 2);
        lemma_fundamental_div_mod_converse(hi / 0x400, 2, top, (hi % 0x800) / 0x400);
    }
    assert(hi % 0x400 == (hi % 0x800) % 0x400) by {
        lemma_mod_mod(hi, 0x400, 2);
    }
    let rb = (hi % 0x800) / 0x400;
    let h10 = hi % 0x400;
    let lo = d.lo as int;
    assert(hi == 0x800 * top + 0x400 * rb + h10);
    assert(d.sig() == hi * 0x1_0000_0000_0000_0000int + lo);
    assert(hi * 0x1_0000_0000_0000_0000int == top * 0x800_0000_0000_0000_0000int
        + rb * 0x400_0000_0000_0000_0000int + h10 * 0x1_0000_0000_0000_0000int) by (nonlinear_arith)
        requires hi == 0x800 * top + 0x400 * rb + h10;
    assert(d.sig() == top * 0x800_0000_0000_0000_0000int + rb * 0x400_0000_0000_0000_0000int
        + h10 * 0x1_0000_0000_0000_0000int + lo);
    assert(0 <= h10 * 0x1_0000_0000_0000_0000int + lo < 0x400_0000_0000_0000_0000int);
    let f = top - 0x10_0000_0000_0000;
    assert((d.hi as nat / 0x800) % 0x10_0000_0000_0000 == f);
    let e = tod_sig(d) * 0x800_0000_0000_0000_0000int - d.sig();
    if rb == 1 && (h10 != 0 || lo != 0 || f % 2 == 1) {
        assert(tod_sig(d) == top + 1);
        assert(e == 0x400_0000_0000_0000_0000int - (h10 * 0x1_0000_0000_0000_0000int + lo));
    } else {
        assert(tod_sig(d) == top);
        assert(e == -(rb * 0x400_0000_0000_0000_0000int + h10 * 0x1_0000_0000_0000_0000int + lo));
    }
}

} // verus!
