//! What holds of the accurate logarithm path for every positive finite
//! argument.
use vstd::prelude::*;
use vstd::arithmetic::div_mod::*;
use vstd::arithmetic::mul::*;
use vstd::arithmetic::power2::*;
use crate::arith::{lemma_xor_bits, bit_len, lemma_bit_len_bounds, lemma_bit_len_unique, lemma_bit_len_le};
use crate::dint::{DInt64, two64, entry, mul_ok, mul_spec, mul_q, mul_shift, add_ok, add_spec,
    add_big_ok, add_shift, add_aligned, add_raw, lex_less, mul2_ok, mul2_spec, mul2_shift, abs_i64,
    fromd_spec, lemma_fromd_fields, lemma_mul_parts, horner, horner_ok, pow2_ok, pow2_spec,
    zero_spec, tod_ok, tod_spec, with_sig};
use crate::float_bits::{f64_frac, f64_mant};
use crate::log::{log_2_ok, log_2_spec, log_2_z, cr_log_accurate_ok, cr_log_accurate_spec, one_bits};
use crate::log_tables::{P_2, LOG_INV_2};
use crate::dint_laws::law_mul_wf;
use crate::float_bits::{f64_exp, f64_is_zero, f64_sign, f64_lt_zero};
use crate::log::{log_2_index, log_2_exp, log_2_reduced, sqrt2_hi};
use crate::log_tables::{INVERSE_2, M_ONE, LOG2};

verus! {

/// A tabulated inverse is normalized, has no low word, no sign and an
/// exponent between `-1` and `1`.
pub open spec fn inverse_entry_ok(t: (u64, u64, i64, u64)) -> bool {
    t.0 >= 0x8000_0000_0000_0000 && t.1 == 0 && -1 <= t.2 <= 1 && t.3 == 0
}

/// The first `n` tabulated inverses are as `inverse_entry_ok` says.
spec fn inverses_ok_upto(n: nat) -> bool
    decreases n,
{
    n == 0 || (inverses_ok_upto((n - 1) as nat) && inverse_entry_ok(INVERSE_2[n - 1]))
}

/// Every tabulated inverse is as `inverse_entry_ok` says.
proof fn lemma_inverses_ok(i: int)
    requires
        0 <= i < 240,
    ensures
        inverse_entry_ok(INVERSE_2[i]),
{
    /* the table is checked twenty entries at a time */
    assert(inverses_ok_upto(20)) by {
        reveal_with_fuel(inverses_ok_upto, 21);
    }
    assert(inverses_ok_upto(40)) by {
        reveal_with_fuel(inverses_ok_upto, 21);
    }
    assert(inverses_ok_upto(60)) by {
        reveal_with_fuel(inverses_ok_upto, 21);
    }
    assert(inverses_ok_upto(80)) by {
        reveal_with_fuel(inverses_ok_upto, 21);
    }
    assert(inverses_ok_upto(100)) by {
        reveal_with_fuel(inverses_ok_upto, 21);
    }
    assert(inverses_ok_upto(120)) by {
        reveal_with_fuel(inverses_ok_upto, 21);
    }
    assert(inverses_ok_upto(140)) by {
        reveal_with_fuel(inverses_ok_upto, 21);
    }
    assert(inverses_ok_upto(160)) by {
        reveal_with_fuel(inverses_ok_upto, 21);
    }
    assert(inverses_ok_upto(180)) by {
        reveal_with_fuel(inverses_ok_upto, 21);
    }
    assert(inverses_ok_upto(200)) by {
        reveal_with_fuel(inverses_ok_upto, 21);
    }
    assert(inverses_ok_upto(220)) by {
        reveal_with_fuel(inverses_ok_upto, 21);
    }
    assert(inverses_ok_upto(240)) by {
        reveal_with_fuel(inverses_ok_upto, 21);
    }
    lemma_inverses_ok_upto(240, i);
}

proof fn lemma_inverses_ok_upto(n: nat, i: int)
    requires
        inverses_ok_upto(n),
        0 <= i < n,
    ensures
        inverse_entry_ok(INVERSE_2[i]),
    decreases n,
{
    if i < n - 1 {
        lemma_inverses_ok_upto((n - 1) as nat, i);
    }
}

/// The reduction steps of the accurate logarithm run without overflow on
/// every positive finite argument: the table index is in range, the
/// product with the tabulated inverse, the subtraction of one and the
/// multiple of `log(2)` never overflow. (What follows them, the polynomial
/// and the two final sums, is not covered.)
pub proof fn law_log_2_reduction_ok(x: u64)
    requires
        f64_sign(x) == 0,
        f64_exp(x) < 0x7ff,
        !f64_is_zero(x),
    ensures
        ({
            let d = fromd_spec(x);
            let idx = log_2_index(d);
            let prod = mul_spec(log_2_reduced(d), entry(INVERSE_2[idx]));
            &&& d.hi >= 0x4000_0000_0000_0000
            &&& 0 <= idx < 240
            &&& log_2_exp(d) <= i64::MAX
            &&& mul_ok(log_2_reduced(d), entry(INVERSE_2[idx]))
            &&& add_ok(entry(M_ONE), prod)
            &&& mul2_ok(entry(LOG2), log_2_exp(d) as i64)
        }),
{
    let d = fromd_spec(x);
    lemma_fromd_fields(x);
    let idx = log_2_index(d);
    let i = d.hi as int / 0x80_0000_0000_0000;
    assert(256 <= i < 512) by {
        lemma_div_is_ordered(0x8000_0000_0000_0000, d.hi as int, 0x80_0000_0000_0000);
        lemma_div_is_ordered(d.hi as int, 0xffff_ffff_ffff_ffff, 0x80_0000_0000_0000);
    }
    if d.hi > sqrt2_hi() {
        lemma_div_is_ordered(sqrt2_hi() as int, d.hi as int, 0x80_0000_0000_0000);
    } else {
        lemma_div_is_ordered(d.hi as int, sqrt2_hi() as int, 0x80_0000_0000_0000);
    }
    assert(0 <= idx < 240);
    lemma_inverses_ok(idx);
    let r = log_2_reduced(d);
    let inv = entry(INVERSE_2[idx]);
    assert(-1 <= r.ex <= 0);
    lemma_product_near_one(r, inv);
    let prod = mul_spec(r, inv);
    assert(mul_ok(r, inv));
    lemma_sub_one_ok(prod);
}

/// The product of the reduced argument and a tabulated inverse: normalized,
/// unsigned, with an exponent between `-3` and `2` and a significand below
/// `2^128 - 1`.
proof fn lemma_product_near_one(r: DInt64, inv: DInt64)
    requires
        r.hi >= 0x8000_0000_0000_0000,
        r.lo == 0,
        r.sign == 0,
        -1 <= r.ex <= 0,
        inv.hi >= 0x8000_0000_0000_0000,
        inv.lo == 0,
        inv.sign == 0,
        -1 <= inv.ex <= 1,
    ensures
        mul_spec(r, inv).hi >= 0x8000_0000_0000_0000,
        mul_spec(r, inv).sig() <= 0xffff_ffff_ffff_ffff_ffff_ffff_ffff_fffe,
        mul_spec(r, inv).sign == 0,
        -3 <= mul_spec(r, inv).ex <= 2,
{
    law_mul_wf(r, inv);
    lemma_mul_parts(r.hi, r.lo, inv.hi, inv.lo);
    let h = r.hi as nat * inv.hi as nat;
    let big: int = 0x1_0000_0000_0000_0000_0000_0000_0000_0000int;
    let p = r.sig() * inv.sig() - r.lo as nat * inv.lo as nat;
    assert(r.hi as nat * 0 == 0 && 0 * inv.hi as nat == 0 && 0 * 0 == 0) by {
        lemma_mul_basics(r.hi as int);
        lemma_mul_basics(inv.hi as int);
    }
    assert(p == h * big);
    let q = mul_q(r, inv);
    assert((2 * h) * 0x8000_0000_0000_0000_0000_0000_0000_0000int == h * big) by (nonlinear_arith)
        requires
            big == 0x1_0000_0000_0000_0000_0000_0000_0000_0000int,
    ;
    lemma_fundamental_div_mod_converse(p as int, 0x8000_0000_0000_0000_0000_0000_0000_0000int,
        (2 * h) as int, 0);
    assert(q == 2 * h);
    let s: nat = if q < big { q } else { (q + 1) / 2 };
    assert(s <= big - 2);
    lemma_xor_bits();
    let m = mul_spec(r, inv);
    assert(m.sig() == s) by {
        lemma_fundamental_div_mod(s as int, two64() as int);
        lemma_div_is_ordered(s as int, big - 1, two64() as int);
    }
    assert(h >= 0x4000_0000_0000_0000_0000_0000_0000_0000) by {
        lemma_mul_inequality(0x8000_0000_0000_0000, r.hi as int, inv.hi as int);
        lemma_mul_inequality(0x8000_0000_0000_0000, inv.hi as int, 0x8000_0000_0000_0000);
        lemma_mul_is_commutative(0x8000_0000_0000_0000, inv.hi as int);
    }
    assert(m.sig() > 0);
}

/// Subtracting one from the product never overflows.
proof fn lemma_sub_one_ok(prod: DInt64)
    requires
        prod.hi >= 0x8000_0000_0000_0000,
        prod.sig() <= 0xffff_ffff_ffff_ffff_ffff_ffff_ffff_fffe,
        prod.sign == 0,
        -3 <= prod.ex <= 2,
    ensures
        add_ok(entry(M_ONE), prod),
{
    let one = entry(M_ONE);
    assert(one.sig() == 0x8000_0000_0000_0000_0000_0000_0000_0000);
    assert(prod.sig() >= 0x8000_0000_0000_0000_0000_0000_0000_0000);
    lemma_xor_bits();
    if one.ex == prod.ex && one.sig() == prod.sig() {
    } else if lex_less(one, prod) {
        lemma_big_small_ok(prod, one);
    } else {
        lemma_big_small_ok(one, prod);
    }
}

/// The sum of two normalized values of opposite signs and nearby
/// exponents, `big` the larger, runs without overflow when the smaller
/// significand is below `2^128 - 1`.
proof fn lemma_big_small_ok(big: DInt64, small: DInt64)
    requires
        big.sig() >= 0x8000_0000_0000_0000_0000_0000_0000_0000,
        small.sig() >= 0x8000_0000_0000_0000_0000_0000_0000_0000,
        small.sig() <= 0xffff_ffff_ffff_ffff_ffff_ffff_ffff_fffe,
        big.sign ^ small.sign == 1,
        -3 <= big.ex <= 2,
        -3 <= small.ex <= 2,
        !lex_less(big, small),
        !(big.ex == small.ex && big.sig() == small.sig()),
    ensures
        add_big_ok(big, small),
{
    let sh = add_shift(big, small);
    let b = small.sig();
    if big.ex > small.ex {
        assert(1 <= sh <= 5);
        lemma_pow2_pos((sh - 1) as nat);
        lemma_pow2_pos(sh as nat);
        let b1 = b + (b / pow2((sh - 1) as nat)) % 2;
        assert(b1 <= 0xffff_ffff_ffff_ffff_ffff_ffff_ffff_ffff);
        assert(pow2(sh as nat) >= 2) by {
            lemma_pow2_unfold(sh as nat);
        }
        lemma_div_is_ordered_by_denominator(b1 as int, 2, pow2(sh as nat) as int);
        assert(add_aligned(big, small) < 0x8000_0000_0000_0000_0000_0000_0000_0000);
    } else {
        assert(big.ex == small.ex);
        assert(add_aligned(big, small) == b);
    }
    let c = add_raw(big, small);
    assert(c > 0);
    lemma_bit_len_bounds(c);
}

/// A polynomial coefficient is normalized, with an exponent between `-4`
/// and `0`.
pub open spec fn coefficient_ok(t: (u64, u64, i64, u64)) -> bool {
    t.0 >= 0x8000_0000_0000_0000 && -4 <= t.2 <= 0 && t.3 <= 1
}

/// Every polynomial coefficient is as `coefficient_ok` says.
proof fn lemma_coefficients_ok(k: int)
    requires
        0 <= k < 13,
    ensures
        coefficient_ok(P_2[k]),
{
    assert(coefficient_ok(P_2[0]) && coefficient_ok(P_2[1]) && coefficient_ok(P_2[2])
        && coefficient_ok(P_2[3]) && coefficient_ok(P_2[4]) && coefficient_ok(P_2[5])
        && coefficient_ok(P_2[6]) && coefficient_ok(P_2[7]) && coefficient_ok(P_2[8])
        && coefficient_ok(P_2[9]) && coefficient_ok(P_2[10]) && coefficient_ok(P_2[11])
        && coefficient_ok(P_2[12]));
}

/// A product with a zero significand has a zero significand, and its
/// exponent stays small.
proof fn lemma_mul_zero(z: DInt64, h: DInt64)
    requires
        z.hi == 0,
        z.lo == 0,
        z.ex == 0,
        -4 <= h.ex <= 0,
    ensures
        mul_ok(z, h),
        mul_spec(z, h).sig() == 0,
        -4 <= mul_spec(z, h).ex <= 0,
{
    lemma_mul_parts(z.hi, z.lo, h.hi, h.lo);
    assert(z.sig() == 0);
    assert(0 * h.sig() == 0 && 0 * h.lo as nat == 0) by {
        lemma_mul_basics(h.sig() as int);
        lemma_mul_basics(h.lo as int);
    }
    assert(mul_q(z, h) == 0);
    lemma_fundamental_div_mod_converse(0, two64() as int, 0, 0);
}

/// At zero, the Horner evaluation gives each coefficient back, without
/// overflow.
proof fn lemma_horner_at_zero(k: nat)
    requires
        k <= 12,
    ensures
        horner(zero_spec(), k) == entry(P_2[k as int]),
        horner_ok(zero_spec(), k),
    decreases k,
{
    lemma_coefficients_ok(k as int);
    if k > 0 {
        lemma_horner_at_zero((k - 1) as nat);
        lemma_coefficients_ok(k - 1);
        lemma_mul_zero(zero_spec(), entry(P_2[k - 1]));
        assert(entry(P_2[k as int]).sig() != 0);
    }
}

/// `mul2` by a small nonzero integer keeps the exponent of `log(2)` between
/// `-1` and `10`, with a sign bit.
proof fn lemma_log2_multiple(k: i64)
    requires
        k != 0,
        -1100 <= k <= 1100,
    ensures
        mul2_ok(entry(LOG2), k),
        tod_ok(mul2_spec(entry(LOG2), k)),
{
    let a = entry(LOG2);
    let c = abs_i64(k);
    let p = a.hi as nat * c;
    lemma2_to64();
    lemma2_to64_rest();
    assert(p >= a.hi) by {
        lemma_mul_inequality(1, c as int, a.hi as int);
        lemma_mul_is_commutative(c as int, a.hi as int);
    }
    assert(p < pow2(75)) by {
        lemma_mul_strict_inequality(c as int, 2048, a.hi as int);
        lemma_mul_is_commutative(c as int, a.hi as int);
        lemma_pow2_adds(64, 11);
    }
    if p >= two64() {
        lemma_bit_len_le(p, 75);
        lemma_bit_len_bounds(p);
        if bit_len(p) <= 64 {
            lemma_pow2_increases_le(bit_len(p), 64);
        }
    }
    let m = mul2_shift(a, k);
    assert(53 <= m <= 64);
    lemma_xor_bits();
}

/// `pow2` grows, or stays.
proof fn lemma_pow2_increases_le(a: nat, b: nat)
    requires
        a <= b,
    ensures
        pow2(a) <= pow2(b),
{
    if a < b {
        lemma_pow2_strictly_increases(a, b);
    }
}

/// The accurate logarithm of a normal power of two `2^k` (other than `1`)
/// runs without overflow, and gives `k * log(2)` rounded once: the
/// reduction is exact, and the polynomial part vanishes.
pub proof fn law_cr_log_accurate_powers_of_two(x: u64)
    requires
        f64_sign(x) == 0,
        0 < f64_exp(x) < 0x7ff,
        f64_frac(x) == 0,
        x != one_bits(),
    ensures
        cr_log_accurate_ok(x),
        cr_log_accurate_spec(x) == tod_spec(mul2_spec(entry(LOG2), (f64_exp(x) - 1023) as i64)),
{
    lemma2_to64();
    lemma2_to64_rest();
    assert(!f64_is_zero(x)) by {
        crate::arith::lemma_u64_bits(x);
    }
    let d = fromd_spec(x);
    lemma_fromd_fields(x);
    assert(f64_mant(x) == 0x10_0000_0000_0000);
    lemma_bit_len_unique(0x10_0000_0000_0000, 53);
    assert(d.hi == 0x8000_0000_0000_0000) by {
        lemma_pow2_adds(52, 11);
    }
    let k = f64_exp(x) - 1023;
    assert(d.ex == k);
    assert(k != 0) by {
        crate::arith::lemma_u64_bits(x);
        if k == 0 {
            assert(x as nat == f64_sign(x) * 0x8000_0000_0000_0000 + f64_exp(x) * 0x10_0000_0000_0000
                + f64_frac(x)) by {
                lemma_fundamental_div_mod(x as int, 0x10_0000_0000_0000);
                lemma_fundamental_div_mod(x as int / 0x10_0000_0000_0000, 0x800);
                lemma_fundamental_div_mod(x as int, 0x8000_0000_0000_0000);
                lemma_div_denominator(x as int, 0x10_0000_0000_0000, 0x800);
            }
        }
    }
    law_log_2_reduction_ok(x);
    assert(log_2_index(d) == 128);
    let r = log_2_reduced(d);
    let inv = entry(INVERSE_2[128]);
    assert(inv == DInt64 { hi: 0x8000_0000_0000_0000, lo: 0, ex: 0, sign: 0 });
    let prod = mul_spec(r, inv);
    lemma_exact_product(r, inv);
    assert(log_2_z(d) == zero_spec()) by {
        lemma_xor_bits();
        assert(r == (DInt64 { hi: 0x8000_0000_0000_0000, lo: 0, ex: 0, sign: 0 }));
        assert(prod.sig() == 0x8000_0000_0000_0000_0000_0000_0000_0000int);
        assert(entry(M_ONE).sig() == 0x8000_0000_0000_0000_0000_0000_0000_0000int);
        assert(entry(M_ONE).ex == prod.ex);
    }
    lemma_horner_at_zero(12);
    lemma_coefficients_ok(12);
    lemma_mul_zero(zero_spec(), entry(P_2[12]));
    assert(pow2_ok(zero_spec()));
    let pz = pow2_spec(zero_spec());
    assert(entry(LOG_INV_2[128]).sig() == 0);
    lemma_log2_multiple(k as i64);
    assert(log_2_ok(d));
}

/// The reduced argument `1` times the tabulated inverse `1` is `1` exactly.
proof fn lemma_exact_product(r: DInt64, inv: DInt64)
    requires
        r == (DInt64 { hi: 0x8000_0000_0000_0000, lo: 0, ex: 0, sign: 0 }),
        inv == (DInt64 { hi: 0x8000_0000_0000_0000, lo: 0, ex: 0, sign: 0 }),
    ensures
        mul_spec(r, inv) == (DInt64 { hi: 0x8000_0000_0000_0000, lo: 0, ex: 0, sign: 0 }),
{
    let big: int = 0x1_0000_0000_0000_0000_0000_0000_0000_0000int;
    assert(r.sig() == 0x8000_0000_0000_0000_0000_0000_0000_0000int);
    assert(r.sig() * inv.sig() == 0x4000_0000_0000_0000_0000_0000_0000_0000_0000_0000_0000_0000_0000_0000_0000_0000int)
        by (nonlinear_arith)
        requires
            r.sig() == 0x8000_0000_0000_0000_0000_0000_0000_0000int,
            inv.sig() == 0x8000_0000_0000_0000_0000_0000_0000_0000int,
    ;
    assert(0 * 0 == 0);
    assert(mul_q(r, inv) == 0x8000_0000_0000_0000_0000_0000_0000_0000int);
    lemma_xor_bits();
    lemma_fundamental_div_mod_converse(0x8000_0000_0000_0000_0000_0000_0000_0000int, two64() as int,
        0x8000_0000_0000_0000, 0);
}

} // verus!
