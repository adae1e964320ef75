//! Rounding of binary32 values toward positive infinity.
use vstd::prelude::*;
use vstd::arithmetic::power2::*;
use vstd::arithmetic::div_mod::*;
use vstd::arithmetic::mul::*;
use vstd::bits::{lemma_u32_shr_is_div, lemma_u32_low_bits_mask_is_mod, low_bits_mask};
use crate::arith::{lemma_u32_bits, lemma_u32_and_not};
use crate::float_bits::{f32_exp, f32_frac, f32_sig, f32_sign, f32_scale, f32_is_signed_int};

verus! {

/// `n / 2^k` rounded up.
pub open spec fn div_ceil_pow2(n: nat, k: nat) -> nat {
    (n + pow2(k) - 1) as nat / pow2(k)
}

/// What `ceilf` promises of its result `r` for the argument `x`: values
/// that are integers already, infinities and NaNs come back unchanged;
/// otherwise `r` is the integer above the value, with the sign of `x`.
pub open spec fn ceilf_post(x: u32, r: u32) -> bool {
    &&& f32_exp(x) >= 150 ==> r == x
    &&& f32_exp(x) < 150 ==> f32_is_signed_int(
        r,
        x,
        if f32_sign(x) == 0 {
            div_ceil_pow2(f32_sig(x), f32_scale(x) as nat)
        } else {
            f32_sig(x) / pow2(f32_scale(x) as nat)
        },
    )
}

/// The smallest integer not below `x`, for a binary32 value given by its
/// bit pattern.
pub fn ceilf(x: u32) -> (r: u32)
    ensures
        ceilf_post(x, r),
{
    let mut ui = x;
    proof {
        lemma_u32_bits(x);
        lemma2_to64();
        lemma2_to64_rest();
    }
    let e = (((ui >> 23) & 0xff) as i32) - 0x7f;
    if e >= 23 {
        return x;
    }
    if e >= 0 {
        let ghost k: nat = (23 - e) as nat;
        proof {
            lemma_u32_shr_is_div(0x7f_ffff, e as u32);
            lemma_pow2_adds(k, e as nat);
            lemma_pow2_pos(e as nat);
            lemma_pow2_pos(k);
            lemma_mul_is_distributive_sub_other_way(pow2(e as nat) as int, pow2(k) as int, 1);
            lemma_fundamental_div_mod_converse(0x7f_ffff, pow2(e as nat) as int,
                pow2(k) as int - 1, pow2(e as nat) as int - 1);
        }
        let m = 0x007f_ffff >> (e as u32);
        assert(m == pow2(k) - 1);
        proof {
            lemma_u32_low_bits_mask_is_mod(ui, k);
        }
        if (ui & m) == 0 {
            proof {
                lemma_ceil_integral(x, k);
            }
            return x;
        }
        let ghost u0 = ui;
        if ui >> 31 == 0 {
            ui += m;
        }
        proof {
            lemma_u32_low_bits_mask_is_mod(ui, k);
            lemma_u32_and_not(ui, m);
            lemma_round_fraction(x, k, f32_sign(x) == 0, pow2(k) - 1, ui);
        }
        ui &= !m;
    } else {
        if ui >> 31 != 0 {
            proof {
                lemma_ceil_small(x);
            }
            return 0x8000_0000;
        } else if ui << 1 != 0 {
            proof {
                lemma_ceil_small(x);
                lemma_u32_bits(0x3f80_0000);
            }
            return 0x3f80_0000;
        }
        proof {
            lemma_ceil_small(x);
        }
    }
    ui
}

/// The fields of a binary32 pattern assembled from a sign, an exponent
/// field and a fraction.
pub proof fn lemma_f32_fields(r: u32, sg: nat, e: nat, f: nat)
    requires
        sg <= 1,
        e < 0x100,
        f < 0x80_0000,
        r == sg * 0x8000_0000 + e * 0x80_0000 + f,
    ensures
        f32_sign(r) == sg,
        f32_exp(r) == e,
        f32_frac(r) == f,
        r as nat % 0x8000_0000 == e * 0x80_0000 + f,
{
    lemma_fundamental_div_mod_converse(r as int, 0x8000_0000, sg as int, (e * 0x80_0000 + f) as int);
    lemma_fundamental_div_mod_converse(r as int, 0x80_0000, (sg * 0x100 + e) as int, f as int);
    lemma_fundamental_div_mod_converse((sg * 0x100 + e) as int, 0x100, sg as int, e as int);
}

/// The fields of an argument.
pub proof fn lemma_f32_split(x: u32)
    ensures
        f32_sign(x) <= 1,
        x == f32_sign(x) * 0x8000_0000 + f32_exp(x) * 0x80_0000 + f32_frac(x),
        x as nat % 0x8000_0000 == f32_exp(x) * 0x80_0000 + f32_frac(x),
{
    lemma_u32_bits(x);
}

/// Powers of two that split `2^23`.
pub proof fn lemma_split_2_23(k: nat)
    requires
        1 <= k <= 23,
    ensures
        pow2(k) * pow2((23 - k) as nat) == 0x80_0000,
        pow2(k) >= 2,
        pow2((23 - k) as nat) >= 1,
        pow2(k) == 2 * pow2((k - 1) as nat),
{
    lemma2_to64();
    lemma_pow2_adds(k, (23 - k) as nat);
    lemma_pow2_pos((23 - k) as nat);
    lemma_pow2_unfold(k);
    lemma_pow2_pos((k - 1) as nat);
}

/// The remainder of an argument by `2^k` is that of its fraction.
pub proof fn lemma_mod_fraction(x: u32, k: nat)
    requires
        1 <= k <= 23,
    ensures
        x as nat % pow2(k) == f32_frac(x) % pow2(k),
        (0x80_0000 + f32_frac(x)) % pow2(k) == f32_frac(x) % pow2(k),
        (0x80_0000 + f32_frac(x)) / pow2(k) == pow2((23 - k) as nat) + f32_frac(x) / pow2(k),
{
    lemma_f32_split(x);
    lemma_split_2_23(k);
    let p = pow2(k) as int;
    let q = pow2((23 - k) as nat) as int;
    let sg = f32_sign(x) as int * 0x100;
    let hi = sg * q + f32_exp(x) * q;
    assert(x == hi * p + f32_frac(x)) by {
        lemma_mul_is_distributive_add_other_way(p, sg * q, f32_exp(x) * q);
        lemma_mul_is_associative(sg, q, p);
        lemma_mul_is_associative(f32_exp(x) as int, q, p);
        lemma_mul_is_commutative(q, p);
        assert(q * p == 0x80_0000);
        assert(sg * (q * p) == sg * 0x80_0000);
        assert(sg * 0x80_0000 == f32_sign(x) * 0x8000_0000);
        assert(f32_exp(x) * (q * p) == f32_exp(x) * 0x80_0000);
    }
    lemma_mod_multiples_vanish(hi, f32_frac(x) as int, p);
    lemma_mul_is_commutative(hi, p);
    lemma_mod_multiples_vanish(q, f32_frac(x) as int, p);
    lemma_mul_is_commutative(q, p);
    lemma_fundamental_div_mod(f32_frac(x) as int, p);
    lemma_mod_bound(f32_frac(x) as int, p);
    lemma_mul_is_distributive_add_other_way(p, q, f32_frac(x) as int / p);
    lemma_mul_is_commutative(p, f32_frac(x) as int / p);
    lemma_fundamental_div_mod_converse(0x80_0000 + f32_frac(x) as int, p,
        q + f32_frac(x) as int / p, f32_frac(x) as int % p);
}

/// An argument whose fraction bits below the unit are clear is its own
/// ceiling.
proof fn lemma_ceil_integral(x: u32, k: nat)
    requires
        127 <= f32_exp(x) < 150,
        k == 150 - f32_exp(x),
        x as nat % pow2(k) == 0,
    ensures
        ceilf_post(x, x),
{
    lemma_mod_fraction(x, k);
    lemma_split_2_23(k);
    let p = pow2(k) as int;
    let sig = 0x80_0000 + f32_frac(x) as int;
    assert(f32_sig(x) == sig);
    lemma_fundamental_div_mod(sig, p);
    lemma_fundamental_div_mod_converse(sig + p - 1, p, sig / p, p - 1);
    assert(sig / p >= 1);
    lemma_mul_is_commutative(sig / p, p);
}

/// Clearing the fraction bits below the unit of an argument that is not an
/// integer, after adding `d` (`2^k - 1` or `2^k`) when `up` holds: the
/// magnitude is rounded up when `up` holds and down otherwise.
pub proof fn lemma_round_fraction(x: u32, k: nat, up: bool, d: int, u: u32)
    requires
        127 <= f32_exp(x) < 150,
        k == 150 - f32_exp(x),
        x as nat % pow2(k) != 0,
        pow2(k) - 1 <= d <= pow2(k),
        u == x + if up { d } else { 0 },
    ensures
        f32_is_signed_int(
            (u - u as nat % pow2(k)) as u32,
            x,
            if up {
                div_ceil_pow2(f32_sig(x), k)
            } else {
                f32_sig(x) / pow2(k)
            },
        ),
{
    lemma_f32_split(x);
    lemma_mod_fraction(x, k);
    lemma_split_2_23(k);
    let p = pow2(k) as int;
    let q = pow2((23 - k) as nat) as int;
    let e = f32_exp(x) as int;
    let f = f32_frac(x) as int;
    let sig = 0x80_0000 + f;
    let sg = f32_sign(x) as int * 0x100;
    assert(f32_sig(x) == sig);
    lemma_fundamental_div_mod(f, p);
    lemma_mod_bound(f, p);
    let base = f32_sign(x) * 0x8000_0000 + e * 0x80_0000;
    let hq = sg * q + e * q;
    assert(base == hq * p) by {
        lemma_mul_is_distributive_add_other_way(p, sg * q, e * q);
        lemma_mul_is_associative(sg, q, p);
        lemma_mul_is_associative(e, q, p);
        lemma_mul_is_commutative(q, p);
        assert(q * p == 0x80_0000);
        assert(sg * (q * p) == sg * 0x80_0000);
        assert(e * (q * p) == e * 0x80_0000);
    }
    if up {
        let c = f / p + 1;
        assert(f + d == c * p + (f % p - 1 + (d - (p - 1)))) by {
            lemma_mul_is_distributive_add_other_way(p, f / p, 1);
            lemma_mul_is_commutative(p, f / p);
        }
        lemma_fundamental_div_mod_converse(f + d, p, c, f % p - 1 + (d - (p - 1)));
        assert(u == hq * p + (f + d));
        lemma_mod_multiples_vanish(hq, f + d, p);
        lemma_mul_is_commutative(hq, p);
        let r = base + c * p;
        assert(u - u as nat % pow2(k) == r);
        assert(c * p <= 0x80_0000) by {
            if c > q {
                lemma_mul_inequality(q + 1, c, p);
                lemma_mul_is_distributive_add_other_way(p, q, 1);
                lemma_mul_is_commutative(q, p);
                lemma_mul_is_commutative(p, f / p);
                lemma_mul_is_distributive_add_other_way(p, f / p, 1);
            }
            lemma_mul_inequality(c, q, p);
            lemma_mul_is_commutative(q, p);
        }
        let n = div_ceil_pow2(f32_sig(x), k);
        lemma_mul_is_distributive_add_other_way(p, q, c);
        lemma_mul_is_commutative(p, c);
        lemma_mul_is_commutative(q, p);
        lemma_fundamental_div_mod(f + p - 1, p);
        lemma_fundamental_div_mod_converse(f + p - 1, p, c, f % p - 1);
        lemma_fundamental_div_mod_converse(sig + p - 1, p, q + c, f % p - 1);
        assert(n == q + c);
        assert(n * p == q * p + c * p);
        if c * p < 0x80_0000 {
            lemma_f32_fields(r as u32, f32_sign(x), e as nat, (c * p) as nat);
        } else {
            lemma_f32_fields(r as u32, f32_sign(x), (e + 1) as nat, 0);
            let pk1 = pow2((k - 1) as nat) as int;
            assert(n * pk1 == 0x80_0000) by {
                assert(c == q) by {
                    lemma_mul_equality_converse_p(c, q, p);
                }
                lemma_pow2_adds((24 - k) as nat, (k - 1) as nat);
                lemma_pow2_unfold((24 - k) as nat);
                assert(n == pow2((24 - k) as nat));
                lemma2_to64();
            }
        }
    } else {
        let r = base + (f / p) * p;
        assert(u - u as nat % pow2(k) == r) by {
            lemma_mod_multiples_vanish(hq, f, p);
            lemma_mul_is_commutative(hq, p);
            lemma_mul_is_commutative(f / p, p);
        }
        assert((f / p) * p <= f) by {
            lemma_mul_is_commutative(f / p, p);
        }
        lemma_f32_fields(r as u32, f32_sign(x), e as nat, ((f / p) * p) as nat);
        let n = f32_sig(x) / pow2(k);
        assert(n * p == q * p + (f / p) * p) by {
            lemma_mul_is_distributive_add_other_way(p, q, f / p);
        }
        lemma_mul_is_commutative(q, p);
    }
}

/// `c * p == q * p` with `p > 0` gives `c == q`.
proof fn lemma_mul_equality_converse_p(c: int, q: int, p: int)
    requires
        p > 0,
        c * p == q * p,
    ensures
        c == q,
{
    if c < q {
        lemma_mul_strict_inequality(c, q, p);
    } else if c > q {
        lemma_mul_strict_inequality(q, c, p);
    }
}

/// Arguments below one in magnitude.
proof fn lemma_ceil_small(x: u32)
    requires
        f32_exp(x) < 127,
    ensures
        f32_sign(x) != 0 ==> ceilf_post(x, 0x8000_0000),
        f32_sign(x) == 0 && x as nat % 0x8000_0000 != 0 ==> ceilf_post(x, 0x3f80_0000),
        f32_sign(x) == 0 && x as nat % 0x8000_0000 == 0 ==> ceilf_post(x, x),
{
    lemma_f32_split(x);
    lemma2_to64();
    let k = f32_scale(x) as nat;
    assert(k >= 24);
    lemma_pow2_strictly_increases_or_eq(24, k);
    let p = pow2(k) as int;
    let sig = f32_sig(x) as int;
    assert(sig < 0x100_0000);
    lemma_fundamental_div_mod_converse(sig, p, 0, sig);
    if sig == 0 {
        lemma_fundamental_div_mod_converse(sig + p - 1, p, 0, p - 1);
    } else {
        lemma_fundamental_div_mod_converse(sig + p - 1, p, 1, sig - 1);
    }
    lemma_f32_fields(0x8000_0000, 1, 0, 0);
    lemma_f32_fields(0x3f80_0000, 0, 127, 0);
    assert(pow2(23) == 0x80_0000);
}

/// `pow2` is monotone.
pub(crate) proof fn lemma_pow2_strictly_increases_or_eq(a: nat, b: nat)
    requires
        a <= b,
    ensures
        pow2(a) <= pow2(b),
{
    if a < b {
        lemma_pow2_strictly_increases(a, b);
    }
}

} // verus!
