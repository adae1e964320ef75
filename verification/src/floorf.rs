//! Rounding of binary32 values toward negative infinity.
use vstd::prelude::*;
use vstd::arithmetic::power2::*;
use vstd::arithmetic::div_mod::*;
use vstd::arithmetic::mul::*;
use vstd::bits::{lemma_u32_shr_is_div, lemma_u32_low_bits_mask_is_mod};
use crate::arith::{lemma_u32_bits, lemma_u32_and_not};
use crate::ceilf::{div_ceil_pow2, lemma_pow2_strictly_increases_or_eq, lemma_f32_fields, lemma_f32_split, lemma_mod_fraction, lemma_round_fraction, lemma_split_2_23};
use crate::float_bits::{f32_exp, f32_frac, f32_sig, f32_sign, f32_scale, f32_is_signed_int};

verus! {

/// The magnitude bits of a binary32 pattern.
pub const UF_ABS: u32 = 0x7fff_ffff;

/// The bit pattern of the smallest positive normal binary32 value.
pub const UF_MIN: u32 = 0x0080_0000;

/// The bit pattern of positive infinity.
pub const UF_INF: u32 = 0x7f80_0000;

/// What `floorf` promises of its result `r` for the argument `x`: values
/// that are integers already and infinities come back unchanged, a NaN
/// comes back quieted; otherwise `r` is the integer below the value, with
/// the sign of `x`.
pub open spec fn floorf_post(x: u32, r: u32) -> bool {
    &&& f32_exp(x) >= 150 ==> r == (if f32_exp(x) == 0xff && f32_frac(x) != 0 {
        x as nat + if (x as nat / 0x40_0000) % 2 == 0 { 0x40_0000nat } else { 0 }
    } else {
        x as nat
    })
    &&& f32_exp(x) < 150 ==> f32_is_signed_int(
        r,
        x,
        if f32_sign(x) == 0 {
            f32_sig(x) / pow2(f32_scale(x) as nat)
        } else {
            div_ceil_pow2(f32_sig(x), f32_scale(x) as nat)
        },
    )
}

/// Return x rounded toward -inf to integral value
///
/// Method:
/// Bit twiddling, on the bit pattern of `x`.
pub fn floorf(x: u32) -> (r: u32)
    ensures
        floorf_post(x, r),
{
    let mut i0 = x;
    proof {
        lemma_u32_bits(x);
        lemma2_to64();
        lemma2_to64_rest();
    }
    let sign = (i0 >> 31) != 0;
    let ix = i0 & UF_ABS;
    let j0 = ((ix >> 23) as i32) - 0x7f;
    if j0 < 23 {
        if j0 < 0 {
            /* return 0*sign(x) if |x|<1 */
            proof {
                lemma_floor_small(x);
            }
            if !sign {
                i0 = 0;
            } else if ix != 0 {
                i0 = 0xbf80_0000;
            }
        } else {
            let ghost k: nat = (23 - j0) as nat;
            proof {
                lemma_u32_shr_is_div(0x7f_ffff, j0 as u32);
                lemma_u32_shr_is_div(UF_MIN, j0 as u32);
                lemma_pow2_adds(k, j0 as nat);
                lemma_pow2_pos(j0 as nat);
                lemma_pow2_pos(k);
                lemma_mul_is_distributive_sub_other_way(pow2(j0 as nat) as int, pow2(k) as int, 1);
                lemma_fundamental_div_mod_converse(0x7f_ffff, pow2(j0 as nat) as int,
                    pow2(k) as int - 1, pow2(j0 as nat) as int - 1);
                lemma_fundamental_div_mod_converse(0x80_0000, pow2(j0 as nat) as int,
                    pow2(k) as int, 0);
            }
            let i = (0x_007f_ffff >> (j0 as u32)) as u32;
            assert(i == pow2(k) - 1);
            proof {
                lemma_u32_low_bits_mask_is_mod(i0, k);
            }
            if (i0 & i) == 0 {
                /* x is integral */
                proof {
                    lemma_floor_integral(x, k);
                }
                return x;
            }
            /* 1e30 + x > 0 holds here, as |x| < 2^23: the test only raises
            the inexact flag */
            if sign {
                i0 += UF_MIN >> (j0 as u32);
            }
            proof {
                lemma_u32_low_bits_mask_is_mod(i0, k);
                lemma_u32_and_not(i0, i);
                lemma_round_fraction(x, k, f32_sign(x) == 1, pow2(k) as int, i0);
            }
            i0 &= !i;
        }
    } else {
        proof {
            lemma_u32_bits(ix);
            lemma_mod_mod(x as int, 0x80_0000, 0x100);
            lemma_f32_split(x);
        }
        /* inf or NaN: x + x keeps an infinity and quiets a NaN */
        return if ix >= UF_INF {
            if (ix & 0x7f_ffff) != 0 {
                x | 0x0040_0000
            } else {
                x
            }
        } else {
            x /* x is integral */
        };
    }
    i0
}

/// Below one in magnitude the floor is `0` for a nonnegative value, `-1`
/// for a negative nonzero one, and a negative zero stays as it is.
proof fn lemma_floor_small(x: u32)
    requires
        f32_exp(x) < 127,
    ensures
        f32_sign(x) == 0 ==> floorf_post(x, 0),
        f32_sign(x) != 0 && x as nat % 0x8000_0000 != 0 ==> floorf_post(x, 0xbf80_0000),
        f32_sign(x) != 0 && x as nat % 0x8000_0000 == 0 ==> floorf_post(x, x),
{
    lemma_f32_split(x);
    lemma2_to64();
    let k = f32_scale(x) as nat;
    assert(k >= 24);
    lemma_pow2_strictly_increases_or_eq(24, k);
    let p = pow2(k) as int;
    let sig = f32_sig(x) as int;
    assert(sig < 0x100_0000);
    lemma_fundamental_div_mod_converse(sig, p, 0, sig);
    if sig == 0 {
        lemma_fundamental_div_mod_converse(sig + p - 1, p, 0, p - 1);
    } else {
        lemma_fundamental_div_mod_converse(sig + p - 1, p, 1, sig - 1);
    }
    lemma_f32_fields(0, 0, 0, 0);
    lemma_f32_fields(0xbf80_0000, 1, 127, 0);
    assert(pow2(23) == 0x80_0000);
}

/// An argument whose fraction bits below the unit are clear is its own
/// floor.
proof fn lemma_floor_integral(x: u32, k: nat)
    requires
        127 <= f32_exp(x) < 150,
        k == 150 - f32_exp(x),
        x as nat % pow2(k) == 0,
    ensures
        floorf_post(x, x),
{
    lemma_mod_fraction(x, k);
    lemma_split_2_23(k);
    let p = pow2(k) as int;
    let sig = 0x80_0000 + f32_frac(x) as int;
    assert(f32_sig(x) == sig);
    lemma_fundamental_div_mod(sig, p);
    lemma_fundamental_div_mod_converse(sig + p - 1, p, sig / p, p - 1);
    assert(sig / p >= 1);
    lemma_mul_is_commutative(sig / p, p);
}

} // verus!
