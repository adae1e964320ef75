//! A software floating-point type with a 128-bit significand: exact
//! conversion from binary64, addition, multiplication, polynomial
//! evaluation, and rounding back to binary64.
use vstd::prelude::*;
use core::cmp::Ordering;
use vstd::arithmetic::mul::*;
use vstd::arithmetic::div_mod::*;
use vstd::arithmetic::power2::*;
use vstd::bits::{lemma_u128_shr_is_div, lemma_u64_shl_is_mul};
use vstd::std_specs::bits::u64_leading_zeros;
use crate::float_bits::{f64_exp, f64_frac, f64_mant, f64_is_nan, f64_is_zero, f64_sign, f64_lt_zero};
use crate::log_tables::P_2;
use crate::log::{fast_extract, lt_zero};
use crate::arith::{lemma_i64_as_u64, lemma_u128_bits, lemma_u128_join, lemma_u64_bits, lemma_u16_bits, lemma_u128_shl_mod, bit_len, lemma_bit_len_le, lemma_pow2_128, lemma_bit_len_bounds, lemma_bit_len_unique, lemma_u64_leading_zeros, lemma_u128_shl_is_mul};

verus! {

/// `2^64` as a mathematical integer.
pub open spec fn two64() -> nat {
    0x1_0000_0000_0000_0000
}

/// The value with significand `sig`, exponent `ex` and sign `sign`, each
/// cut to its field's width.
pub open spec fn with_sig(sig: nat, ex: int, sign: nat) -> DInt64 {
    DInt64 {
        lo: (sig % two64()) as u64,
        hi: (sig / two64()) as u64,
        ex: ex as i64,
        sign: sign as u64,
    }
}

/// Float represented as a 128-bit significand and 64-bit exponent.
///
/// The represented value is `(-1)^sign * sig * 2^(ex - 127)`, where
/// `sig = hi * 2^64 + lo`.
#[derive(Clone, Copy, Debug, PartialEq, Eq, Structural)]
pub struct DInt64 {
    pub lo: u64,
    pub hi: u64,
    pub ex: i64,
    pub sign: u64,
}

impl DInt64 {
    /// The 128-bit significand as a natural number.
    pub open spec fn sig(self) -> nat {
        self.hi as nat * two64() + self.lo as nat
    }

    /// The representation invariant kept by the arithmetic: the significand
    /// is normalized or zero, and the sign is a single bit.
    pub open spec fn wf(self) -> bool {
        (self.normalized() || self.sig() == 0) && self.sign <= 1
    }

    /// The significand starts with a 1 bit.
    pub open spec fn normalized(self) -> bool {
        self.hi >= 0x8000_0000_0000_0000u64
    }

    /// Builds a value from a 128-bit significand.
    pub fn new(sig: u128, ex: i64, sign: u64) -> (r: Self)
        ensures
            r == with_sig(sig as nat, ex as int, sign as nat),
            r.sig() == sig,
    {
        let lo = sig as u64;
        let hi = (sig >> 64) as u64;
        proof {
            lemma_u128_bits(sig);
        }
        proof {
            lemma_fundamental_div_mod_converse(sig as int, two64() as int, hi as int, lo as int);
        }
        Self { lo, hi, ex, sign }
    }

    /// The 128-bit significand.
    pub fn u128(&self) -> (r: u128)
        ensures
            r == self.sig(),
    {
        let hi = self.hi;
        let lo = self.lo;
        proof {
            lemma_u128_join(hi, lo);
        }
        ((self.hi as u128) << 64) | self.lo as u128
    }

    /// The value `0`.
    pub fn zero() -> (r: Self)
        ensures
            r == zero_spec(),
    {
        Self { hi: 0x0, lo: 0x0, ex: 0, sign: 0x0 }
    }

    /// The value described by a table entry `(hi, lo, ex, sign)`.
    pub fn from_entry(t: (u64, u64, i64, u64)) -> (r: Self)
        ensures
            r == entry(t),
    {
        Self { hi: t.0, lo: t.1, ex: t.2, sign: t.3 }
    }

    /// Compares exponents, then significands.
    pub fn cmp(&self, other: &Self) -> (r: Ordering)
        ensures
            r == order_of(*self, *other),
    {
        if self.ex != other.ex {
            if self.ex < other.ex {
                Ordering::Less
            } else {
                Ordering::Greater
            }
        } else if self.hi != other.hi {
            if self.hi < other.hi {
                Ordering::Less
            } else {
                Ordering::Greater
            }
        } else if self.lo < other.lo {
            Ordering::Less
        } else if self.lo > other.lo {
            Ordering::Greater
        } else {
            Ordering::Equal
        }
    }

    /// Adds two values.
    pub fn add(&self, other: &Self) -> (r: Self)
        requires
            add_ok(*self, *other),
        ensures
            r == add_spec(*self, *other),
    {
        match self.add_checked(other) {
            Some(r) => r,
            None => DInt64::zero(),
        }
    }

    /// Adds two values; `None` where aligning, adding or normalizing
    /// overflows.
    pub fn add_checked(&self, other: &Self) -> (r: Option<Self>)
        ensures
            r == (if add_ok(*self, *other) { Some(add_spec(*self, *other)) } else { None }),
        decreases (if self.sig() != 0 && other.sig() != 0 && lex_less(*self, *other) {
            1int
        } else {
            0int
        }),
    {
        proof {
            lemma_sig_zero(*self);
            lemma_sig_zero(*other);
        }
        if (self.hi | self.lo) == 0 {
            return Some(other.clone());
        }
        if (other.hi | other.lo) == 0 {
            return Some(self.clone());
        }
        match self.cmp(other) {
            Ordering::Equal => {
                if (self.sign ^ other.sign) != 0 {
                    return Some(DInt64::zero());
                }
                let mut ret = self.clone();
                ret.ex = match ret.ex.checked_add(1) {
                    Some(v) => v,
                    None => {
                        return None;
                    },
                };
                return Some(ret);
            },
            Ordering::Less => {
                return other.add_checked(self);
            },
            Ordering::Greater => {},
        }
        self.add_magnitudes(other)
    }

    /// Adds two nonzero values of which `self` is the larger: aligns the
    /// smaller significand, adds or subtracts, and normalizes.
    fn add_magnitudes(&self, other: &Self) -> (r: Option<Self>)
        requires
            self.sig() != 0,
            other.sig() != 0,
            lex_less(*other, *self),
        ensures
            r == (if add_big_ok(*self, *other) { Some(add_big_spec(*self, *other)) } else { None }),
    {
        let ai = self.u128();
        let mut bi = other.u128();
        let mut m_ex = self.ex;
        if self.ex > other.ex {
            let d = match self.ex.checked_sub(other.ex) {
                Some(v) => v,
                None => {
                    return None;
                },
            };
            let sh: i32 = d as i32;
            if sh <= 128 {
                if sh < 1 {
                    /* a shift by a negative amount */
                    return None;
                }
                let s1 = (sh - 1) as u128;
                proof {
                    lemma_u128_shr_is_div(bi, s1);
                    lemma_u128_bits(bi >> s1);
                }
                bi = match bi.checked_add(0x1 & (bi >> s1)) {
                    Some(v) => v,
                    None => {
                        return None;
                    },
                };
            }
            if sh < 128 {
                let s = sh as u128;
                proof {
                    lemma_u128_shr_is_div(bi, s);
                }
                bi = bi >> s;
            } else {
                bi = 0;
            }
        }
        assert(bi == add_aligned(*self, *other));
        let sign = self.sign as u8;
        let mut c: u128;
        if (self.sign ^ other.sign) != 0 {
            c = match ai.checked_sub(bi) {
                Some(v) => v,
                None => {
                    return None;
                },
            };
        } else {
            match ai.checked_add(bi) {
                Some(sum) => {
                    c = sum;
                },
                None => {
                    c = ai.wrapping_add(bi);
                    let w = c;
                    proof {
                        lemma_u128_bits(w);
                    }
                    assert(w == ai + bi - 0x1_0000_0000_0000_0000_0000_0000_0000_0000int);
                    c = c + (c & 0x1);
                    proof {
                        lemma_u128_bits(c);
                    }
                    c = (1u128 << 127) | (c >> 1);
                    m_ex = match m_ex.checked_add(1) {
                        Some(v) => v,
                        None => {
                            return None;
                        },
                    };
                },
            }
        }
        assert(c == add_raw(*self, *other));
        let hi_c = (c >> 64) as u64;
        let lo_c = (c & 0xffff_ffff_ffff_ffffu128) as u64;
        proof {
            lemma_u128_bits(c);
            lemma_u64_leading_zeros(hi_c);
            lemma_u64_leading_zeros(lo_c);
            lemma_bit_len_split(c as nat, hi_c as nat, lo_c as nat);
        }
        let ex: u64 = if hi_c != 0 {
            hi_c.leading_zeros() as u64
        } else if lo_c != 0 {
            64 + lo_c.leading_zeros() as u64
        } else {
            /* a zero sum keeps a shift of 64 plus the exponent */
            proof {
                lemma_i64_as_u64(self.ex);
            }
            match 64u64.checked_add(self.ex as u64) {
                Some(v) => v,
                None => {
                    return None;
                },
            }
        };
        if ex >= 128 {
            /* a shift by the whole width or more */
            return None;
        }
        assert(ex == norm_shift(c as nat, self.ex as int));
        let c0 = c;
        if c != 0 {
            proof {
                lemma_bit_len_bounds(c as nat);
                lemma_pow2_128();
                lemma_bit_len_le(c as nat, 128);
                let k = bit_len(c as nat);
                lemma_pow2_pos((128 - k) as nat);
                lemma_pow2_adds(k, (128 - k) as nat);
                lemma_mul_strict_inequality(c as int, pow2(k) as int, pow2((128 - k) as nat) as int);
                lemma2_to64_rest();
                lemma_u128_shl_is_mul(c, ex as u128);
            }
        } else {
            proof {
                lemma_u128_shl_is_mul(c, ex as u128);
            }
        }
        c = c << (ex as u128);
        assert(c == (if c0 == 0 { 0 } else { c0 * pow2(ex as nat) }));
        proof {
            lemma_u64_bits(self.sign);
        }
        let e = match m_ex.checked_sub(ex as i64) {
            Some(v) => v,
            None => {
                return None;
            },
        };
        Some(Self::new(c, e, sign as u64))
    }

    /// Multiplies two values, keeping 128 bits of the product.
    pub fn mul(&self, other: &Self) -> (r: Self)
        requires
            mul_ok(*self, *other),
        ensures
            r == mul_spec(*self, *other),
    {
        match self.mul_checked(other) {
            Some(r) => r,
            None => DInt64::zero(),
        }
    }

    /// Multiplies two values, keeping 128 bits of the product; `None` where
    /// the exponent arithmetic overflows.
    pub fn mul_checked(&self, other: &Self) -> (r: Option<Self>)
        ensures
            r == (if mul_ok(*self, *other) { Some(mul_spec(*self, *other)) } else { None }),
    {
        let ha = self.hi;
        let la = self.lo;
        let hb = other.hi;
        let lb = other.lo;
        proof {
            lemma_mul_parts(ha, la, hb, lb);
        }
        let mut t: u128 = ha as u128 * hb as u128;
        let m1: u128 = ha as u128 * lb as u128;
        let m2: u128 = la as u128 * hb as u128;
        let (m, ovf) = match m1.checked_add(m2) {
            Some(s) => (s, false),
            None => (m1.wrapping_add(m2), true),
        };
        let ghost big_m: int = m1 + m2;
        let ghost big_t: int = t + big_m / two64() as int;
        proof {
            assert(big_m == (if ovf { 0x1_0000_0000_0000_0000_0000_0000_0000_0000int } else { 0 }) + m);
            lemma_mul_top(ha as int * hb as int, big_m);
        }
        if ovf {
            t = t + 0x1_0000_0000_0000_0000u128;
        }
        let mhi = m >> 64;
        let mbit = (m & 0xffff_ffff_ffff_ffffu128) >> 63;
        proof {
            lemma_u128_bits(m);
            lemma_split_128(big_m, ovf, m as int);
        }
        t = t + mhi;
        assert(t == big_t);
        let ex: u64 = if (t >> (64 + 63)) == 0 { 1 } else { 0 };
        proof {
            lemma_u128_bits(t);
        }
        if ex != 0 {
            let t0 = t;
            t = t << 1;
            assert(t == t0 * 2) by {
                lemma_u128_bits(t0);
            }
        }
        t = t + mbit;
        proof {
            lemma_div_2_127(ha as int * hb as int, big_m);
            assert(mul_q(*self, *other) == 2 * big_t + mbit);
            lemma_u128_bits(t);
        }
        assert(ex == mul_shift(*self, *other));
        let e = match self.ex.checked_add(other.ex) {
            Some(v) => v,
            None => {
                return None;
            },
        };
        let e = match e.checked_sub(ex as i64) {
            Some(v) => v,
            None => {
                return None;
            },
        };
        let e = match e.checked_add(1) {
            Some(v) => v,
            None => {
                return None;
            },
        };
        Some(Self { lo: t as u64, hi: (t >> 64) as u64, ex: e, sign: self.sign ^ other.sign })
    }

    /// Multiplies by a machine integer.
    pub fn mul2(&self, b: i64) -> (r: Self)
        requires
            mul2_ok(*self, b),
        ensures
            r == mul2_spec(*self, b),
    {
        match self.mul2_checked(b) {
            Some(r) => r,
            None => DInt64::zero(),
        }
    }

    /// Multiplies by a machine integer; `None` where negating the
    /// multiplier or the exponent arithmetic overflows.
    pub fn mul2_checked(&self, b: i64) -> (r: Option<Self>)
        ensures
            r == (if mul2_ok(*self, b) { Some(mul2_spec(*self, b)) } else { None }),
    {
        if b == 0 {
            return Some(DInt64::zero());
        }
        if b == i64::MIN {
            return None;
        }
        let c: u64 = if b < 0 { -b } else { b } as u64;
        let sign = if b < 0 { (self.sign == 0) as u64 } else { self.sign };
        proof {
            lemma_pow2_128();
            assert(c as nat == abs_i64(b));
            assert(self.hi as nat * c as nat <= 0xffff_ffff_ffff_ffff * 0x7fff_ffff_ffff_ffff) by {
                lemma_mul_upper_bound(self.hi as int, 0xffff_ffff_ffff_ffff, c as int, 0x7fff_ffff_ffff_ffff);
            }
        }
        let mut t = self.hi as u128 * c as u128;
        let t_hi = (t >> 64) as u64;
        proof {
            let tt = t;
            assert(t_hi as nat == tt as nat / two64() && tt as nat % two64() < two64()) by {
                lemma_u128_bits(tt);
            }
            lemma_fundamental_div_mod(t as int, two64() as int);
            lemma_u64_leading_zeros(t_hi);
            lemma_bit_len_split(t as nat, t_hi as nat, t as nat % two64());
        }
        let mut m: u32 = if t_hi != 0 { t_hi.leading_zeros() } else { 64 };
        let ghost big_m = m;
        proof {
            assert(m as nat == mul2_shift(*self, b));
            if t_hi != 0 {
                lemma_bit_len_bounds(t as nat);
                lemma_bit_len_le(t as nat, 127);
                let k = bit_len(t as nat);
                lemma_pow2_adds(k, m as nat);
                lemma_pow2_pos(m as nat);
                lemma_mul_strict_inequality(t as int, pow2(k) as int, pow2(m as nat) as int);
            } else {
                lemma_mul_strict_inequality(t as int, two64() as int, two64() as int);
            }
            assert(t as nat * pow2(m as nat) < pow2(128));
            lemma_u128_shl_is_mul(t, m as u128);
        }
        t = t << (m as u128);
        assert(t == self.hi as nat * c as nat * pow2(big_m as nat));
        proof {
            lemma_mul_upper_bound(self.lo as int, 0xffff_ffff_ffff_ffff, c as int, 0x7fff_ffff_ffff_ffff);
        }
        let mut l: u128 = self.lo as u128 * c as u128;
        let ghost l0 = l;
        proof {
            lemma_u128_shl_mod(l, (m - 1) as u128);
            lemma_u128_shr_is_div(l << ((m - 1) as u128), 63);
            lemma2_to64();
        }
        l = (l << ((m - 1) as u128)) >> 63;
        assert(l as nat + t as nat == mul2_sum(*self, b));
        proof {
            let ll = ((l0 as nat * pow2((m - 1) as nat)) % pow2(128)) as int;
            lemma_pow2_pos(63);
            lemma_pow2_pos((m - 1) as nat);
            lemma_mod_bound((l0 as nat * pow2((m - 1) as nat)) as int, pow2(128) as int);
            lemma_div_is_ordered(ll, pow2(128) as int, pow2(63) as int);
            lemma_pow2_128();
            assert(0x1_0000_0000_0000_0000_0000_0000_0000_0000int / 0x8000_0000_0000_0000int
                == 0x2_0000_0000_0000_0000int);
            assert(l as nat <= 0x2_0000_0000_0000_0000);
        }
        let oflow;
        match l.checked_add(t) {
            Some(sum) => {
                t = sum;
                oflow = false;
            },
            None => {
                t = l.wrapping_add(t);
                oflow = true;
            },
        }
        if oflow {
            proof {
                lemma_u128_bits(t);
            }
            t += t & 0x1;
            proof {
                lemma_u128_bits(t);
            }
            t = 1u128 << 127 | t >> 1;
            m -= 1;
        }
        proof {
            lemma_u128_bits(t);
        }
        let e = match self.ex.checked_add(64) {
            Some(v) => v,
            None => {
                return None;
            },
        };
        let e = match e.checked_sub(m as i64) {
            Some(v) => v,
            None => {
                return None;
            },
        };
        Some(Self::new(t, e, sign))
    }

    /// Evaluates `z * P(z)` where `P` is the degree-12 polynomial of `P_2`,
    /// by Horner's scheme.
    pub fn pow2(&self) -> (r: Self)
        requires
            pow2_ok(*self),
        ensures
            r == pow2_spec(*self),
    {
        let z = self;
        let mut r = DInt64::from_entry(P_2[0]);
        let mut k: usize = 1;
        while k < 13
            invariant
                1 <= k <= 13,
                r == horner(*z, (k - 1) as nat),
                pow2_ok(*z),
            decreases 13 - k,
        {
            proof {
                lemma_horner_ok_prefix(*z, k as nat, 12);
            }
            r = z.mul(&r);
            r = DInt64::from_entry(P_2[k]).add(&r);
            k += 1;
        }
        r = z.mul(&r);
        r
    }

    /// Evaluates `z * P(z)` like `pow2`; `None` where a step overflows.
    pub fn pow2_checked(&self) -> (r: Option<Self>)
        ensures
            r == (if pow2_ok(*self) { Some(pow2_spec(*self)) } else { None }),
    {
        let z = self;
        let mut r = DInt64::from_entry(P_2[0]);
        let mut k: usize = 1;
        while k < 13
            invariant
                1 <= k <= 13,
                *z == *self,
                r == horner(*z, (k - 1) as nat),
                horner_ok(*z, (k - 1) as nat),
            decreases 13 - k,
        {
            let t = match z.mul_checked(&r) {
                Some(v) => v,
                None => {
                    proof {
                        lemma_horner_not_ok(*z, k as nat, 12);
                        assert(!pow2_ok(*z));
                    }
                    return None;
                },
            };
            r = match DInt64::from_entry(P_2[k]).add_checked(&t) {
                Some(v) => v,
                None => {
                    proof {
                        lemma_horner_not_ok(*z, k as nat, 12);
                        assert(!pow2_ok(*z));
                    }
                    return None;
                },
            };
            k += 1;
        }
        z.mul_checked(&r)
    }

    /// Converts a nonzero binary64 value, given by its bit pattern, exactly.
    pub fn fromd(x: u64) -> (r: Self)
        requires
            !f64_is_zero(x),
        ensures
            r == fromd_spec(x),
            r.normalized(),
            r.lo == 0,
            r.sign == (if f64_lt_zero(x) { 1u64 } else { 0u64 }),
            -1074 <= r.ex <= 1024,
            r.hi as nat * pow2((r.ex + 1074) as nat) == f64_mant(x) * pow2(
                (if f64_exp(x) == 0 { 1 } else { f64_exp(x) }) + 62,
            ),
    {
        let (mut ex, mut hi) = fast_extract(x);
        let ghost m = hi;
        let t = hi.leading_zeros();
        let sign = lt_zero(x) as u64;
        proof {
            lemma_fromd(x, m, t);
            lemma_u64_shl_is_mul(m, t as u64);
        }
        hi = hi << t;
        ex = ex - if t > 11 { t as i64 - 12 } else { 0 };
        Self { lo: 0, hi, ex, sign }
    }

    /// Rounds to the nearest binary64 value, given by its bit pattern. The
    /// value must be in the normal range, as the results of the logarithm
    /// are.
    pub fn tod(self) -> (r: u64)
        requires
            tod_ok(self),
        ensures
            r == tod_spec(self),
    {
        let hi = self.hi;
        let lo = self.lo;
        /* the upper 53 bits of hi, 1 <= r < 2 once the exponent is set */
        let r: u64 = (hi >> 11) | (0x3ffu64 << 52);
        let frac = r & 0xf_ffff_ffff_ffff;
        /* the round bit, and whether any bit after it is set */
        let round = (hi >> 10) & 0x1 != 0;
        let sticky = (hi & 0x3ff) != 0 || lo != 0;
        /* adding the round and sticky bits as 2^-53 and 2^-54 to r rounds
        to nearest, ties to even */
        let inc: u64 = if round && (sticky || (frac & 0x1) != 0) { 1 } else { 0 };
        proof {
            lemma_u64_bits(hi);
            lemma_u64_bits(frac);
        }
        let sign = self.sign;
        let e: u64 = (self.ex + 1023) as u64;
        proof {
            lemma_u64_bits(sign);
            lemma_u64_bits(e);
        }
        (sign << 63) + (e << 52) + frac + inc
    }
}

/// `a` comes before `b` by exponent, then by significand.
pub open spec fn lex_less(a: DInt64, b: DInt64) -> bool {
    a.ex < b.ex || (a.ex == b.ex && a.sig() < b.sig())
}

/// Orders two values by exponent, then by significand (the order of their
/// magnitudes when both are normalized).
pub open spec fn order_of(a: DInt64, b: DInt64) -> Ordering {
    if lex_less(a, b) {
        Ordering::Less
    } else if a.ex == b.ex && a.sig() == b.sig() {
        Ordering::Equal
    } else {
        Ordering::Greater
    }
}

/// The value `0`.
pub open spec fn zero_spec() -> DInt64 {
    DInt64 { lo: 0, hi: 0, ex: 0, sign: 0 }
}

/// The value described by a table entry `(hi, lo, ex, sign)`.
pub open spec fn entry(t: (u64, u64, i64, u64)) -> DInt64 {
    DInt64 { hi: t.0, lo: t.1, ex: t.2, sign: t.3 }
}

/// The product of the significands without the low-by-low partial product,
/// scaled down by `2^127`: the 129 leading bits of the product.
pub open spec fn mul_q(a: DInt64, b: DInt64) -> nat {
    ((a.sig() * b.sig() - a.lo as nat * b.lo as nat) / 0x8000_0000_0000_0000_0000_0000_0000_0000int) as nat
}

/// Whether the product needs a one-bit left shift to start with a 1 bit.
pub open spec fn mul_shift(a: DInt64, b: DInt64) -> int {
    if mul_q(a, b) < 0x1_0000_0000_0000_0000_0000_0000_0000_0000 { 1 } else { 0 }
}

/// The exponent arithmetic of a product stays within `i64`.
pub open spec fn mul_ok(a: DInt64, b: DInt64) -> bool {
    &&& i64::MIN <= a.ex + b.ex <= i64::MAX
    &&& i64::MIN <= a.ex + b.ex - mul_shift(a, b) <= i64::MAX
    &&& a.ex + b.ex - mul_shift(a, b) + 1 <= i64::MAX
}

/// The product computed by `DInt64::mul`: the leading 128 bits of `mul_q`,
/// rounded half up when `mul_q` has 129 bits.
pub open spec fn mul_spec(a: DInt64, b: DInt64) -> DInt64 {
    let q = mul_q(a, b);
    let s: nat = if q < 0x1_0000_0000_0000_0000_0000_0000_0000_0000 { q } else { (q + 1) / 2 };
    with_sig(s, a.ex + b.ex - mul_shift(a, b) + 1, (a.sign ^ b.sign) as nat)
}

/// The exponent distance of two operands as the sum code reads it: their
/// difference truncated to `i32` when the first one's exponent is larger,
/// else zero.
pub open spec fn add_shift(big: DInt64, small: DInt64) -> int {
    if big.ex > small.ex {
        ((big.ex - small.ex) as i32) as int
    } else {
        0
    }
}

/// The smaller significand brought to the larger exponent: the bit just
/// below the cut is added, then the significand is shifted right by `sh`.
pub open spec fn align_sig(b: nat, sh: int) -> nat {
    if sh <= 0 {
        b
    } else if sh <= 128 {
        let b1 = b + (b / pow2((sh - 1) as nat)) % 2;
        if sh < 128 {
            b1 / pow2(sh as nat)
        } else {
            0
        }
    } else {
        0
    }
}

/// The aligned significand of the smaller operand.
pub open spec fn add_aligned(big: DInt64, small: DInt64) -> nat {
    align_sig(small.sig(), add_shift(big, small))
}

/// The sum (or difference) of the significands before normalization, as
/// 128 bits; a carry out is folded back by halving with rounding up.
pub open spec fn add_raw(big: DInt64, small: DInt64) -> nat {
    let a = big.sig();
    let b = add_aligned(big, small);
    if big.sign ^ small.sign != 0 {
        (a - b) as nat
    } else if a + b < 0x1_0000_0000_0000_0000_0000_0000_0000_0000 {
        a + b
    } else {
        (a + b + 1) / 2
    }
}

/// The exponent of the sum before normalization.
pub open spec fn add_raw_ex(big: DInt64, small: DInt64) -> int {
    let a = big.sig();
    let b = add_aligned(big, small);
    if big.sign ^ small.sign == 0 && a + b >= 0x1_0000_0000_0000_0000_0000_0000_0000_0000 {
        big.ex + 1
    } else {
        big.ex as int
    }
}

/// The left shift that normalizes a raw sum: its number of leading zeros
/// as a 128-bit word, or `64 + ex` for a zero sum.
pub open spec fn norm_shift(c: nat, ex: int) -> int {
    if c == 0 {
        64 + ex
    } else {
        128 - bit_len(c)
    }
}

/// The sum of two nonzero values of which `big` is the larger in
/// `order_of`: aligned, added or subtracted, and normalized.
pub open spec fn add_big_spec(big: DInt64, small: DInt64) -> DInt64 {
    let c = add_raw(big, small);
    let l = norm_shift(c, big.ex as int);
    let sig: nat = if c == 0 { 0 } else { c * pow2(l as nat) };
    with_sig(sig, add_raw_ex(big, small) - l, big.sign as nat % 256)
}

/// The sum of two nonzero values, `big` the larger, runs without overflow.
pub open spec fn add_big_ok(big: DInt64, small: DInt64) -> bool {
    let sh = add_shift(big, small);
    let c = add_raw(big, small);
    &&& big.ex > small.ex ==> {
        &&& big.ex - small.ex <= i64::MAX
        &&& sh >= 1
        &&& sh <= 128 ==> small.sig() + (small.sig() / pow2((sh - 1) as nat)) % 2
            <= u128::MAX
    }
    &&& big.sign ^ small.sign != 0 ==> big.sig() >= add_aligned(big, small)
    &&& add_raw_ex(big, small) <= i64::MAX
    &&& c == 0 ==> 0 <= big.ex <= 63
    &&& add_raw_ex(big, small) - norm_shift(c, big.ex as int) >= i64::MIN
}

/// The sum computed by `DInt64::add`.
pub open spec fn add_spec(a: DInt64, b: DInt64) -> DInt64 {
    if a.sig() == 0 {
        b
    } else if b.sig() == 0 {
        a
    } else if a.ex == b.ex && a.sig() == b.sig() {
        if a.sign ^ b.sign != 0 {
            zero_spec()
        } else {
            DInt64 { ex: (a.ex + 1) as i64, ..a }
        }
    } else if lex_less(a, b) {
        add_big_spec(b, a)
    } else {
        add_big_spec(a, b)
    }
}

/// `DInt64::add` runs without overflow on these operands.
pub open spec fn add_ok(a: DInt64, b: DInt64) -> bool {
    if a.sig() == 0 || b.sig() == 0 {
        true
    } else if a.ex == b.ex && a.sig() == b.sig() {
        a.sign ^ b.sign == 0 ==> a.ex < i64::MAX
    } else if lex_less(a, b) {
        add_big_ok(b, a)
    } else {
        add_big_ok(a, b)
    }
}

/// The magnitude of an `i64` multiplier.
pub open spec fn abs_i64(b: i64) -> nat {
    if b < 0 { (-b) as nat } else { b as nat }
}

/// The left shift that brings the high product `hi * |b|` to 128 bits.
pub open spec fn mul2_shift(a: DInt64, b: i64) -> nat {
    let p = a.hi as nat * abs_i64(b);
    if p >= two64() { (128 - bit_len(p)) as nat } else { 64 }
}

/// The 129-bit sum that `DInt64::mul2` forms: the shifted high product plus
/// the low product shifted by one place less, wrapped to 128 bits and cut
/// at bit 63.
pub open spec fn mul2_sum(a: DInt64, b: i64) -> nat {
    let c = abs_i64(b);
    let m = mul2_shift(a, b);
    let t = a.hi as nat * c * pow2(m);
    let l = ((a.lo as nat * c * pow2((m - 1) as nat)) % pow2(128)) / pow2(63);
    t + l
}

/// The product with a machine integer computed by `DInt64::mul2`.
pub open spec fn mul2_spec(a: DInt64, b: i64) -> DInt64 {
    if b == 0 {
        zero_spec()
    } else {
        let u = mul2_sum(a, b);
        let m = mul2_shift(a, b);
        let s: nat = if u < pow2(128) { u } else { (u + 1) / 2 };
        let ex: int = if u < pow2(128) { a.ex + 64 - m } else { a.ex + 65 - m };
        with_sig(s, ex, if b < 0 {
            if a.sign == 0 { 1 } else { 0 }
        } else {
            a.sign as nat
        })
    }
}

/// `DInt64::mul2` runs without overflow.
pub open spec fn mul2_ok(a: DInt64, b: i64) -> bool {
    b != 0 ==> {
        &&& b != i64::MIN
        &&& a.ex + 64 <= i64::MAX
        &&& a.ex + 65 - mul2_shift(a, b) <= i64::MAX
    }
}

/// The Horner evaluation of the `P_2` polynomial at `z` after `k` steps.
pub open spec fn horner(z: DInt64, k: nat) -> DInt64
    decreases k,
{
    if k == 0 {
        entry(P_2[0])
    } else {
        add_spec(entry(P_2[k as int]), mul_spec(z, horner(z, (k - 1) as nat)))
    }
}

/// The first `k` Horner steps run without overflow.
pub open spec fn horner_ok(z: DInt64, k: nat) -> bool
    decreases k,
{
    k == 0 || {
        &&& horner_ok(z, (k - 1) as nat)
        &&& mul_ok(z, horner(z, (k - 1) as nat))
        &&& add_ok(entry(P_2[k as int]), mul_spec(z, horner(z, (k - 1) as nat)))
    }
}

/// The value computed by `DInt64::pow2`: `z` times the polynomial at `z`.
pub open spec fn pow2_spec(z: DInt64) -> DInt64 {
    mul_spec(z, horner(z, 12))
}

/// `DInt64::pow2` runs without overflow.
pub open spec fn pow2_ok(z: DInt64) -> bool {
    horner_ok(z, 12) && mul_ok(z, horner(z, 12))
}

/// The value built by `DInt64::fromd`: the significand of `x` shifted to
/// start with a 1 bit, the exponent lowered to match.
pub open spec fn fromd_spec(x: u64) -> DInt64 {
    let m = f64_mant(x);
    let t: int = 64 - bit_len(m);
    DInt64 {
        lo: 0,
        hi: (m * pow2(t as nat)) as u64,
        ex: (f64_exp(x) - 1023 - (if t > 11 { t - 12 } else { 0 })) as i64,
        sign: if f64_lt_zero(x) { 1 } else { 0 },
    }
}

/// The 53-bit significand that `DInt64::tod` rounds a normalized value to
/// (`2^53` when rounding carries into the next power of two).
pub open spec fn tod_sig(d: DInt64) -> nat {
    let f = (d.hi as nat / 0x800) % 0x10_0000_0000_0000;
    let round = (d.hi as nat / 0x400) % 2 == 1;
    let sticky = d.hi as nat % 0x400 != 0 || d.lo != 0;
    let inc: nat = if round && (sticky || f % 2 == 1) { 1 } else { 0 };
    0x10_0000_0000_0000 + f + inc
}

/// The binary64 bit pattern that `DInt64::tod` returns: the leading 53 bits
/// of the significand rounded to nearest, ties to even, on the bits below
/// them (a round bit and the sticky rest).
pub open spec fn tod_spec(d: DInt64) -> u64 {
    let f = (d.hi as nat / 0x800) % 0x10_0000_0000_0000;
    let round = (d.hi as nat / 0x400) % 2 == 1;
    let sticky = d.hi as nat % 0x400 != 0 || d.lo != 0;
    let inc: nat = if round && (sticky || f % 2 == 1) { 1 } else { 0 };
    (d.sign * 0x8000_0000_0000_0000 + (d.ex + 1023) * 0x10_0000_0000_0000 + f + inc) as u64
}

/// The value is in the binary64 normal range and has a sign bit.
pub open spec fn tod_ok(d: DInt64) -> bool {
    d.sign <= 1 && -1022 <= d.ex <= 1023
}

/// Bounds and the expansion of a product of two 128-bit significands split
/// into 64-bit halves.
pub proof fn lemma_mul_parts(ha: u64, la: u64, hb: u64, lb: u64)
    ensures
        ha as nat * hb as nat <= 0xffff_ffff_ffff_fffe_0000_0000_0000_0001,
        ha as nat * lb as nat <= 0xffff_ffff_ffff_fffe_0000_0000_0000_0001,
        la as nat * hb as nat <= 0xffff_ffff_ffff_fffe_0000_0000_0000_0001,
        (ha as nat * two64() + la as nat) * (hb as nat * two64() + lb as nat) - la as nat * lb as nat
            == (ha as nat * hb as nat) * (two64() * two64()) + (ha as nat * lb as nat + la as nat
            * hb as nat) * two64(),
{
    let m: int = 0xffff_ffff_ffff_ffff;
    assert(ha as int * hb as int <= m * m) by (nonlinear_arith)
        requires ha <= m, hb <= m;
    assert(ha as int * lb as int <= m * m) by (nonlinear_arith)
        requires ha <= m, lb <= m;
    assert(la as int * hb as int <= m * m) by (nonlinear_arith)
        requires la <= m, hb <= m;
    let x = ha as int;
    let y = la as int;
    let z = hb as int;
    let w = lb as int;
    let d = two64() as int;
    assert((x * d + y) * (z * d + w) == (x * z) * (d * d) + (x * w + y * z) * d + y * w) by {
        lemma_mul_is_distributive_add_other_way(z * d + w, x * d, y);
        lemma_mul_is_distributive_add(x * d, z * d, w);
        lemma_mul_is_distributive_add(y, z * d, w);
        lemma_mul_is_associative(x, d, z * d);
        lemma_mul_is_associative(x, z, d * d);
        lemma_mul_is_associative(z, d, d);
        lemma_mul_is_commutative(d, z * d);
        lemma_mul_is_commutative(d, z);
        lemma_mul_is_associative(d, z, d);
        lemma_mul_is_associative(x, d, w);
        lemma_mul_is_commutative(d, w);
        lemma_mul_is_associative(x, w, d);
        lemma_mul_is_associative(y, z, d);
        lemma_mul_is_distributive_add_other_way(d, x * w, y * z);
    }
}

/// The top 128 bits of a product expanded by `lemma_mul_parts` fit in `u128`.
proof fn lemma_mul_top(h: int, big_m: int)
    requires
        0 <= h <= 0xffff_ffff_ffff_fffe_0000_0000_0000_0001,
        0 <= big_m <= 2 * 0xffff_ffff_ffff_fffe_0000_0000_0000_0001,
    ensures
        h + big_m / two64() as int <= 0xffff_ffff_ffff_ffff_ffff_ffff_ffff_fffd,
{
    assert(big_m / two64() as int <= 0x1_ffff_ffff_ffff_fffc) by {
        lemma_div_is_ordered(big_m, 0x1_ffff_ffff_ffff_fffc_0000_0000_0000_0002int, two64() as int);
        assert(0x1_ffff_ffff_ffff_fffc_0000_0000_0000_0002int / 0x1_0000_0000_0000_0000int == 0x1_ffff_ffff_ffff_fffcint);
    }
}

/// Splits a sum of at most 129 bits into its 128-bit wrap and the bits that
/// the product algorithm reads from it.
proof fn lemma_split_128(big_m: int, ovf: bool, m: int)
    requires
        0 <= m < 0x1_0000_0000_0000_0000_0000_0000_0000_0000int,
        big_m == (if ovf { 0x1_0000_0000_0000_0000_0000_0000_0000_0000int } else { 0 }) + m,
    ensures
        big_m / two64() as int == (if ovf { two64() as int } else { 0 }) + m / two64() as int,
        big_m / 0x8000_0000_0000_0000int == 2 * (big_m / two64() as int)
            + (m % two64() as int) / 0x8000_0000_0000_0000int,
        0 <= (m % two64() as int) / 0x8000_0000_0000_0000int <= 1,
{
    let d = two64() as int;
    let c = if ovf { d } else { 0 };
    lemma_fundamental_div_mod(m, d);
    lemma_fundamental_div_mod_converse(big_m, d, c + m / d, m % d);
    let r = m % d;
    lemma_fundamental_div_mod(r, 0x8000_0000_0000_0000int);
    lemma_fundamental_div_mod_converse(big_m, 0x8000_0000_0000_0000int,
        2 * (c + m / d) + r / 0x8000_0000_0000_0000int, r % 0x8000_0000_0000_0000int);
}

/// Dividing `h * 2^128 + m * 2^64` by `2^127`.
proof fn lemma_div_2_127(h: int, big_m: int)
    requires
        0 <= h,
        0 <= big_m,
    ensures
        (h * 0x1_0000_0000_0000_0000_0000_0000_0000_0000int + big_m * two64()) / 0x8000_0000_0000_0000_0000_0000_0000_0000int
            == 2 * h + big_m / 0x8000_0000_0000_0000int,
{
    let p = 0x8000_0000_0000_0000int;
    lemma_fundamental_div_mod(big_m, p);
    let q = 2 * h + big_m / p;
    let r = (big_m % p) * two64();
    assert(r < 0x8000_0000_0000_0000_0000_0000_0000_0000int) by {
        lemma_mul_strict_inequality(big_m % p, p, two64() as int);
    }
    assert(big_m * two64() == (big_m / p) * 0x8000_0000_0000_0000_0000_0000_0000_0000int + r) by {
        lemma_mul_is_distributive_add_other_way(two64() as int, p * (big_m / p), big_m % p);
        lemma_mul_is_associative(big_m / p, p, two64() as int);
        lemma_mul_is_commutative(big_m / p, p);
    }
    lemma_fundamental_div_mod_converse(
        h * 0x1_0000_0000_0000_0000_0000_0000_0000_0000int + big_m * two64(),
        0x8000_0000_0000_0000_0000_0000_0000_0000int, q, r);
}

/// A raw sum of operands that pass `add_big_ok` fits in 128 bits.
pub proof fn lemma_add_raw_bound(big: DInt64, small: DInt64)
    requires
        add_big_ok(big, small),
    ensures
        add_aligned(big, small) <= u128::MAX,
        add_raw(big, small) <= u128::MAX,
{
    let sh = add_shift(big, small);
    let b = small.sig();
    if sh > 0 && sh <= 128 {
        let b1 = b + (b / pow2((sh - 1) as nat)) % 2;
        if sh < 128 {
            lemma_pow2_pos(sh as nat);
            lemma_div_is_ordered_by_denominator(b1 as int, 1, pow2(sh as nat) as int);
        }
    }
}

/// The significand is zero exactly when both halves are.
proof fn lemma_sig_zero(x: DInt64)
    ensures
        (x.hi | x.lo) == 0 <==> x.sig() == 0,
{
    lemma_u128_join(x.hi, x.lo);
}

/// The binary length of a 128-bit word from the binary lengths of its halves.
proof fn lemma_bit_len_split(c: nat, h: nat, l: nat)
    requires
        c == h * two64() + l,
        l < two64(),
    ensures
        h != 0 ==> bit_len(c) == 64 + bit_len(h),
        h == 0 ==> bit_len(c) == bit_len(l),
{
    if h != 0 {
        lemma_bit_len_bounds(h);
        let k = bit_len(h);
        lemma_pow2_adds(64, (k - 1) as nat);
        lemma_pow2_adds(64, k);
        lemma2_to64();
        assert(pow2(64) == two64());
        lemma_mul_inequality(pow2((k - 1) as nat) as int, h as int, two64() as int);
        lemma_mul_inequality(h as int + 1, pow2(k) as int, two64() as int);
        lemma_mul_is_commutative(pow2((k - 1) as nat) as int, two64() as int);
        lemma_mul_is_commutative(pow2(k) as int, two64() as int);
        lemma_bit_len_unique(c, 64 + k);
    }
}

/// A Horner evaluation that runs without overflow does so on every prefix.
proof fn lemma_horner_ok_prefix(z: DInt64, k: nat, n: nat)
    requires
        k <= n,
        horner_ok(z, n),
    ensures
        horner_ok(z, k),
    decreases n - k,
{
    if k < n {
        lemma_horner_ok_prefix(z, k, (n - 1) as nat);
    }
}

/// A Horner evaluation whose `k`-th step overflows overflows as a whole.
proof fn lemma_horner_not_ok(z: DInt64, k: nat, n: nat)
    requires
        1 <= k <= n,
        horner_ok(z, (k - 1) as nat),
        !(mul_ok(z, horner(z, (k - 1) as nat)) && add_ok(entry(P_2[k as int]), mul_spec(z, horner(z, (k - 1) as nat)))),
    ensures
        !horner_ok(z, n),
    decreases n - k,
{
    if k < n {
        lemma_horner_not_ok(z, k, (n - 1) as nat);
    }
}

/// The fields of the conversion of a nonzero binary64 value: a normalized
/// significand with no low word, and an exponent between `-1074` and `1024`.
pub(crate) proof fn lemma_fromd_fields(x: u64)
    requires
        !f64_is_zero(x),
    ensures
        fromd_spec(x).normalized(),
        fromd_spec(x).lo == 0,
        -1074 <= fromd_spec(x).ex <= 1024,
        fromd_spec(x).sign == (if f64_lt_zero(x) { 1u64 } else { 0u64 }),
{
    let m = f64_mant(x);
    assert(m < 0x20_0000_0000_0000) by {
        lemma_u64_bits(x);
    }
    let t = u64_leading_zeros(m as u64) as u32;
    lemma_u64_leading_zeros(m as u64);
    lemma_fromd(x, m as u64, t);
    assert(f64_exp(x) < 0x800) by {
        lemma_u64_bits(x);
    }
}

/// The shift and exponent adjustment of `DInt64::fromd`.
proof fn lemma_fromd(x: u64, m: u64, t: u32)
    requires
        !f64_is_zero(x),
        m == f64_mant(x),
        t as int == u64_leading_zeros(m),
    ensures
        t as int == 64 - bit_len(m as nat),
        m * pow2(t as nat) <= u64::MAX,
        m * pow2(t as nat) >= 0x8000_0000_0000_0000,
        f64_exp(x) != 0 ==> t == 11,
        f64_exp(x) == 0 ==> 12 <= t <= 63,
        m * pow2(t as nat) * pow2((63 - t) as nat) == m * pow2(63),
        f64_exp(x) != 0 ==> m * pow2(t as nat) * pow2((f64_exp(x) + 51) as nat) == m * pow2(
            (f64_exp(x) + 62) as nat,
        ),
{
    lemma_u64_leading_zeros(m);
    lemma_pow2_128();
    lemma2_to64();
    lemma2_to64_rest();
    assert(m > 0);
    lemma_bit_len_bounds(m as nat);
    let k = bit_len(m as nat);
    if f64_exp(x) != 0 {
        lemma_bit_len_unique(m as nat, 53);
    } else {
        lemma_bit_len_le(m as nat, 52);
    }
    lemma_pow2_adds((k - 1) as nat, t as nat);
    lemma_pow2_adds(k, t as nat);
    lemma_pow2_pos(t as nat);
    lemma_mul_inequality(pow2((k - 1) as nat) as int, m as int, pow2(t as nat) as int);
    lemma_mul_strict_inequality(m as int, pow2(k) as int, pow2(t as nat) as int);
    lemma_pow2_adds(t as nat, (63 - t) as nat);
    lemma_mul_is_associative(m as int, pow2(t as nat) as int, pow2((63 - t) as nat) as int);
    if f64_exp(x) != 0 {
        lemma_pow2_adds(11, (f64_exp(x) + 51) as nat);
        lemma_mul_is_associative(m as int, pow2(11) as int, pow2((f64_exp(x) + 51) as nat) as int);
    }
}

} // verus!
