//! The decisions of the binary32 Euclidean distance on the bit patterns of
//! its arguments: which magnitude is the larger, the infinite, NaN, zero
//! and far-apart arguments, and the scaling that keeps the squares in
//! range.
use vstd::prelude::*;
use crate::arith::lemma_u32_bits;
use vstd::arithmetic::power2::*;
use vstd::arithmetic::mul::*;
use crate::ceilf::lemma_f32_split;
use crate::float_bits::{f32_exp, f32_frac, f32_scaled};
use crate::power::{abs32, F32_INF};
use crate::arith::lemma_f32_scaled_below;

verus! {

/// How `hypotf` proceeds once its magnitudes are ordered.
#[derive(PartialEq, Eq, Structural, Debug, Clone, Copy)]
pub enum HypotfStep {
    /// The smaller magnitude is infinite (so both are infinite, or the
    /// larger is a NaN): the result is `+inf`.
    Infinite,
    /// The larger magnitude is infinite or a NaN, the smaller is zero, or
    /// they are at least `2^25` apart: the result is their sum.
    Sum,
    /// The larger magnitude is at least `2^60`: scale both down by `2^90`.
    ScaleDown,
    /// The smaller magnitude is below `2^-60`: scale both up by `2^90`.
    ScaleUp,
    /// The squares stay in range as they are.
    Plain,
}

/// The step for the ordered magnitudes `big >= small` (bit patterns
/// without the sign).
pub open spec fn hypotf_step(big: nat, small: nat) -> HypotfStep {
    if small == 0x7f80_0000 {
        HypotfStep::Infinite
    } else if big >= 0x7f80_0000 || small == 0 || big - small >= 0x0c80_0000 {
        HypotfStep::Sum
    } else if big >= 0x5d80_0000 {
        HypotfStep::ScaleDown
    } else if small < 0x2180_0000 {
        HypotfStep::ScaleUp
    } else {
        HypotfStep::Plain
    }
}

/// Order the magnitudes of `x` and `y`, given by their bit patterns, and
/// decide how `hypotf` proceeds: returns the step, the larger magnitude and
/// the smaller one.
pub fn hypotf_step_of(x: u32, y: u32) -> (r: (HypotfStep, u32, u32))
    ensures
        r.1 as nat == if abs32(x) >= abs32(y) { abs32(x) } else { abs32(y) },
        r.2 as nat == if abs32(x) >= abs32(y) { abs32(y) } else { abs32(x) },
        r.0 == hypotf_step(r.1 as nat, r.2 as nat),
{
    proof {
        lemma_u32_bits(x);
        lemma_u32_bits(y);
    }
    let mut ux: u32 = x & 0x7fff_ffff;
    let mut uy: u32 = y & 0x7fff_ffff;
    if ux < uy {
        let t = ux;
        ux = uy;
        uy = t;
    }
    if uy == 0x7f80_0000 {
        return (HypotfStep::Infinite, ux, uy);
    }
    if ux >= 0x7f80_0000 || uy == 0 || ux - uy >= 0x0c80_0000 {
        return (HypotfStep::Sum, ux, uy);
    }
    if ux >= 0x5d80_0000 {
        return (HypotfStep::ScaleDown, ux, uy);
    }
    if uy < 0x2180_0000 {
        return (HypotfStep::ScaleUp, ux, uy);
    }
    (HypotfStep::Plain, ux, uy)
}

/// `hypotf(x, y)` is `+inf` when either argument is infinite, even when
/// the other is a NaN: the smaller magnitude is the infinity (the result is
/// `+inf`), or the larger one is and the smaller is finite (their sum is
/// `+inf`).
pub proof fn law_hypotf_infinite(x: u32, y: u32)
    requires
        abs32(x) == F32_INF || abs32(y) == F32_INF,
    ensures
        ({
            let big = if abs32(x) >= abs32(y) { abs32(x) } else { abs32(y) };
            let small = if abs32(x) >= abs32(y) { abs32(y) } else { abs32(x) };
            ||| hypotf_step(big, small) == HypotfStep::Infinite
            ||| (hypotf_step(big, small) == HypotfStep::Sum && big == F32_INF && small < F32_INF)
        }),
{
}

/// The sum is taken for finite nonzero arguments only when the larger
/// magnitude is at least `2^25` times the smaller one, where `x + y` is the
/// correctly rounded distance: the magnitudes of finite patterns compare as
/// their values (`f32_scaled` is `|x| * 2^150`).
pub proof fn law_hypotf_sum_far_apart(x: u32, y: u32)
    requires
        abs32(x) < F32_INF,
        abs32(y) < F32_INF,
        abs32(x) != 0,
        abs32(y) != 0,
        hypotf_step(
            if abs32(x) >= abs32(y) { abs32(x) } else { abs32(y) },
            if abs32(x) >= abs32(y) { abs32(y) } else { abs32(x) },
        ) == HypotfStep::Sum,
    ensures
        ({
            let big = if abs32(x) >= abs32(y) { abs32(x) } else { abs32(y) };
            let small = if abs32(x) >= abs32(y) { abs32(y) } else { abs32(x) };
            pow2(25) * f32_scaled(small as u32) <= f32_scaled(big as u32)
        }),
{
    lemma_u32_bits(x);
    lemma_u32_bits(y);
    let big = if abs32(x) >= abs32(y) { abs32(x) } else { abs32(y) };
    let small = if abs32(x) >= abs32(y) { abs32(y) } else { abs32(x) };
    lemma_far_apart(big as u32, small as u32);
}

/// The scaling keeps the squares in range: both magnitudes are scaled
/// down only when the larger is at least `2^60`, and up only when the
/// smaller is below `2^-60` (`f32_scaled` is `|x| * 2^150`); the sum is
/// taken only for an infinite or NaN larger magnitude, a zero, or
/// magnitudes far apart.
pub proof fn law_hypotf_scaling(big: u32, small: u32)
    requires
        small <= big < 0x8000_0000,
    ensures
        hypotf_step(big as nat, small as nat) is ScaleDown ==> f32_scaled(big) >= pow2(210),
        hypotf_step(big as nat, small as nat) is ScaleUp ==> f32_scaled(small) < pow2(90),
        hypotf_step(big as nat, small as nat) is Plain ==> {
            &&& f32_scaled(big) < pow2(210)
            &&& f32_scaled(small) >= pow2(90)
        },
        hypotf_step(big as nat, small as nat) is Sum ==> {
            ||| big >= F32_INF
            ||| small == 0
            ||| big - small >= 0x0c80_0000
        },
{
    lemma_u32_bits(big);
    lemma_u32_bits(small);
    lemma_f32_split(big);
    lemma_f32_split(small);
    lemma_f32_scaled_below(big, 187);
    lemma_f32_scaled_below(small, 67);
}

/// Two magnitude patterns at least `25 << 23` apart are values at least
/// `2^25` apart.
proof fn lemma_far_apart(b: u32, s: u32)
    requires
        b < 0x7f80_0000,
        0 < s,
        s as int + 0x0c80_0000 <= b as int,
    ensures
        pow2(25) * f32_scaled(s) <= f32_scaled(b),
{
    lemma_f32_split(b);
    lemma_f32_split(s);
    lemma2_to64();
    let eb = f32_exp(b);
    let es = f32_exp(s);
    let fb = f32_frac(b);
    let fs = f32_frac(s);
    assert(b as nat / 0x8000_0000 == 0 && s as nat / 0x8000_0000 == 0);
    let e1 = if es == 0 { 1nat } else { es };
    let sb: int = 0x80_0000 + fb as int;
    let ss: int = fs as int + if es == 0 { 0int } else { 0x80_0000int };
    assert(eb >= 25 + e1 || (eb == 24 + e1 && es == 0));
    if eb >= 26 + e1 {
        let d = (eb - e1) as nat;
        lemma_pow2_adds(d, e1);
        lemma_pow2_adds(25, (d - 25) as nat);
        lemma_pow2_pos((d - 25) as nat);
        lemma_pow2_pos(e1);
        assert(pow2((d - 25) as nat) >= 2) by {
            lemma_pow2_strictly_increases(0, (d - 25) as nat);
            lemma_pow2_unfold((d - 25) as nat);
        }
        /* sb * 2^d >= 2^23 * 2^25 * 2 > 2^25 * ss */
        assert(sb * pow2((d - 25) as nat) >= 0x100_0000) by {
            lemma_mul_inequality(2, pow2((d - 25) as nat) as int, sb);
        }
        assert(ss * pow2(25) <= sb * pow2((d - 25) as nat) * pow2(25)) by {
            lemma_mul_inequality(ss, sb * pow2((d - 25) as nat), pow2(25) as int);
        }
        assert(sb * pow2(d) == sb * pow2((d - 25) as nat) * pow2(25)) by {
            lemma_mul_is_associative(sb, pow2((d - 25) as nat) as int, pow2(25) as int);
            lemma_mul_is_commutative(pow2(25) as int, pow2((d - 25) as nat) as int);
        }
        assert(f32_scaled(b) == sb * pow2(d) * pow2(e1)) by {
            lemma_mul_is_associative(sb, pow2(d) as int, pow2(e1) as int);
        }
        assert(f32_scaled(s) == ss * pow2(e1));
        lemma_mul_inequality(ss * pow2(25), sb * pow2(d), pow2(e1) as int);
        lemma_mul_is_associative(ss, pow2(25) as int, pow2(e1) as int);
        lemma_mul_is_commutative(ss, pow2(25) as int);
        lemma_mul_is_associative(pow2(25) as int, ss, pow2(e1) as int);
    } else {
        /* eb == 25 + e1 with fb >= fs, or eb == 24 + e1 = 25 with a
        subnormal s: then 2 * ss <= sb */
        let d = (eb - e1) as nat;
        lemma_pow2_adds(d, e1);
        lemma_pow2_pos(e1);
        let m: int = if d == 25 { 1 } else { 2 };
        assert(m * ss <= sb);
        assert(pow2(d) * m == pow2(25)) by {
            if d == 24 {
                lemma_pow2_unfold(25);
            }
        }
        assert(f32_scaled(b) == sb * pow2(d) * pow2(e1)) by {
            lemma_mul_is_associative(sb, pow2(d) as int, pow2(e1) as int);
        }
        assert(ss * pow2(25) <= sb * pow2(d)) by {
            lemma_mul_inequality(m * ss, sb, pow2(d) as int);
            lemma_mul_is_associative(m, ss, pow2(d) as int);
            lemma_mul_is_commutative(ss, pow2(d) as int);
            lemma_mul_is_associative(pow2(d) as int, m, ss);
            lemma_mul_is_commutative(pow2(d) as int, m);
            lemma_mul_is_commutative(pow2(25) as int, ss);
        }
        lemma_mul_inequality(ss * pow2(25), sb * pow2(d), pow2(e1) as int);
        lemma_mul_is_associative(ss, pow2(25) as int, pow2(e1) as int);
        lemma_mul_is_commutative(ss, pow2(25) as int);
        lemma_mul_is_associative(pow2(25) as int, ss, pow2(e1) as int);
    }
}

} // verus!
