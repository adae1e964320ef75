//! Multi-limb integers of the Payne-Hanek argument reduction: the chunks
//! of the product `x * 2/pi`, held least significant limb first in radix
//! `2^w` (24-bit limbs for binary64, 8-bit limbs for binary32).
use vstd::prelude::*;
use vstd::arithmetic::power2::*;
use vstd::arithmetic::div_mod::*;
use vstd::arithmetic::mul::*;
use vstd::bits::{lemma_u32_shr_is_div, lemma_u32_shl_is_mul};

verus! {

/// The value of the first `n` limbs of `iq` in radix `2^w`, the limb at
/// index 0 being the least significant.
pub open spec fn limbs_value(iq: Seq<i32>, n: nat, w: nat) -> int
    decreases n,
{
    if n == 0 {
        0
    } else {
        limbs_value(iq, (n - 1) as nat, w) + iq[n - 1] as int * pow2(w * (n - 1) as nat)
    }
}

/// Each of the first `n` limbs is a digit in radix `2^w`.
pub open spec fn limbs_in_range(iq: Seq<i32>, n: nat, w: nat) -> bool {
    forall|i: int| 0 <= i < n ==> 0 <= #[trigger] iq[i] < pow2(w)
}

/// The value of the first `n` limbs depends on those limbs alone.
proof fn lemma_limbs_frame(a: Seq<i32>, b: Seq<i32>, n: nat, w: nat)
    requires
        n <= a.len(),
        n <= b.len(),
        forall|i: int| 0 <= i < n ==> a[i] == b[i],
    ensures
        limbs_value(a, n, w) == limbs_value(b, n, w),
    decreases n,
{
    if n > 0 {
        lemma_limbs_frame(a, b, (n - 1) as nat, w);
    }
}

/// Digits in range make a value in `[0, 2^(w n))`.
proof fn lemma_limbs_bounds(a: Seq<i32>, n: nat, w: nat)
    requires
        n <= a.len(),
        limbs_in_range(a, n, w),
    ensures
        0 <= limbs_value(a, n, w) < pow2(w * n),
    decreases n,
{
    if n == 0 {
        assert(w * 0 == 0);
        lemma2_to64();
    } else {
        let m = (n - 1) as nat;
        lemma_limbs_bounds(a, m, w);
        lemma_pow2_pos(w * m);
        lemma_pow_step(w, m);
        lemma_mul_inequality(a[m as int] as int, pow2(w) - 1, pow2(w * m) as int);
        lemma_mul_is_distributive_sub_other_way(pow2(w * m) as int, pow2(w) as int, 1);
        lemma_mul_is_commutative(pow2(w * m) as int, pow2(w) as int);
        lemma_mul_nonnegative(a[m as int] as int, pow2(w * m) as int);
    }
}

/// `2^(w (m + 1)) = 2^(w m) * 2^w`.
proof fn lemma_pow_step(w: nat, m: nat)
    ensures
        pow2(w * (m + 1)) == pow2(w * m) * pow2(w),
{
    assert(w * (m + 1) == w * m + w) by (nonlinear_arith);
    lemma_pow2_adds(w * m, w);
}

/// Digits in radix `2^w` are unique: two limb sequences in range with the
/// same value agree on those limbs.
proof fn lemma_limbs_unique(a: Seq<i32>, b: Seq<i32>, n: nat, w: nat)
    requires
        n <= a.len(),
        n <= b.len(),
        limbs_in_range(a, n, w),
        limbs_in_range(b, n, w),
        limbs_value(a, n, w) == limbs_value(b, n, w),
    ensures
        forall|i: int| 0 <= i < n ==> a[i] == b[i],
    decreases n,
{
    if n > 0 {
        let m = (n - 1) as nat;
        let p = pow2(w * m) as int;
        lemma_limbs_bounds(a, m, w);
        lemma_limbs_bounds(b, m, w);
        lemma_pow2_pos(w * m);
        let va = limbs_value(a, n, w);
        lemma_fundamental_div_mod_converse(va, p, a[m as int] as int, limbs_value(a, m, w));
        lemma_fundamental_div_mod_converse(va, p, b[m as int] as int, limbs_value(b, m, w));
        lemma_mul_is_commutative(a[m as int] as int, p);
        lemma_mul_is_commutative(b[m as int] as int, p);
        lemma_limbs_unique(a, b, m, w);
    }
}

/// Complementing twice gives the limbs back: if `b` is what
/// `complement_limbs` makes of `a` and `c` what it makes of `b`, then `c`
/// and `a` agree on the limbs it works on (`1 - (1 - q) = q`).
pub proof fn law_complement_twice(a: Seq<i32>, b: Seq<i32>, c: Seq<i32>, jz: nat, w: nat)
    requires
        jz <= a.len(),
        jz <= b.len(),
        jz <= c.len(),
        limbs_in_range(a, jz, w),
        limbs_in_range(b, jz, w),
        limbs_in_range(c, jz, w),
        limbs_value(a, jz, w) != 0 ==> limbs_value(b, jz, w) == pow2(w * jz)
            - limbs_value(a, jz, w),
        limbs_value(a, jz, w) == 0 ==> b == a,
        limbs_value(b, jz, w) != 0 ==> limbs_value(c, jz, w) == pow2(w * jz)
            - limbs_value(b, jz, w),
        limbs_value(b, jz, w) == 0 ==> c == b,
    ensures
        forall|i: int| 0 <= i < jz ==> c[i] == a[i],
{
    lemma_limbs_bounds(a, jz, w);
    if limbs_value(a, jz, w) == 0 {
        assert(c == a);
    } else {
        lemma_limbs_unique(c, a, jz, w);
    }
}

/// Replace the number held in the first `jz` limbs by its complement
/// `2^(w jz) - q` (what `1 - q` is for the fraction `q` those limbs
/// hold), leaving a zero number as it is. Returns whether the number was
/// nonzero, which is whether a borrow ran through all limbs.
pub fn complement_limbs(iq: &mut [i32], jz: usize, w: u32) -> (carry: bool)
    requires
        1 <= w <= 30,
        jz <= old(iq)@.len(),
        limbs_in_range(old(iq)@, jz as nat, w as nat),
    ensures
        final(iq)@.len() == old(iq)@.len(),
        forall|i: int| jz <= i < old(iq)@.len() ==> final(iq)@[i] == old(iq)@[i],
        limbs_in_range(final(iq)@, jz as nat, w as nat),
        carry == (limbs_value(old(iq)@, jz as nat, w as nat) != 0),
        carry ==> limbs_value(final(iq)@, jz as nat, w as nat) == pow2((w * jz) as nat)
            - limbs_value(old(iq)@, jz as nat, w as nat),
        !carry ==> final(iq)@ == old(iq)@,
{
    let ghost w_n = w as nat;
    proof {
        lemma_pow2_pos(w_n);
        if w < 30 {
            lemma_pow2_strictly_increases(w_n, 30);
        }
        lemma2_to64();
        lemma_u32_shl_is_mul(1, w);
    }
    let radix: i32 = (1u32 << w) as i32;
    let mut carry: bool = false;
    let mut i: usize = 0;
    while i < jz
        invariant
            1 <= w <= 30,
            w_n == w,
            radix == pow2(w_n),
            i <= jz <= old(iq)@.len(),
            iq@.len() == old(iq)@.len(),
            forall|k: int| i <= k < old(iq)@.len() ==> iq@[k] == old(iq)@[k],
            limbs_in_range(old(iq)@, jz as nat, w_n),
            limbs_in_range(iq@, i as nat, w_n),
            carry == (limbs_value(old(iq)@, i as nat, w_n) != 0),
            carry ==> limbs_value(iq@, i as nat, w_n) == pow2(w_n * i as nat)
                - limbs_value(old(iq)@, i as nat, w_n),
            !carry ==> iq@ == old(iq)@,
        decreases jz - i,
    {
        let j: i32 = iq[i];
        let ghost before = iq@;
        let ghost v_old = limbs_value(old(iq)@, i as nat, w_n);
        let ghost p = pow2(w_n * i as nat);
        proof {
            lemma_limbs_bounds(old(iq)@, i as nat, w_n);
            lemma_pow2_pos(w_n * i as nat);
            lemma_pow_step(w_n, i as nat);
            assert(limbs_value(old(iq)@, (i + 1) as nat, w_n) == v_old + j * p);
            lemma_mul_nonnegative(j as int, p as int);
        }
        if !carry {
            if j != 0 {
                carry = true;
                iq[i] = radix - j;
                proof {
                    lemma_limbs_frame(iq@, before, i as nat, w_n);
                    assert(limbs_value(iq@, (i + 1) as nat, w_n) == (radix - j) * p);
                    lemma_mul_is_distributive_sub_other_way(p as int, radix as int, j as int);
                    lemma_mul_is_commutative(p as int, radix as int);
                    lemma_mul_is_commutative(p as int, j as int);
                    lemma_mul_strictly_positive(j as int, p as int);
                }
            }
        } else {
            iq[i] = radix - 1 - j;
            proof {
                lemma_limbs_frame(iq@, before, i as nat, w_n);
                assert(limbs_value(iq@, (i + 1) as nat, w_n) == (p - v_old) + (radix - 1 - j) * p);
                lemma_mul_is_distributive_sub_other_way(p as int, radix as int, 1 + j);
                lemma_mul_is_distributive_add_other_way(p as int, 1, j as int);
                lemma_mul_is_commutative(p as int, radix as int);
                lemma_mul_is_commutative(p as int, j as int);
                lemma_mul_is_commutative(p as int, 1 + j);
            }
        }
        i += 1;
    }
    carry
}

/// With `q0` integer bits at the top of limb `jz - 1` (whose `w` bits hold
/// them above the fraction), take them off: returns them, and whether the
/// fraction left in that limb is at least one half.
pub fn split_top_limb(iq: &mut [i32], jz: usize, w: u32, q0: u32) -> (r: (i32, i32))
    requires
        0 < q0 < w <= 30,
        1 <= jz <= old(iq)@.len(),
        0 <= old(iq)@[jz - 1] < pow2(w as nat),
    ensures
        final(iq)@ == old(iq)@.update(jz - 1, (old(iq)@[jz - 1] as int % pow2((w - q0) as nat) as int) as i32),
        r.0 == old(iq)@[jz - 1] as int / pow2((w - q0) as nat) as int,
        r.1 == final(iq)@[jz - 1] as int / pow2((w - 1 - q0) as nat) as int,
{
    let top: u32 = iq[jz - 1] as u32;
    let sh: u32 = w - q0;
    let i: u32 = top >> sh;
    proof {
        lemma_u32_shr_is_div(top, sh);
        lemma_pow2_pos(sh as nat);
        lemma_fundamental_div_mod(top as int, pow2(sh as nat) as int);
        lemma_mod_bound(top as int, pow2(sh as nat) as int);
        lemma_mul_is_commutative(pow2(sh as nat) as int, i as int);
        lemma_u32_shl_is_mul(i, sh);
    }
    let rest: u32 = top - (i << sh);
    iq[jz - 1] = rest as i32;
    let ih: u32 = rest >> (sh - 1);
    proof {
        lemma_u32_shr_is_div(rest, (sh - 1) as u32);
    }
    (i as i32, ih as i32)
}

/// The index of the first chunk of `2/pi` that matters for an argument
/// whose exponent (beyond its own `w`-bit chunks) is `e0`: `(e0 - 3) / w`,
/// or `0` below that; the exponent `q0` of the integer bits left in it; and
/// where the first of the `nx` input chunks meets the table (negative where
/// it starts before it).
pub open spec fn table_start_spec(e0: int, nx: int, w: int) -> (int, int, int) {
    let jv = if e0 >= 3 { (e0 - 3) / w } else { 0 };
    (jv, e0 - w * (jv + 1), jv - (nx - 1))
}

/// Locate the chunks of `2/pi` used for an argument of exponent `e0` split
/// into `nx` chunks of `w` bits: returns `jv`, `q0` and the signed offset of
/// the first product term.
pub fn table_start(e0: i32, nx: usize, w: i32) -> (r: (usize, i32, i32))
    requires
        1 <= nx <= 20,
        w == 8 || w == 24,
        e0 >= i32::MIN + w,
        w * (table_start_spec(e0 as int, nx as int, w as int).0 + 1) <= i32::MAX,
    ensures
        r.0 as int == table_start_spec(e0 as int, nx as int, w as int).0,
        r.1 as int == table_start_spec(e0 as int, nx as int, w as int).1,
        r.2 as int == table_start_spec(e0 as int, nx as int, w as int).2,
{
    let jv: i32 = if e0 >= 3 { (e0 - 3) / w } else { 0 };
    proof {
        if e0 >= 3 {
            lemma_div_pos_is_pos((e0 - 3) as int, w as int);
            lemma_div_is_ordered_by_denominator((e0 - 3) as int, 1, w as int);
        }
        lemma_mul_inequality(1, w as int, (jv + 1) as int);
        lemma_mul_is_commutative(w as int, (jv + 1) as int);
    }
    let q0: i32 = e0 - w * (jv + 1);
    let j: i32 = jv - (nx as i32 - 1);
    (jv as usize, q0, j)
}

/// `table_start` picks the chunk of `2/pi` so that the integer bits left
/// in it are fewer than three: `q0 <= 2`, and `q0 >= 3 - w` unless the
/// first chunk is taken; the product terms start `nx - 1` chunks before it.
pub proof fn law_table_start_bounds(e0: int, nx: int, w: int)
    requires
        w == 8 || w == 24,
    ensures
        ({
            let (jv, q0, j) = table_start_spec(e0, nx, w);
            &&& jv >= 0
            &&& q0 <= 2
            &&& jv > 0 ==> q0 >= 3 - w
            &&& j == jv - (nx - 1)
        }),
{
    if e0 >= 3 {
        lemma_fundamental_div_mod(e0 - 3, w);
        lemma_mod_bound(e0 - 3, w);
        lemma_div_pos_is_pos(e0 - 3, w);
    }
}

/// Whether the limbs from `jk` up to `jz` of a result of the reduction
/// are all zero, so that more terms of `2/pi` are needed: `None` when one
/// of them is not; otherwise the number `k` of terms to add, one more than
/// the zero limbs just below `jk`.
pub fn recompute_terms(iq: &[i32], jk: usize, jz: usize) -> (r: Option<usize>)
    requires
        1 <= jk <= jz <= iq@.len(),
        exists|i: int| 0 <= i < jz && iq@[i] != 0,
    ensures
        (r is None) == (exists|i: int| jk <= i < jz && iq@[i] != 0),
        r matches Some(k) ==> {
            &&& 1 <= k <= jk
            &&& iq@[jk - k] != 0
            &&& forall|t: int| jk - k < t < jk ==> iq@[t] == 0
        },
{
    let mut i: usize = jk;
    while i < jz
        invariant
            jk <= i <= jz <= iq@.len(),
            forall|t: int| jk <= t < i ==> iq@[t] == 0,
        decreases jz - i,
    {
        if iq[i] != 0 {
            return None;
        }
        i += 1;
    }
    /* need recomputation: k = no. of terms needed */
    let mut k: usize = 1;
    while iq[jk - k] == 0
        invariant
            1 <= k <= jk <= jz <= iq@.len(),
            forall|t: int| jk <= t < jz ==> iq@[t] == 0,
            forall|t: int| jk - k < t < jk ==> iq@[t] == 0,
            exists|i: int| 0 <= i < jz && iq@[i] != 0,
        decreases jk - k,
    {
        if k == jk {
            proof {
                let t = choose|i: int| 0 <= i < jz && iq@[i] != 0;
                assert(iq@[t] == 0);
            }
        }
        k += 1;
    }
    Some(k)
}

/// Drop the zero limbs at the top of a result of the reduction, below
/// `jz`: returns the index of the highest nonzero limb under `jz`, and the
/// exponent `q0` lowered by `w` for each limb dropped.
pub fn chop_zero_limbs(iq: &[i32], jz: usize, q0: i32, w: i32) -> (r: (usize, i32))
    requires
        1 <= jz <= iq@.len(),
        exists|i: int| 0 <= i < jz && iq@[i] != 0,
        w == 8 || w == 24,
        q0 - w * jz >= i32::MIN,
    ensures
        r.0 < jz,
        iq@[r.0 as int] != 0,
        forall|i: int| r.0 < i < jz ==> iq@[i] == 0,
        r.1 == q0 - w * (jz - r.0),
{
    let mut j: usize = jz - 1;
    let mut q: i32 = q0 - w;
    while iq[j] == 0
        invariant
            j < jz <= iq@.len(),
            forall|i: int| j < i < jz ==> iq@[i] == 0,
            exists|i: int| 0 <= i < jz && iq@[i] != 0,
            q == q0 - w * (jz - j),
            q0 - w * jz >= i32::MIN,
            w == 8 || w == 24,
        decreases j,
    {
        if j == 0 {
            proof {
                let t = choose|i: int| 0 <= i < jz && iq@[i] != 0;
                assert(iq@[t] == 0);
            }
        }
        proof {
            vstd::arithmetic::mul::lemma_mul_inequality((jz - j + 1) as int, jz as int, w as int);
            vstd::arithmetic::mul::lemma_mul_is_commutative((jz - j + 1) as int, w as int);
            vstd::arithmetic::mul::lemma_mul_is_commutative(jz as int, w as int);
            vstd::arithmetic::mul::lemma_mul_is_distributive_add(w as int, (jz - j) as int, 1);
        }
        j -= 1;
        q -= w;
    }
    (j, q)
}

} // verus!
