use libm::dint::DInt64;
use libm::log::{cr_log_accurate, cr_log_accurate_checked, fast_extract, log_2, log_2_checked, lt_zero};
use std::cmp::Ordering;

fn d(hi: u64, lo: u64, ex: i64, sign: u64) -> DInt64 {
    DInt64 { hi, lo, ex, sign }
}

fn log2_const() -> DInt64 {
    d(0xb17217f7d1cf79ab, 0xc9e3b39803f2f6af, -1, 0)
}

#[test]
fn new_and_u128_round_trip() {
    let sig: u128 = 0x0123_4567_89ab_cdef_fedc_ba98_7654_3210;
    let x = DInt64::new(sig, -7, 1);
    assert_eq!(x.hi, 0x0123_4567_89ab_cdef);
    assert_eq!(x.lo, 0xfedc_ba98_7654_3210);
    assert_eq!(x.ex, -7);
    assert_eq!(x.sign, 1);
    assert_eq!(x.u128(), sig);
}

#[test]
fn cmp_orders_by_exponent_then_significand() {
    let a = d(0x8000000000000000, 0, 1, 0);
    let b = d(0xffffffffffffffff, 0, 0, 0);
    assert_eq!(a.cmp(&b), Ordering::Greater);
    assert_eq!(b.cmp(&a), Ordering::Less);
    let c = d(0x8000000000000000, 1, 1, 1);
    assert_eq!(a.cmp(&c), Ordering::Less);
    assert_eq!(c.cmp(&d(0x8000000000000000, 1, 1, 0)), Ordering::Equal);
}

#[test]
fn mul_keeps_leading_bits() {
    let a = log2_const();
    let c = d(0xfe03f80fe03f80ff, 0, 0, 0);
    assert_eq!(a.mul(&c), d(0xb011f40fb26aa463, 0xb28dcbc85573e994, 0, 0));
    assert_eq!(c.mul(&a), d(0xb011f40fb26aa463, 0xb28dcbc85573e994, 0, 0));
    assert_eq!(a.mul(&a), d(0xf5fdeffc162c7543, 0x78b583764b9afe53, -2, 0));
}

#[test]
fn mul_of_powers_of_two_is_exact() {
    let one = d(0x8000000000000000, 0, 0, 0);
    let half = d(0x8000000000000000, 0, -1, 1);
    assert_eq!(one.mul(&half), d(0x8000000000000000, 0, -1, 1));
}

#[test]
fn add_same_and_opposite_signs() {
    let a = log2_const();
    let c = d(0xfe03f80fe03f80ff, 0, 0, 0);
    assert_eq!(a.add(&c), d(0xab5e8205e4939eea, 0x7278ece600fcbdac, 1, 0));
    assert_eq!(c.add(&a), d(0xab5e8205e4939eea, 0x7278ece600fcbdac, 1, 0));
    let neg_c = d(c.hi, c.lo, c.ex, 1);
    assert_eq!(a.add(&neg_c), d(0xa54aec13f757c429, 0x1b0e2633fe0684a8, 0, 1));
    let neg_a = d(a.hi, a.lo, a.ex, 1);
    assert_eq!(neg_a.add(&c), d(0xa54aec13f757c429, 0x1b0e2633fe0684a8, 0, 0));
}

#[test]
fn add_equal_values_doubles_and_opposite_values_cancel() {
    let a = log2_const();
    assert_eq!(a.add(&a), d(0xb17217f7d1cf79ab, 0xc9e3b39803f2f6af, 0, 0));
    let neg_a = d(a.hi, a.lo, a.ex, 1);
    assert_eq!(a.add(&neg_a), DInt64::zero());
}

#[test]
fn add_zero_is_identity() {
    let a = log2_const();
    let z = DInt64::zero();
    assert_eq!(a.add(&z), a);
    assert_eq!(z.add(&a), a);
}

#[test]
fn add_aligns_smaller_exponent() {
    let a = log2_const();
    let b = d(0xffffffffffffffff, 0xfffffffffffffffe, -2, 0);
    assert_eq!(a.add(&b), d(0x98b90bfbe8e7bcd5, 0xe4f1d9cc01f97b57, 0, 0));
}

#[test]
fn add_carry_out_and_cancellation() {
    let m = d(0xffffffffffffffff, 0xffffffffffffffff, 5, 0);
    let h = d(0x8000000000000000, 0, 5, 0);
    assert_eq!(m.add(&h), d(0xc000000000000000, 0, 6, 0));
    let x = d(0x8000000000000000, 1, 0, 0);
    let y = d(0x8000000000000000, 0, 0, 1);
    assert_eq!(x.add(&y), d(0x8000000000000000, 0, -127, 0));
}

#[test]
fn mul2_by_machine_integers() {
    let a = log2_const();
    assert_eq!(a.mul2(0), DInt64::zero());
    assert_eq!(a.mul2(1), a);
    assert_eq!(a.mul2(-3), d(0x851591f9dd5b9b40, 0xd76ac6b202f63903, 1, 1));
    assert_eq!(a.mul2(-1074), d(0xba1c2a236b8e1b1c, 0xad3f51dcf02453ba, 9, 1));
}

#[test]
fn pow2_evaluates_the_polynomial() {
    let z = d(0xc000000000000000, 0x123456789abcdef0, -9, 1);
    assert_eq!(z.pow2(), d(0xc04824144c2e034b, 0x65c80e268feca72c, -9, 1));
}

#[test]
fn fromd_converts_exactly() {
    assert_eq!(DInt64::fromd(2.0f64.to_bits()), d(0x8000000000000000, 0, 1, 0));
    assert_eq!(DInt64::fromd(1.5f64.to_bits()), d(0xc000000000000000, 0, 0, 0));
    assert_eq!(DInt64::fromd((-3.0f64).to_bits()), d(0xc000000000000000, 0, 1, 1));
    assert_eq!(DInt64::fromd(1), d(0x8000000000000000, 0, -1074, 0));
    assert_eq!(DInt64::fromd(0x7ff8000000000000), d(0xc000000000000000, 0, 1024, 0));
}

#[test]
fn fast_extract_and_sign_test() {
    assert_eq!(fast_extract(1.0f64.to_bits()), (0, 1u64 << 52));
    assert_eq!(fast_extract(1), (-1023, 1));
    assert_eq!(fast_extract((-6.0f64).to_bits()), (2, 0x18000000000000));
    assert!(lt_zero((-6.0f64).to_bits()));
    assert!(!lt_zero((-0.0f64).to_bits()));
    assert!(!lt_zero(f64::NAN.to_bits() | (1u64 << 63)));
    assert!(!lt_zero(2.0f64.to_bits()));
}

#[test]
fn tod_rounds_to_nearest_even() {
    assert_eq!(d(0xffffffffffffffff, 0xff, 0, 0).tod(), 0x4000000000000000);
    assert_eq!(d(0x8000000000000400, 0, 3, 1).tod(), 0xc020000000000000);
    assert_eq!(d(0x8000000000000c00, 0, 3, 0).tod(), 0x4020000000000002);
    assert_eq!(d(0x8000000000000400, 1, 3, 0).tod(), 0x4020000000000001);
    assert_eq!(d(0xffffffffffffffff, 0, 1023, 0).tod(), 0x7ff0000000000000);
    assert_eq!(f64::from_bits(d(0x8000000000000000, 0, 0, 0).tod()), 1.0);
}

#[test]
fn log_2_of_two_is_log2() {
    let x = DInt64::fromd(2.0f64.to_bits());
    assert_eq!(log_2(&x), log2_const());
    let t = DInt64::fromd(10.0f64.to_bits());
    assert_eq!(log_2(&t), d(0x935d8dddaaa8ac16, 0xea56d62b82d30a28, 1, 0));
}

#[test]
fn cr_log_accurate_values() {
    let cases: [(f64, u64); 10] = [
        (2.0, 0x3fe62e42fefa39ef),
        (0.5, 0xbfe62e42fefa39ef),
        (10.0, 0x40026bb1bbb55516),
        (3.0, 0x3ff193ea7aad030b),
        (1e-300, 0xc085963447f87fb5),
        (1e300, 0x4085963447f87fb5),
        (1.5, 0x3fd9f323ecbf984c),
        (0.1, 0xc0026bb1bbb55515),
        (7.0, 0x3fff2272ae325a57),
        (std::f64::consts::E, 0x3ff0000000000000),
    ];
    for (x, expected) in cases {
        assert_eq!(cr_log_accurate(x.to_bits()), expected, "log({})", x);
    }
    assert_eq!(cr_log_accurate(5e-324f64.to_bits()), 0xc0874385446d71c3);
    assert_eq!(cr_log_accurate(1.0f64.to_bits()), 0);
}

#[test]
fn checked_operations_report_overflow() {
    let max = d(u64::MAX, u64::MAX, 0, 0);
    let below = d(u64::MAX, u64::MAX, -1, 0);
    assert_eq!(max.add_checked(&below), None);
    assert_eq!(below.add_checked(&max), None);
    let a = log2_const();
    assert_eq!(a.add_checked(&a), Some(a.add(&a)));
    let big = d(0x8000000000000000, 0, i64::MAX, 0);
    assert_eq!(big.add_checked(&big), None);
    assert_eq!(big.mul_checked(&big), None);
    assert_eq!(a.mul_checked(&a), Some(a.mul(&a)));
    assert_eq!(a.mul2_checked(i64::MIN), None);
    assert_eq!(a.mul2_checked(-3), Some(a.mul2(-3)));
    assert_eq!(big.mul2_checked(5), None);
    let z = d(0xc000000000000000, 0x123456789abcdef0, -9, 1);
    assert_eq!(z.pow2_checked(), Some(z.pow2()));
}

#[test]
fn checked_logarithm_paths() {
    let x = DInt64::fromd(2.0f64.to_bits());
    assert_eq!(log_2_checked(&x), Some(log_2(&x)));
    assert_eq!(log_2_checked(&d(0x3fff_ffff_ffff_ffff, 0, 0, 0)), None);
    assert_eq!(cr_log_accurate_checked(0), None);
    assert_eq!(cr_log_accurate_checked(1u64 << 63), None);
    assert_eq!(cr_log_accurate_checked(1.0f64.to_bits()), Some(0));
    assert_eq!(cr_log_accurate_checked(10.0f64.to_bits()), Some(0x40026bb1bbb55516));
}

#[test]
fn add_alignment_truncates_below_the_cut() {
    let one = d(0x8000000000000000, 0, 0, 0);
    // 2^127 + 7 at exponent -3: the bit below the cut is set and the low
    // bits are all ones, so the carry reaches the cut
    let b = d(0x8000000000000000, 7, -3, 0);
    assert_eq!(one.add(&b), d(0x9000000000000000, 1, 0, 0));
    // 2^127 + 6: three quarters of a unit are dropped, not rounded up
    let b = d(0x8000000000000000, 6, -3, 0);
    assert_eq!(one.add(&b), d(0x9000000000000000, 0, 0, 0));
}

// The exact sum (A * 2^sh + B) and the result, in units of the smaller
// operand's last place, as 256-bit numbers (high, low).
fn wide(x: u128, sh: u32) -> (u128, u128) {
    if sh == 0 {
        (0, x)
    } else {
        (x >> (128 - sh), x << sh)
    }
}

fn wide_add(a: (u128, u128), b: (u128, u128)) -> (u128, u128) {
    let (lo, c) = a.1.overflowing_add(b.1);
    (a.0 + b.0 + c as u128, lo)
}

fn wide_sub(a: (u128, u128), b: (u128, u128)) -> (u128, u128) {
    let (lo, c) = a.1.overflowing_sub(b.1);
    (a.0 - b.0 - c as u128, lo)
}

#[test]
fn add_error_is_below_two_units() {
    let mut s: u64 = 0x9e37_79b9_7f4a_7c15;
    let mut next = || {
        s ^= s << 13;
        s ^= s >> 7;
        s ^= s << 17;
        s
    };
    for _ in 0..20_000 {
        let a = d(next() | 0x8000000000000000, next(), 5, 0);
        let sh = (next() % 60) as u32;
        let b = d(next() | 0x8000000000000000, next(), 5 - sh as i64, 0);
        let r = a.add(&b);
        // units of 2^(b.ex - 127): a is A * 2^sh, b is B, r is R * 2^(r.ex - b.ex)
        let exact = wide_add(wide(a.u128(), sh), (0, b.u128()));
        let k = (r.ex - b.ex) as u32;
        let got = wide(r.u128(), k);
        let err = if exact >= got { wide_sub(exact, got) } else { wide_sub(got, exact) };
        let bound = wide(2, sh);
        assert!(err < bound, "{:?} + {:?} = {:?}", a, b, r);
    }
}

// 256-bit product of a 128-bit significand and a 64-bit integer, shifted
// left by `sh` (at most 64), as (high, low).
fn wide_mul(x: u128, c: u64, sh: u32) -> (u128, u128) {
    let lo = (x as u64 as u128) * c as u128;
    let hi = (x >> 64) * c as u128;
    // x * c = hi * 2^64 + lo
    let (l, carry) = lo.overflowing_add(hi << 64);
    let h = (hi >> 64) + carry as u128;
    if sh == 0 {
        (h, l)
    } else {
        ((h << sh) | (l >> (128 - sh)), l << sh)
    }
}

#[test]
fn mul2_error_is_within_one_unit() {
    let mut s: u64 = 0x1234_5678_9abc_def1;
    let mut next = || {
        s ^= s << 13;
        s ^= s >> 7;
        s ^= s << 17;
        s
    };
    for _ in 0..20_000 {
        let a = d(next() | 0x8000000000000000, next(), 3, 0);
        let b = (next() >> (next() % 64)) as i64;
        if b == 0 || b == i64::MIN {
            continue;
        }
        let r = a.mul2(b);
        let c = b.unsigned_abs();
        let p = a.hi as u128 * c as u128;
        let m = if p >> 64 != 0 { ((p >> 64) as u64).leading_zeros() } else { 64 };
        let k = (r.ex - a.ex + m as i64) as u32;
        let exact = wide_mul(a.u128(), c, m);
        let got = if k == 64 { (r.u128() >> 64, r.u128() << 64) } else { (r.u128() >> 63, r.u128() << 65) };
        let err = if exact >= got { wide_sub(exact, got) } else { wide_sub(got, exact) };
        assert!(err <= (0, 1u128 << 64), "{:?} * {} = {:?}", a, b, r);
    }
}

#[test]
fn fromd_then_tod_gives_the_value_back() {
    let mut s: u64 = 0x0bad_5eed_1234_5678;
    for _ in 0..100_000 {
        s ^= s << 13;
        s ^= s >> 7;
        s ^= s << 17;
        let e = (s >> 52) & 0x7ff;
        if e == 0 || e == 0x7ff {
            continue;
        }
        assert_eq!(DInt64::fromd(s).tod(), s, "{:#x}", s);
    }
    for x in [1.0f64, -1.0, 0.1, -3.5e300, f64::MIN_POSITIVE, f64::MAX] {
        assert_eq!(DInt64::fromd(x.to_bits()).tod(), x.to_bits());
    }
}

// 256-bit product of two 128-bit numbers, as (high, low).
fn wide_mul128(a: u128, b: u128) -> (u128, u128) {
    let (a1, a0) = (a >> 64, a & 0xffff_ffff_ffff_ffff);
    let (b1, b0) = (b >> 64, b & 0xffff_ffff_ffff_ffff);
    let ll = a0 * b0;
    let lh = a0 * b1;
    let hl = a1 * b0;
    let hh = a1 * b1;
    let (mid, c1) = lh.overflowing_add(hl);
    let (lo, c2) = ll.overflowing_add(mid << 64);
    let hi = hh + (mid >> 64) + ((c1 as u128) << 64) + c2 as u128;
    (hi, lo)
}

#[test]
fn mul_error_is_below_three_half_units() {
    let mut s: u64 = 0x5151_7a7a_0f0f_3c3c;
    let mut next = || {
        s ^= s << 13;
        s ^= s >> 7;
        s ^= s << 17;
        s
    };
    for _ in 0..20_000 {
        let a = d(next() | 0x8000000000000000, next(), 1, 0);
        let b = d(next() | 0x8000000000000000, next(), -2, 1);
        let r = a.mul(&b);
        let exact = wide_mul128(a.u128(), b.u128());
        // r keeps the top 128 bits: r.sig * 2^(128 - s) with s the shift
        // that normalized the product
        let s = a.ex + b.ex + 1 - r.ex;
        let got = if s == 1 { (r.u128() >> 1, r.u128() << 127) } else { (r.u128(), 0) };
        let d127: (u128, u128) = (0, 1u128 << 127);
        let lower = if exact >= got { true } else { wide_sub(got, exact) <= d127 };
        let upper = if exact >= got { wide_sub(exact, got) < (1, 1u128 << 127) } else { true };
        assert!(lower && upper, "{:?} * {:?} = {:?}", a, b, r);
        assert_eq!(r.sign, 1);
    }
}

#[test]
fn cr_log_accurate_powers_of_two() {
    let log2 = DInt64::from_entry(libm::log_tables::LOG2);
    for k in -1022i64..=1023 {
        if k == 0 {
            continue;
        }
        let x = ((k + 1023) as u64) << 52;
        let expected = log2.mul2(k).tod();
        assert_eq!(cr_log_accurate_checked(x), Some(expected), "k = {}", k);
        let ln = f64::from_bits(x).ln().to_bits();
        assert!(expected.abs_diff(ln) <= 1, "k = {}", k);
    }
}

#[test]
fn cr_log_accurate_succeeds_on_samples() {
    // a spread of positive finite arguments, subnormals among them
    let mut x: u64 = 1;
    for _ in 0..200_000 {
        assert!(cr_log_accurate_checked(x).is_some(), "x = {:#018x}", x);
        x = x.wrapping_mul(6364136223846793005).wrapping_add(1442695040888963407)
            % 0x7ff0_0000_0000_0000 + 1;
    }
}
