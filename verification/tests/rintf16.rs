use libm::rintf16::rintf16;

/// The value of a binary16 bit pattern.
fn half_value(x: u16) -> f64 {
    let sign = if x >> 15 == 1 { -1.0 } else { 1.0 };
    let e = ((x >> 10) & 0x1f) as i32;
    let f = (x & 0x3ff) as f64;
    if e == 0 {
        sign * f * 2f64.powi(-24)
    } else if e == 31 {
        if f == 0.0 { sign * f64::INFINITY } else { f64::NAN }
    } else {
        sign * (1024.0 + f) * 2f64.powi(e - 25)
    }
}

/// The binary16 pattern of an integer of magnitude at most 1024, with a
/// given sign bit.
fn half_of_int(n: u32, sign: u16) -> u16 {
    if n == 0 {
        return sign << 15;
    }
    let mut m = n;
    let mut e: u16 = 25;
    while m < 0x400 {
        m <<= 1;
        e -= 1;
    }
    (sign << 15) | (e << 10) | ((m - 0x400) as u16)
}

#[test]
fn rintf16_examples() {
    assert_eq!(rintf16(0x3e00), 0x4000); // 1.5 -> 2.0
    assert_eq!(rintf16(0x4100), 0x4000); // 2.5 -> 2.0
    assert_eq!(rintf16(0xbc00), 0xbc00); // -1.0
    assert_eq!(rintf16(0x3800), 0x0000); // 0.5 -> 0.0
    assert_eq!(rintf16(0xb800), 0x8000); // -0.5 -> -0.0
    assert_eq!(rintf16(0x7c00), 0x7c00); // inf
    assert_eq!(rintf16(0x7e00), 0x7e00); // NaN
    assert_eq!(rintf16(0x6400), 0x6400); // 1024.0
    assert_eq!(rintf16(0x63ff), 0x6400); // 1023.5 -> 1024.0
    assert_eq!(rintf16(0x0001), 0x0000); // smallest subnormal
    assert_eq!(rintf16(0x3c01), 0x3c00);
    assert_eq!(rintf16(0xc0c0), 0xc000); // -2.375 -> -2.0
    assert_eq!(rintf16(0x5bff), 0x5c00); // 255.875 -> 256.0
    assert_eq!(rintf16(0x3bff), 0x3c00);
}

#[test]
fn rintf16_matches_round_ties_even_everywhere() {
    for x in 0..=u16::MAX {
        let v = half_value(x);
        let expected = if v.is_nan() || v.abs() >= 1024.0 {
            x
        } else {
            half_of_int(v.abs().round_ties_even() as u32, x >> 15)
        };
        assert_eq!(rintf16(x), expected, "x = {:#06x}", x);
    }
}

#[test]
fn rintf16_is_idempotent() {
    for x in 0..=u16::MAX {
        let r = rintf16(x);
        assert_eq!(rintf16(r), r, "x = {:#06x}", x);
    }
}

#[test]
fn rintf16_fixed_points_and_monotone() {
    let mut prev: Option<(f64, f64)> = None;
    // walk the non-negative patterns in increasing order, then check the
    // mirrored negative ones
    for x in 0u16..0x7c01 {
        let v = half_value(x);
        let r = rintf16(x);
        let rv = half_value(r);
        if v.is_infinite() || v.fract() == 0.0 {
            assert_eq!(r, x, "x = {:#06x}", x);
            assert_eq!(rintf16(x | 0x8000), x | 0x8000, "x = {:#06x}", x);
        }
        if let Some((pv, prv)) = prev {
            assert!(pv <= v && prv <= rv, "x = {:#06x}", x);
        }
        prev = Some((v, rv));
        assert_eq!(half_value(rintf16(x | 0x8000)), -rv, "x = {:#06x}", x);
    }
    // NaNs come back unchanged
    for x in [0x7c01u16, 0x7e00, 0xfe00, 0xffff] {
        assert_eq!(rintf16(x), x);
    }
}
