use libm::pow_result::{pow_range_of, pow_scale, powf_range_of, powf_scale, PowRange};
use libm::power::{powf_step_of, pow_step_of, yisint, yisintf, PowStep, EVEN_INT, NOT_INT, ODD_INT};

fn kind64(y: f64) -> i32 {
    let a = y.abs();
    if a.is_infinite() || a >= 9007199254740992.0 {
        return EVEN_INT;
    }
    if a < 1.0 || a.fract() != 0.0 {
        NOT_INT
    } else if (a / 2.0).fract() != 0.0 {
        ODD_INT
    } else {
        EVEN_INT
    }
}

fn kind32(y: f32) -> i32 {
    let a = y.abs();
    if a.is_infinite() || a >= 16777216.0 {
        return EVEN_INT;
    }
    if a < 1.0 || a.fract() != 0.0 {
        NOT_INT
    } else if (a / 2.0).fract() != 0.0 {
        ODD_INT
    } else {
        EVEN_INT
    }
}

#[test]
fn yisint_examples() {
    assert_eq!(yisint(3.0f64.to_bits()), ODD_INT);
    assert_eq!(yisint((-3.0f64).to_bits()), ODD_INT);
    assert_eq!(yisint(4.0f64.to_bits()), EVEN_INT);
    assert_eq!(yisint(1.0f64.to_bits()), ODD_INT);
    assert_eq!(yisint(2.5f64.to_bits()), NOT_INT);
    assert_eq!(yisint(0.5f64.to_bits()), NOT_INT);
    assert_eq!(yisint(0.0f64.to_bits()), NOT_INT);
    assert_eq!(yisint(4503599627370497.0f64.to_bits()), ODD_INT);
    assert_eq!(yisint(9007199254740991.0f64.to_bits()), ODD_INT);
    assert_eq!(yisint(9007199254740992.0f64.to_bits()), EVEN_INT);
    assert_eq!(yisint(1e300f64.to_bits()), EVEN_INT);
    assert_eq!(yisint(f64::INFINITY.to_bits()), EVEN_INT);
    assert_eq!(yisint(1048577.0f64.to_bits()), ODD_INT);
    assert_eq!(yisint(1048576.5f64.to_bits()), NOT_INT);
    assert_eq!(yisint(2097153.0f64.to_bits()), ODD_INT);
}

#[test]
fn yisintf_examples() {
    assert_eq!(yisintf(3.0f32.to_bits()), ODD_INT);
    assert_eq!(yisintf((-6.0f32).to_bits()), EVEN_INT);
    assert_eq!(yisintf(1.0f32.to_bits()), ODD_INT);
    assert_eq!(yisintf(1.5f32.to_bits()), NOT_INT);
    assert_eq!(yisintf(16777215.0f32.to_bits()), ODD_INT);
    assert_eq!(yisintf(16777216.0f32.to_bits()), EVEN_INT);
    assert_eq!(yisintf(8388609.0f32.to_bits()), ODD_INT);
    assert_eq!(yisintf(f32::INFINITY.to_bits()), EVEN_INT);
    assert_eq!(yisintf(1e-3f32.to_bits()), NOT_INT);
}

#[test]
fn yisint_agrees_with_float_arithmetic() {
    let mut s: u64 = 0x9e37_79b9_7f4a_7c15;
    for _ in 0..200_000 {
        s ^= s << 13;
        s ^= s >> 7;
        s ^= s << 17;
        let y = f64::from_bits(s);
        if !y.is_nan() && y != 0.0 {
            assert_eq!(yisint(s), kind64(y), "{:e}", y);
        }
        // Values near the integers, where the classification is not trivial.
        let e = (s >> 58) as i32 + 1;
        let m = (s & 0xf_ffff_ffff_ffff) as f64;
        let v = (m / 4503599627370496.0 + 1.0) * 2f64.powi(e % 54);
        assert_eq!(yisint(v.to_bits()), kind64(v), "{:e}", v);
        let yf = f32::from_bits(s as u32);
        if !yf.is_nan() && yf != 0.0 {
            assert_eq!(yisintf(s as u32), kind32(yf), "{:e}", yf);
        }
        let vf = (v as f32).abs();
        assert_eq!(yisintf(vf.to_bits()), kind32(vf), "{:e}", vf);
    }
}

fn step(x: f64, y: f64) -> PowStep {
    pow_step_of(x.to_bits(), y.to_bits())
}

fn stepf(x: f32, y: f32) -> PowStep {
    powf_step_of(x.to_bits(), y.to_bits())
}

#[test]
fn pow_step_special_values() {
    assert_eq!(step(f64::NAN, 0.0), PowStep::One);
    assert_eq!(step(5.0, -0.0), PowStep::One);
    assert_eq!(step(1.0, f64::NAN), PowStep::One);
    assert_eq!(step(f64::NAN, 2.0), PowStep::Sum);
    assert_eq!(step(2.0, f64::NAN), PowStep::Sum);
    assert_eq!(step(-1.0, f64::INFINITY), PowStep::One);
    assert_eq!(step(2.0, f64::INFINITY), PowStep::Y);
    assert_eq!(step(2.0, f64::NEG_INFINITY), PowStep::Zero);
    assert_eq!(step(0.5, f64::INFINITY), PowStep::Zero);
    assert_eq!(step(-0.5, f64::NEG_INFINITY), PowStep::NegY);
    assert_eq!(step(-7.0, 1.0), PowStep::X);
    assert_eq!(step(-7.0, -1.0), PowStep::RecipX);
    assert_eq!(step(-7.0, 2.0), PowStep::Square);
    assert_eq!(step(4.0, 0.5), PowStep::Sqrt);
    assert_eq!(step(-4.0, 0.5), PowStep::Nan);
    assert_eq!(step(0.0, -3.0), PowStep::Edge { recip: true, negate: false });
    assert_eq!(step(-0.0, -3.0), PowStep::Edge { recip: true, negate: true });
    assert_eq!(step(-0.0, 4.0), PowStep::Edge { recip: false, negate: false });
    assert_eq!(step(f64::NEG_INFINITY, 3.0), PowStep::Edge { recip: false, negate: true });
    assert_eq!(step(-1.0, 2.5), PowStep::Nan);
    assert_eq!(step(-1.0, 3.0), PowStep::Edge { recip: false, negate: true });
    assert_eq!(step(-2.0, 0.3), PowStep::Nan);
}

#[test]
fn pow_step_signs_and_ranges() {
    assert_eq!(step(-2.0, 3.0), PowStep::Regular { negative: true });
    assert_eq!(step(-2.0, 4.0), PowStep::Regular { negative: false });
    assert_eq!(step(3.0, 0.3), PowStep::Regular { negative: false });
    assert_eq!(step(2.0, 1e10), PowStep::Overflow { negative: false });
    assert_eq!(step(0.5, 1e10), PowStep::Underflow { negative: false });
    assert_eq!(step(2.0, -1e10), PowStep::Underflow { negative: false });
    assert_eq!(step(-2.0, 6442450945.0), PowStep::Overflow { negative: true });
    assert_eq!(step(-0.5, 6442450945.0), PowStep::Underflow { negative: true });
    assert_eq!(step(-2.0, 1e20), PowStep::Overflow { negative: false });
    assert_eq!(step(0.5, -1e20), PowStep::Overflow { negative: false });
    assert_eq!(step(1.0000001, 1e10), PowStep::NearOne { negative: false });
    assert_eq!(step(-0.99999999, 6442450945.0), PowStep::NearOne { negative: true });
}

#[test]
fn powf_step_cases() {
    assert_eq!(stepf(f32::NAN, -0.0), PowStep::One);
    assert_eq!(stepf(1.0, f32::NAN), PowStep::One);
    assert_eq!(stepf(f32::NAN, 1.0), PowStep::Sum);
    assert_eq!(stepf(-1.0, f32::NEG_INFINITY), PowStep::One);
    assert_eq!(stepf(3.0, f32::INFINITY), PowStep::Y);
    assert_eq!(stepf(3.0, f32::NEG_INFINITY), PowStep::Zero);
    assert_eq!(stepf(0.25, f32::INFINITY), PowStep::Zero);
    assert_eq!(stepf(0.25, f32::NEG_INFINITY), PowStep::NegY);
    assert_eq!(stepf(5.0, 1.0), PowStep::X);
    assert_eq!(stepf(5.0, -1.0), PowStep::RecipX);
    assert_eq!(stepf(5.0, 2.0), PowStep::Square);
    assert_eq!(stepf(5.0, 0.5), PowStep::Sqrt);
    assert_eq!(stepf(-0.0, -5.0), PowStep::Edge { recip: true, negate: true });
    assert_eq!(stepf(-1.0, 0.5), PowStep::Nan);
    assert_eq!(stepf(-3.0, 2.5), PowStep::Nan);
    assert_eq!(stepf(-3.0, 3.0), PowStep::Regular { negative: true });
    assert_eq!(stepf(-3.0, 1e9), PowStep::Overflow { negative: false });
    assert_eq!(stepf(-3.0, 134217744.0), PowStep::Overflow { negative: false });
    assert_eq!(stepf(-0.5, 134217744.0), PowStep::Underflow { negative: false });
    assert_eq!(stepf(0.5, 1e9), PowStep::Underflow { negative: false });
    assert_eq!(stepf(1.0000001, 1e9), PowStep::NearOne { negative: false });
}

#[test]
fn pow_step_infinite_base() {
    let inf = f64::INFINITY;
    // (+inf)^y
    assert_eq!(step(inf, 3.0), PowStep::Edge { recip: false, negate: false });
    assert_eq!(step(inf, -0.5), PowStep::Edge { recip: true, negate: false });
    assert_eq!(step(inf, -1.0), PowStep::RecipX);
    // (-inf)^y against (-0)^(-y)
    assert_eq!(step(-inf, 3.0), PowStep::Edge { recip: false, negate: true });
    assert_eq!(step(-0.0, -3.0), PowStep::Edge { recip: true, negate: true });
    assert_eq!(step(-inf, 2.0), PowStep::Square);
    assert_eq!(step(-0.0, -2.0), PowStep::Edge { recip: true, negate: false });
    assert_eq!(step(-inf, inf), PowStep::Y);
    assert_eq!(step(-0.0, -inf), PowStep::NegY);
}

#[test]
fn pow_step_negative_base_mirrors_positive() {
    assert_eq!(step(-3.0, 5.0), PowStep::Regular { negative: true });
    assert_eq!(step(3.0, 5.0), PowStep::Regular { negative: false });
    assert_eq!(step(-3.0, 4.0), PowStep::Regular { negative: false });
    assert_eq!(step(-1.0, 3.0), PowStep::Edge { recip: false, negate: true });
    assert_eq!(step(1.0, 3.0), PowStep::One);
    assert_eq!(step(-1.0, -1.0), PowStep::RecipX);
    assert_eq!(step(-2.0, 1e300), PowStep::Overflow { negative: false });
    assert_eq!(stepf(-3.0, 5.0), PowStep::Regular { negative: true });
    assert_eq!(stepf(-0.5, -3.0), PowStep::Regular { negative: true });
    assert_eq!(stepf(-1.0, 2.0), PowStep::Square);
}

#[test]
fn pow_ranges() {
    let words = |z: f64| ((z.to_bits() >> 32) as i32, z.to_bits() as i32);
    let (j, i) = words(1024.0);
    assert_eq!(pow_range_of(j, i), PowRange::AtMax);
    let (j, i) = words(1024.5);
    assert_eq!(pow_range_of(j, i), PowRange::Overflow);
    let (j, i) = words(1024.0000000000002);
    assert_eq!(pow_range_of(j, i), PowRange::Overflow);
    let (j, i) = words(-1075.0);
    assert_eq!(pow_range_of(j, i), PowRange::AtMin);
    let (j, i) = words(-1075.5);
    assert_eq!(pow_range_of(j, i), PowRange::Underflow);
    let (j, i) = words(-1074.9);
    assert_eq!(pow_range_of(j, i), PowRange::InRange);
    let (j, i) = words(1023.9);
    assert_eq!(pow_range_of(j, i), PowRange::InRange);
    let jf = |z: f32| z.to_bits() as i32;
    assert_eq!(powf_range_of(jf(128.0)), PowRange::AtMax);
    assert_eq!(powf_range_of(jf(128.5)), PowRange::Overflow);
    assert_eq!(powf_range_of(jf(-150.0)), PowRange::AtMin);
    assert_eq!(powf_range_of(jf(-150.5)), PowRange::Underflow);
    assert_eq!(powf_range_of(jf(-149.0)), PowRange::InRange);
    assert_eq!(powf_range_of(jf(3.0)), PowRange::InRange);
}

#[test]
fn pow_scales() {
    // 1.5 * 2^3 = 12
    let hi = (1.5f64.to_bits() >> 32) as i32;
    assert_eq!(pow_scale(hi, 3), Some((12.0f64.to_bits() >> 32) as u32));
    assert_eq!(pow_scale(hi, -1022), Some((1.5f64 * 2f64.powi(-1022)).to_bits().wrapping_shr(32) as u32));
    assert_eq!(pow_scale(hi, -1023), None);
    let b = 1.5f32.to_bits() as i32;
    assert_eq!(powf_scale(b, 3), Some(12.0f32.to_bits()));
    assert_eq!(powf_scale(b, -126), Some((1.5f32 * 2f32.powi(-126)).to_bits()));
    assert_eq!(powf_scale(b, -127), None);
}
