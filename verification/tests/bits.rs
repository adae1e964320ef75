use libm::ceilf::ceilf;
use libm::fabs::{fabs, fabsf};
use libm::floorf::floorf;
use libm::ilogb::{ilogb, FP_ILOGB0, FP_ILOGBNAN};
use libm::newlib::{NumState, Precision};
use libm::words::{combine_words, get_high_word, get_low_word, with_set_high_word, with_set_low_word};

#[test]
fn words_split_and_join() {
    let x = 1.5f64.to_bits();
    assert_eq!(get_high_word(x), 0x3ff8_0000);
    assert_eq!(get_low_word(x), 0);
    let y = 0x0123_4567_89ab_cdefu64;
    assert_eq!(get_high_word(y), 0x0123_4567);
    assert_eq!(get_low_word(y), 0x89ab_cdef);
    assert_eq!(with_set_high_word(y, 0xdead_beef), 0xdead_beef_89ab_cdef);
    assert_eq!(with_set_low_word(y, 0xdead_beef), 0x0123_4567_dead_beef);
    assert_eq!(combine_words(0x0123_4567, 0x89ab_cdef), y);
    assert_eq!(combine_words(get_high_word(y), get_low_word(y)), y);
}

#[test]
fn fabs_clears_the_sign() {
    assert_eq!(f64::from_bits(fabs((-2.5f64).to_bits())), 2.5);
    assert_eq!(fabs((-0.0f64).to_bits()), 0);
    assert_eq!(fabs(f64::NEG_INFINITY.to_bits()), f64::INFINITY.to_bits());
    assert_eq!(f32::from_bits(fabsf((-2.5f32).to_bits())), 2.5);
    assert_eq!(fabsf(0x8000_0001), 1);
    assert_eq!(fabsf(0xffc0_0000), 0x7fc0_0000);
}

#[test]
fn ilogb_exponents() {
    assert_eq!(ilogb(1.0f64.to_bits()), 0);
    assert_eq!(ilogb(1024.5f64.to_bits()), 10);
    assert_eq!(ilogb((-0.3f64).to_bits()), -2);
    assert_eq!(ilogb(f64::MAX.to_bits()), 1023);
    assert_eq!(ilogb(f64::MIN_POSITIVE.to_bits()), -1022);
    assert_eq!(ilogb(1), -1074);
    assert_eq!(ilogb(0x000f_ffff_ffff_ffff), -1023);
    assert_eq!(ilogb(0x0000_0000_0001_0000), -1058);
    assert_eq!(ilogb(0), FP_ILOGB0);
    assert_eq!(ilogb(f64::NAN.to_bits()), FP_ILOGBNAN);
    assert_eq!(ilogb(f64::INFINITY.to_bits()), isize::MAX);
    assert_eq!(FP_ILOGBNAN, -1 - ((!0isize) >> 1));
}

#[test]
fn ilogb_matches_floor_log2_on_subnormals() {
    for k in 0..52u32 {
        let x = 1u64 << k;
        assert_eq!(ilogb(x), k as isize - 1074);
        assert_eq!(ilogb(x | 1), k as isize - 1074);
    }
}

fn sample_patterns() -> Vec<u32> {
    let mut v = Vec::new();
    let mut x: u64 = 0;
    while x <= u32::MAX as u64 {
        v.push(x as u32);
        v.push((x as u32).wrapping_add(1));
        v.push((x as u32).wrapping_sub(1));
        x += 0x1_0001;
    }
    v
}

#[test]
fn ceilf_examples() {
    assert_eq!(f32::from_bits(ceilf(1.5f32.to_bits())), 2.0);
    assert_eq!(f32::from_bits(ceilf((-1.5f32).to_bits())), -1.0);
    assert_eq!(ceilf((-0.5f32).to_bits()), (-0.0f32).to_bits());
    assert_eq!(ceilf(0.25f32.to_bits()), 1.0f32.to_bits());
    assert_eq!(ceilf(0), 0);
    assert_eq!(f32::from_bits(ceilf(8388607.5f32.to_bits())), 8388608.0);
    assert_eq!(ceilf(f32::NAN.to_bits()), f32::NAN.to_bits());
    assert_eq!(ceilf(f32::INFINITY.to_bits()), f32::INFINITY.to_bits());
}

#[test]
fn ceilf_matches_hardware_ceil() {
    for x in sample_patterns() {
        let v = f32::from_bits(x);
        if v.is_nan() {
            assert_eq!(ceilf(x), x);
        } else {
            assert_eq!(ceilf(x), v.ceil().to_bits(), "x = {:#010x}", x);
        }
    }
}

#[test]
fn floorf_examples() {
    assert_eq!(f32::from_bits(floorf(1.5f32.to_bits())), 1.0);
    assert_eq!(f32::from_bits(floorf((-1.5f32).to_bits())), -2.0);
    assert_eq!(f32::from_bits(floorf((-8388607.5f32).to_bits())), -8388608.0);
    assert_eq!(floorf(f32::INFINITY.to_bits()), f32::INFINITY.to_bits());
    assert_eq!(floorf(0x7f80_0001), 0x7fc0_0001);
    assert_eq!(floorf(0x7fc0_0000), 0x7fc0_0000);
}

#[test]
fn floorf_below_one() {
    assert_eq!(floorf(0.75f32.to_bits()), 0.0f32.to_bits());
    assert_eq!(floorf((-0.75f32).to_bits()), (-1.0f32).to_bits());
    assert_eq!(floorf(0), 0);
    assert_eq!(floorf(0x8000_0000), 0x8000_0000);
    assert_eq!(floorf(1), 0);
    assert_eq!(floorf(0x8000_0001), (-1.0f32).to_bits());
    assert_eq!(floorf((-0.999_999_94f32).to_bits()), (-1.0f32).to_bits());
}

#[test]
fn floorf_matches_hardware_floor() {
    for x in sample_patterns() {
        let v = f32::from_bits(x);
        let expected = (v + v).to_bits();
        if v.is_nan() {
            assert_eq!(floorf(x), expected, "x = {:#010x}", x);
        } else {
            assert_eq!(floorf(x), v.floor().to_bits(), "x = {:#010x}", x);
        }
    }
}

#[test]
fn precision_terms() {
    assert_eq!(Precision::Zero.jk(), 4);
    assert_eq!(Precision::One.jk(), 7);
    assert_eq!(Precision::Two.jk(), 9);
    assert!(NumState::Zero != NumState::Num);
    assert_eq!(NumState::Nan as i32, 2);
}

#[test]
fn fabs_is_idempotent() {
    for x in [0u64, 0x8000_0000_0000_0001, (-7.25f64).to_bits(), f64::NAN.to_bits() | (1 << 63)] {
        assert_eq!(fabs(fabs(x)), fabs(x));
    }
    for x in [0u32, 0x8000_0001, (-7.25f32).to_bits(), 0xffc0_0000] {
        assert_eq!(fabsf(fabsf(x)), fabsf(x));
    }
}

#[test]
fn rounding_laws_on_samples() {
    for x in sample_patterns() {
        let v = f32::from_bits(x);
        if v.is_nan() {
            continue;
        }
        // ceilf and floorf are idempotent
        assert_eq!(ceilf(ceilf(x)), ceilf(x), "x = {:#010x}", x);
        let r = floorf(x);
        assert_eq!(floorf(r), r, "x = {:#010x}", x);
        // ceil(x) = -floor(-x)
        assert_eq!(ceilf(x), floorf(x ^ 0x8000_0000) ^ 0x8000_0000, "x = {:#010x}", x);
    }
}
