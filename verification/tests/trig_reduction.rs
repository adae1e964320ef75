use libm::trig_reduction::{large_parts, large_parts_f, pio2_step_of, pio2f_step_of, PiO2Step, PiO2StepF, sincosf_range_of, SincosfRange};
use std::f64::consts::PI;

fn step(x: f64) -> PiO2Step {
    pio2_step_of(x.to_bits())
}

#[test]
fn pio2_steps() {
    assert_eq!(step(1.0), PiO2Step::Multiple { n: 1 });
    assert_eq!(step(-1.0), PiO2Step::Multiple { n: -1 });
    assert_eq!(step(3.0), PiO2Step::Multiple { n: 2 });
    assert_eq!(step(-3.0), PiO2Step::Multiple { n: -2 });
    assert_eq!(step(5.0), PiO2Step::Multiple { n: 3 });
    assert_eq!(step(-6.5), PiO2Step::Multiple { n: -4 });
    assert_eq!(step(1.5 * PI), PiO2Step::Medium);
    assert_eq!(step(0.5 * PI), PiO2Step::Medium);
    assert_eq!(step(PI), PiO2Step::Medium);
    assert_eq!(step(-PI), PiO2Step::Medium);
    assert_eq!(step(-0.5 * PI), PiO2Step::Medium);
    assert_eq!(step(2.0 * PI), PiO2Step::Medium);
    assert_eq!(step(100.0), PiO2Step::Medium);
    assert_eq!(step(1e7), PiO2Step::Large);
    assert_eq!(step(-1e300), PiO2Step::Large);
    assert_eq!(step(f64::INFINITY), PiO2Step::NonFinite);
    assert_eq!(step(f64::NAN), PiO2Step::NonFinite);
}

#[test]
fn large_parts_scale_to_24_bits() {
    for x in [1e7f64, -3.0e9, 1.7e308, 2f64.powi(23), 1.6471e6] {
        let (z, e0) = large_parts(x.to_bits());
        let z = f64::from_bits(z);
        assert!((8388608.0..16777216.0).contains(&z), "x = {}", x);
        assert_eq!(z * 2f64.powi(e0), x.abs(), "x = {}", x);
    }
    assert_eq!(large_parts(1.6471e6f64.to_bits()).1, -3);
}

#[test]
fn pio2f_steps() {
    let step = |x: f32| pio2f_step_of(x.to_bits());
    assert_eq!(step(0.5), PiO2StepF::Small);
    assert_eq!(step(-0.78), PiO2StepF::Small);
    assert_eq!(step(1.0), PiO2StepF::One { n: 1, near: false });
    assert_eq!(step(-2.0), PiO2StepF::One { n: -1, near: false });
    assert_eq!(step(std::f32::consts::FRAC_PI_2), PiO2StepF::One { n: 1, near: true });
    assert_eq!(step(-std::f32::consts::FRAC_PI_2), PiO2StepF::One { n: -1, near: true });
    assert_eq!(step(10.0), PiO2StepF::Medium);
    assert_eq!(step(201.0), PiO2StepF::Medium);
    assert_eq!(step(1e5), PiO2StepF::Large);
    assert_eq!(step(f32::INFINITY), PiO2StepF::NonFinite);
    assert_eq!(step(f32::NAN), PiO2StepF::NonFinite);
    for x in [1e5f32, -3.5e20, f32::MAX] {
        let (z, e0) = large_parts_f(x.to_bits());
        let z = f32::from_bits(z);
        assert!((128.0..256.0).contains(&z), "x = {}", x);
        assert_eq!(z as f64 * 2f64.powi(e0), x.abs() as f64, "x = {}", x);
    }
}

#[test]
fn sincosf_ranges() {
    let range = |x: f32| sincosf_range_of(x.to_bits());
    assert_eq!(range(0.0), SincosfRange::Tiny { very_small: true });
    assert_eq!(range(-1e-4), SincosfRange::Tiny { very_small: false });
    assert_eq!(range(0.5), SincosfRange::Kernel);
    assert_eq!(range(-2.0), SincosfRange::Near { k: 1 });
    assert_eq!(range(3.0), SincosfRange::Near { k: 2 });
    assert_eq!(range(-5.0), SincosfRange::Near { k: 3 });
    assert_eq!(range(6.5), SincosfRange::Near { k: 4 });
    assert_eq!(range(8.0), SincosfRange::Reduce);
    assert_eq!(range(f32::NEG_INFINITY), SincosfRange::NonFinite);
}
