use libm::lgamma::{lgamma_reflect, lgamma_step_of, lgammaf_reflect, lgammaf_step_of, LgammaStep};

fn step(x: f64) -> LgammaStep {
    lgamma_step_of(x.to_bits())
}

fn stepf(x: f32) -> LgammaStep {
    lgammaf_step_of(x.to_bits())
}

#[test]
fn lgamma_steps() {
    assert_eq!(step(f64::INFINITY), LgammaStep::NonFinite);
    assert_eq!(step(f64::NAN), LgammaStep::NonFinite);
    assert_eq!(step(0.0), LgammaStep::Tiny { negative: false });
    assert_eq!(step(-1e-30), LgammaStep::Tiny { negative: true });
    assert_eq!(step(1.0), LgammaStep::OneOrTwo);
    assert_eq!(step(2.0), LgammaStep::OneOrTwo);
    assert_eq!(step(-2.0), LgammaStep::OneOrTwo);
    assert_eq!(step(1.0000000000000002), LgammaStep::BelowTwo { i: 2, minus_log: false });
    assert_eq!(step(0.8), LgammaStep::BelowTwo { i: 0, minus_log: true });
    assert_eq!(step(0.5), LgammaStep::BelowTwo { i: 1, minus_log: true });
    assert_eq!(step(0.1), LgammaStep::BelowTwo { i: 2, minus_log: true });
    assert_eq!(step(1.9), LgammaStep::BelowTwo { i: 0, minus_log: false });
    assert_eq!(step(1.5), LgammaStep::BelowTwo { i: 1, minus_log: false });
    assert_eq!(step(1.1), LgammaStep::BelowTwo { i: 2, minus_log: false });
    assert_eq!(step(5.0), LgammaStep::BelowEight);
    assert_eq!(step(100.0), LgammaStep::Stirling);
    assert_eq!(step(1e300), LgammaStep::Huge);
}

#[test]
fn lgammaf_steps() {
    assert_eq!(stepf(f32::NEG_INFINITY), LgammaStep::NonFinite);
    assert_eq!(stepf(-0.0), LgammaStep::Tiny { negative: true });
    assert_eq!(stepf(1.0), LgammaStep::OneOrTwo);
    assert_eq!(stepf(2.0), LgammaStep::OneOrTwo);
    assert_eq!(stepf(0.8), LgammaStep::BelowTwo { i: 0, minus_log: true });
    assert_eq!(stepf(0.5), LgammaStep::BelowTwo { i: 1, minus_log: true });
    assert_eq!(stepf(0.1), LgammaStep::BelowTwo { i: 2, minus_log: true });
    assert_eq!(stepf(1.9), LgammaStep::BelowTwo { i: 0, minus_log: false });
    assert_eq!(stepf(1.5), LgammaStep::BelowTwo { i: 1, minus_log: false });
    assert_eq!(stepf(1.1), LgammaStep::BelowTwo { i: 2, minus_log: false });
    assert_eq!(stepf(7.5), LgammaStep::BelowEight);
    assert_eq!(stepf(1e10), LgammaStep::Stirling);
    assert_eq!(stepf(1e30), LgammaStep::Huge);
}

#[test]
fn lgamma_reflection() {
    assert_eq!(lgamma_reflect(0.0f64.to_bits()), None);
    assert_eq!(lgamma_reflect((-0.0f64).to_bits()), None);
    assert_eq!(lgamma_reflect(0.5f64.to_bits()), Some(-1));
    assert_eq!(lgamma_reflect((-0.5f64).to_bits()), Some(1));
    assert_eq!(lgamma_reflect(f64::NAN.to_bits()), Some(1));
    assert_eq!(lgammaf_reflect(0.0f32.to_bits()), None);
    assert_eq!(lgammaf_reflect(0.25f32.to_bits()), Some(-1));
    assert_eq!(lgammaf_reflect((-0.25f32).to_bits()), Some(1));
}
