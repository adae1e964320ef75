use libm::expm1f::{expm1f_step_of, Expm1fStep};

fn step(x: f32) -> Expm1fStep {
    expm1f_step_of(x.to_bits())
}

#[test]
fn expm1f_steps() {
    assert_eq!(step(f32::NAN), Expm1fStep::Nan);
    assert_eq!(step(-20.0), Expm1fStep::MinusOne);
    assert_eq!(step(f32::NEG_INFINITY), Expm1fStep::MinusOne);
    assert_eq!(step(89.0), Expm1fStep::Overflow);
    assert_eq!(step(f32::INFINITY), Expm1fStep::Overflow);
    assert_eq!(step(88.0), Expm1fStep::Reduce);
    assert_eq!(step(20.0), Expm1fStep::Reduce);
    assert_eq!(step(0.5), Expm1fStep::OneLn2 { negative: false });
    assert_eq!(step(-0.5), Expm1fStep::OneLn2 { negative: true });
    assert_eq!(step(0.1), Expm1fStep::Primary);
    assert_eq!(step(1e-8), Expm1fStep::Tiny { subnormal: false });
    assert_eq!(step(-1e-40), Expm1fStep::Tiny { subnormal: true });
    assert_eq!(step(0.0), Expm1fStep::Tiny { subnormal: true });
}
