use libm::hypotf::{hypotf_step_of, HypotfStep};

fn step(x: f32, y: f32) -> (HypotfStep, u32, u32) {
    hypotf_step_of(x.to_bits(), y.to_bits())
}

#[test]
fn hypotf_steps() {
    let inf = f32::INFINITY.to_bits();
    assert_eq!(step(f32::NAN, f32::NEG_INFINITY).0, HypotfStep::Infinite);
    assert_eq!(step(f32::INFINITY, f32::INFINITY), (HypotfStep::Infinite, inf, inf));
    assert_eq!(step(-3.0, f32::INFINITY), (HypotfStep::Sum, inf, 3.0f32.to_bits()));
    assert_eq!(step(5.0, 0.0).0, HypotfStep::Sum);
    assert_eq!(step(1e10, 1.0).0, HypotfStep::Sum);
    assert_eq!(step(-4.0, 3.0), (HypotfStep::Plain, 4.0f32.to_bits(), 3.0f32.to_bits()));
    assert_eq!(step(1e20, 3e19).0, HypotfStep::ScaleDown);
    assert_eq!(step(1e-20, 3e-20).0, HypotfStep::ScaleUp);
}
