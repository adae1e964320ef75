use libm::log::{log_step, LogStep};

fn scale(y: f64, e: i32) -> f64 {
    // multiply by 2^e in two exact halves
    let a = e / 2;
    let b = e - a;
    y * 2f64.powi(a) * 2f64.powi(b)
}

#[test]
fn log_step_special_arguments() {
    assert_eq!(log_step(1.0f64.to_bits()), LogStep::Zero);
    assert_eq!(log_step((-1.0f64).to_bits()), LogStep::Nan);
    assert_eq!(log_step(f64::NEG_INFINITY.to_bits()), LogStep::Nan);
    assert_eq!(log_step((-5e-324f64).to_bits()), LogStep::Nan);
    assert_eq!(log_step(0.0f64.to_bits()), LogStep::NegInf);
    assert_eq!(log_step((-0.0f64).to_bits()), LogStep::NegInf);
    assert_eq!(log_step(f64::INFINITY.to_bits()), LogStep::Sum);
    assert_eq!(log_step(f64::NAN.to_bits()), LogStep::Sum);
    assert_eq!(log_step(0xfff8_0000_0000_0001), LogStep::Sum);
}

#[test]
fn log_step_reductions() {
    assert_eq!(
        log_step(2.0f64.to_bits()),
        LogStep::Reduce { e: 1, y: 1.0f64.to_bits(), index: 150 }
    );
    assert_eq!(
        log_step(1.5f64.to_bits()),
        LogStep::Reduce { e: 1, y: 0.75f64.to_bits(), index: 22 }
    );
    assert_eq!(
        log_step(1u64),
        LogStep::Reduce { e: -1074, y: 1.0f64.to_bits(), index: 150 }
    );
    assert_eq!(
        log_step(f64::MAX.to_bits()),
        LogStep::Reduce { e: 1024, y: 0x3fef_ffff_ffff_ffff, index: 149 }
    );
}

#[test]
fn log_step_reduction_is_exact() {
    let mut s: u64 = 0x2545_f491_4f6c_dd1d;
    for _ in 0..100_000 {
        s ^= s << 13;
        s ^= s >> 7;
        s ^= s << 17;
        let x = s >> 1;
        let xf = f64::from_bits(x);
        if !xf.is_finite() || xf == 0.0 || xf == 1.0 {
            continue;
        }
        match log_step(x) {
            LogStep::Reduce { e, y, index } => {
                let yf = f64::from_bits(y);
                assert!(yf >= std::f64::consts::SQRT_2 / 2.0 && yf < std::f64::consts::SQRT_2);
                assert_eq!(scale(yf, e), xf);
                let m = (y & 0xf_ffff_ffff_ffff) | (1 << 52);
                let c = if yf < 1.0 { 1 } else { 0 };
                assert_eq!(index as u64, (m >> (43 + c)) - 362);
                assert!(index < 363);
            }
            other => panic!("{:?} for {:e}", other, xf),
        }
    }
}
