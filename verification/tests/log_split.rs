use libm::log_split::{log1p_step_of, log1pf_step_of, log_split, logf_split, Log1pStep, Log1pfStep, LogSplit, LogSplitF};

// The reduction as the binary64 logarithms write it in floating point.
fn reference(x: f64) -> LogSplit {
    let mut x = x;
    let mut ui: u64 = x.to_bits();
    let mut hx = (ui >> 32) as u32;
    let mut k: i32 = 0;
    if hx < 0x0010_0000 || (hx >> 31) > 0 {
        if ui << 1 == 0 {
            return LogSplit::NegInf;
        }
        if (hx >> 31) > 0 {
            return LogSplit::Nan;
        }
        k -= 54;
        x *= f64::from_bits(0x4350_0000_0000_0000);
        ui = x.to_bits();
        hx = (ui >> 32) as u32;
    } else if hx >= 0x7ff0_0000 {
        return LogSplit::Itself;
    } else if hx == 0x3ff0_0000 && ui << 32 == 0 {
        return LogSplit::Zero;
    }
    hx += 0x3ff0_0000 - 0x3fe6_a09e;
    k += (hx >> 20) as i32 - 0x3ff;
    hx = (hx & 0x000f_ffff) + 0x3fe6_a09e;
    ui = (hx as u64) << 32 | (ui & 0xffff_ffff);
    LogSplit::Reduce { k, y: ui }
}

// The reduction as the binary32 logarithm writes it in floating point.
fn reference_f(x: f32) -> LogSplitF {
    let mut x = x;
    let mut ix = x.to_bits();
    let mut k: i32 = 0;
    if ix < 0x0080_0000 || (ix & 0x8000_0000) != 0 {
        if ix << 1 == 0 {
            return LogSplitF::NegInf;
        }
        if (ix & 0x8000_0000) != 0 {
            return LogSplitF::Nan;
        }
        k -= 25;
        x *= f32::from_bits(0x4c00_0000);
        ix = x.to_bits();
    } else if ix >= 0x7f80_0000 {
        return LogSplitF::Itself;
    } else if ix == 0x3f80_0000 {
        return LogSplitF::Zero;
    }
    ix += 0x3f80_0000 - 0x3f35_04f3;
    k += ((ix >> 23) as i32) - 0x7f;
    ix = (ix & 0x007f_ffff) + 0x3f35_04f3;
    LogSplitF::Reduce { k, y: ix }
}

#[test]
fn log_split_special_arguments() {
    assert_eq!(log_split(0.0f64.to_bits()), LogSplit::NegInf);
    assert_eq!(log_split((-0.0f64).to_bits()), LogSplit::NegInf);
    assert_eq!(log_split((-2.0f64).to_bits()), LogSplit::Nan);
    assert_eq!(log_split(f64::NEG_INFINITY.to_bits()), LogSplit::Nan);
    assert_eq!(log_split(f64::INFINITY.to_bits()), LogSplit::Itself);
    assert_eq!(log_split(f64::NAN.to_bits()), LogSplit::Itself);
    assert_eq!(log_split(1.0f64.to_bits()), LogSplit::Zero);
    assert_eq!(log_split(8.0f64.to_bits()), LogSplit::Reduce { k: 3, y: 1.0f64.to_bits() });
    assert_eq!(log_split(1.5f64.to_bits()), LogSplit::Reduce { k: 1, y: 0.75f64.to_bits() });
    assert_eq!(log_split(1u64), LogSplit::Reduce { k: -1074, y: 1.0f64.to_bits() });
}

#[test]
fn logf_split_special_arguments() {
    assert_eq!(logf_split(0.0f32.to_bits()), LogSplitF::NegInf);
    assert_eq!(logf_split((-1.0f32).to_bits()), LogSplitF::Nan);
    assert_eq!(logf_split(f32::INFINITY.to_bits()), LogSplitF::Itself);
    assert_eq!(logf_split(1.0f32.to_bits()), LogSplitF::Zero);
    assert_eq!(logf_split(4.0f32.to_bits()), LogSplitF::Reduce { k: 2, y: 1.0f32.to_bits() });
    assert_eq!(logf_split(1.5f32.to_bits()), LogSplitF::Reduce { k: 1, y: 0.75f32.to_bits() });
    assert_eq!(logf_split(1u32), LogSplitF::Reduce { k: -149, y: 1.0f32.to_bits() });
}

#[test]
fn log_split_matches_the_floating_point_reduction() {
    let mut s: u64 = 0x2545_f491_4f6c_dd1d;
    for i in 0..200_000u64 {
        s ^= s << 13;
        s ^= s >> 7;
        s ^= s << 17;
        // every sixteenth argument subnormal
        let x = if i % 16 == 0 { s & 0x800f_ffff_ffff_ffff } else { s };
        assert_eq!(log_split(x), reference(f64::from_bits(x)), "{:#x}", x);
        let xf = if i % 16 == 1 { (s as u32) & 0x807f_ffff } else { s as u32 };
        assert_eq!(logf_split(xf), reference_f(f32::from_bits(xf)), "{:#x}", xf);
        if let LogSplit::Reduce { k, y } = log_split(x) {
            let yf = f64::from_bits(y);
            assert!(yf >= std::f64::consts::SQRT_2 / 2.0 - 1e-6 && yf < std::f64::consts::SQRT_2);
            let a = k / 2;
            assert_eq!(yf * 2f64.powi(a) * 2f64.powi(k - a), f64::from_bits(x));
        }
    }
}

#[test]
fn log1p_steps() {
    let step = |x: f64| log1p_step_of(x.to_bits());
    assert_eq!(step(-1.0), Log1pStep::Pole);
    assert_eq!(step(-2.0), Log1pStep::Nan);
    assert_eq!(step(-f64::NAN), Log1pStep::Nan);
    assert_eq!(step(1e-20), Log1pStep::Tiny { subnormal: false });
    assert_eq!(step(-5e-324), Log1pStep::Tiny { subnormal: true });
    assert_eq!(step(0.0), Log1pStep::Tiny { subnormal: true });
    assert_eq!(step(0.1), Log1pStep::Small);
    assert_eq!(step(-0.25), Log1pStep::Small);
    assert_eq!(step(-0.5), Log1pStep::Reduce);
    assert_eq!(step(3.0), Log1pStep::Reduce);
    assert_eq!(step(f64::INFINITY), Log1pStep::Itself);
    assert_eq!(step(f64::NAN), Log1pStep::Itself);
}

#[test]
fn log1pf_steps() {
    let step = |x: f32| log1pf_step_of(x.to_bits());
    assert_eq!(step(-1.0), Log1pfStep::Pole);
    assert_eq!(step(-1.5), Log1pfStep::Nan);
    assert_eq!(step(1e-9), Log1pfStep::Tiny { subnormal: false });
    assert_eq!(step(-1e-40), Log1pfStep::Tiny { subnormal: true });
    assert_eq!(step(0.2), Log1pfStep::Small);
    assert_eq!(step(-0.25), Log1pfStep::Small);
    assert_eq!(step(-0.5), Log1pfStep::Reduce);
    assert_eq!(step(0.5), Log1pfStep::Reduce);
    assert_eq!(step(f32::INFINITY), Log1pfStep::Itself);
}

#[test]
fn log1p_reduction_is_that_of_log() {
    // 1 + x, reduced the way log1p reduces it, is what log_split gives
    for u in [0.3f64, 0.70, 1.5, 1.42, 7.0, 1e300] {
        let ui = u.to_bits();
        let mut hu = (ui >> 32) as u32;
        hu += 0x3ff00000 - 0x3fe6a09e;
        let k = (hu >> 20) as i32 - 0x3ff;
        hu = (hu & 0x000fffff) + 0x3fe6a09e;
        let y = (hu as u64) << 32 | (ui & 0xffffffff);
        assert_eq!(log_split(ui), LogSplit::Reduce { k, y }, "u = {}", u);
    }
    for u in [0.3f32, 0.70, 1.5, 1.42, 7.0, 1e30] {
        let ui = u.to_bits();
        let mut iu = ui + (0x3f80_0000 - 0x3f35_04f3);
        let k = (iu >> 23) as i32 - 0x7f;
        iu = (iu & 0x007f_ffff) + 0x3f35_04f3;
        assert_eq!(logf_split(ui), LogSplitF::Reduce { k, y: iu }, "u = {}", u);
    }
}
