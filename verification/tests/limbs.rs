use libm::limbs::{complement_limbs, split_top_limb, table_start, chop_zero_limbs, recompute_terms};

fn value(iq: &[i32], n: usize, w: u32) -> u128 {
    let mut v: u128 = 0;
    for i in (0..n).rev() {
        v = (v << w) + iq[i] as u128;
    }
    v
}

#[test]
fn complement_of_one() {
    let mut iq = [1, 0, 0, 77];
    assert!(complement_limbs(&mut iq, 3, 24));
    assert_eq!(iq, [0xff_ffff, 0xff_ffff, 0xff_ffff, 77]);
}

#[test]
fn complement_with_low_zero_limbs() {
    let mut iq = [0, 0, 5];
    assert!(complement_limbs(&mut iq, 3, 24));
    assert_eq!(iq, [0, 0, 0x100_0000 - 5]);
}

#[test]
fn complement_of_zero_is_unchanged() {
    let mut iq = [0, 0, 0, 9];
    assert!(!complement_limbs(&mut iq, 3, 8));
    assert_eq!(iq, [0, 0, 0, 9]);
}

#[test]
fn complement_of_eight_bit_limbs() {
    let mut iq = [3, 7];
    assert!(complement_limbs(&mut iq, 2, 8));
    assert_eq!(iq, [0xfd, 0xf8]);
    assert_eq!(value(&iq, 2, 8), 65536 - (3 + 7 * 256));
}

#[test]
fn complement_twice_restores() {
    let mut s: u64 = 0x1234_5678_9abc_def1;
    for _ in 0..2000 {
        s ^= s << 13;
        s ^= s >> 7;
        s ^= s << 17;
        let w: u32 = if s & 1 == 0 { 8 } else { 24 };
        let mask = (1u64 << w) - 1;
        let mut iq = [0i32; 5];
        for (i, limb) in iq.iter_mut().enumerate() {
            *limb = ((s >> (i * 11)) & mask) as i32;
        }
        let jz = ((s >> 60) % 5) as usize;
        let orig = iq;
        let v = value(&iq, jz, w);
        let carry = complement_limbs(&mut iq, jz, w);
        assert_eq!(carry, v != 0);
        if carry {
            assert_eq!(value(&iq, jz, w), (1u128 << (w as usize * jz)) - v);
        }
        assert_eq!(iq[jz..], orig[jz..]);
        complement_limbs(&mut iq, jz, w);
        assert_eq!(iq, orig);
    }
}

#[test]
fn split_takes_the_integer_bits() {
    let mut iq = [5, 0b1011_0110];
    assert_eq!(split_top_limb(&mut iq, 2, 8, 2), (2, 1));
    assert_eq!(iq, [5, 0b11_0110]);
    let mut iq = [0x00a0_0000, 0x0060_0000];
    assert_eq!(split_top_limb(&mut iq, 2, 24, 1), (0, 1));
    assert_eq!(iq, [0x00a0_0000, 0x0060_0000]);
    let mut iq = [0x00e0_0001];
    assert_eq!(split_top_limb(&mut iq, 1, 24, 1), (1, 1));
    assert_eq!(iq, [0x0060_0001]);
    let mut iq = [0x0010_0000];
    assert_eq!(split_top_limb(&mut iq, 1, 24, 2), (0, 0));
}

#[test]
fn table_start_offsets() {
    assert_eq!(table_start(100, 3, 24), (4, -20, 2));
    assert_eq!(table_start(1, 3, 24), (0, -23, -2));
    assert_eq!(table_start(-5, 1, 8), (0, -13, 0));
    assert_eq!(table_start(27, 2, 24), (1, -21, 0));
    assert_eq!(table_start(19, 1, 8), (2, -5, 2));
}

#[test]
fn recompute_and_chop() {
    let iq = [5, 0, 0, 0, 7, 0, 0, 0];
    // a nonzero limb at or above jk: no recomputation
    assert_eq!(recompute_terms(&iq, 3, 5), None);
    // all zero from jk up to jz: two terms (limbs 2 and 1 are zero, 0 is not)
    assert_eq!(recompute_terms(&iq, 3, 4), Some(3));
    assert_eq!(recompute_terms(&iq, 1, 4), Some(1));
    // chop: the highest nonzero limb below jz, and q0 lowered per limb
    assert_eq!(chop_zero_limbs(&iq, 8, 10, 24), (4, 10 - 4 * 24));
    assert_eq!(chop_zero_limbs(&iq, 5, -3, 8), (4, -11));
    assert_eq!(chop_zero_limbs(&iq, 4, 0, 8), (0, -32));
}
