use lib::ap_int::ApInt;

fn v(a: &ApInt) -> u64 {
    a.try_zext_u64().unwrap()
}

#[test]
fn wrapping_arithmetic() {
    let a = ApInt::from_u64(8, 200);
    let b = ApInt::from_u64(8, 100);
    assert_eq!(v(&a.wrapping_add(&b)), 44);
    assert_eq!(v(&b.wrapping_sub(&a)), 156);
    assert_eq!(v(&a.wrapping_mul(&b)), (200 * 100) % 256);
    assert_eq!(v(&a.wrapping_add(&b).wrapping_sub(&b)), 200);
    assert_eq!(v(&ApInt::from_u64(8, 1).negate()), 255);
}

#[test]
fn overflow_reports() {
    let a = ApInt::from_u64(8, 200);
    let b = ApInt::from_u64(8, 100);
    assert!(a.uadd_ov(&b).1);
    assert!(!b.uadd_ov(&b).1);
    assert!(b.usub_ov(&a).1);
    assert_eq!(v(&a.uadd_sat(&b)), 255);
    assert_eq!(v(&b.usub_sat(&a)), 0);
}

#[test]
fn signed_saturation() {
    let max = ApInt::signed_max_value(8);
    let one = ApInt::from_u64(8, 1);
    assert_eq!(v(&max.sadd_sat(&one)), 127);
    let min = ApInt::signed_min_value(8);
    assert_eq!(v(&min.ssub_sat(&one)), 128);
}

#[test]
fn shifts() {
    let a = ApInt::from_u64(8, 0b1001_0110);
    assert_eq!(v(&a.shl(2)), 0b0101_1000);
    assert_eq!(v(&a.lshr(2)), 0b0010_0101);
    assert_eq!(v(&a.ashr(2)), 0b1110_0101);
    assert_eq!(v(&a.shl(9)), 0);
}

#[test]
fn division() {
    let a = ApInt::from_u64(8, 200);
    let b = ApInt::from_u64(8, 7);
    assert_eq!(v(&a.checked_udiv(&b).unwrap()), 28);
    assert!(a.checked_udiv(&ApInt::zero(8)).is_none());
    // -56 / 7 == -8
    assert_eq!(v(&a.checked_sdiv(&b).unwrap()), 248);
    assert!(ApInt::signed_min_value(8).checked_sdiv(&ApInt::all_ones(8)).is_none());
}

#[test]
fn width_changes() {
    let a = ApInt::from_u64(8, 0x80);
    assert_eq!(v(&a.zext(16).unwrap()), 0x0080);
    assert_eq!(v(&a.sext(16).unwrap()), 0xff80);
    assert_eq!(v(&a.trunc(4).unwrap()), 0);
    assert!(a.trunc(9).is_none());
    assert!(a.zext(4).is_none());
    assert!(a.sext(4).is_none());
}

#[test]
fn bit_counts() {
    let a = ApInt::from_u64(16, 0x0f00);
    assert_eq!(a.popcount(), 4);
    assert_eq!(a.count_trailing_zeros(), 8);
    assert_eq!(a.count_leading_zeros(), 4);
    assert!(ApInt::from_u64(16, 0x0400).is_power_of_2());
    assert!(!a.is_power_of_2());
}

#[test]
fn comparisons() {
    let a = ApInt::from_u64(8, 0xff);
    let b = ApInt::from_u64(8, 1);
    assert!(a.ugt(&b));
    assert!(a.slt(&b));
    assert!(a.eq_ap_int(&ApInt::all_ones(8)));
}

#[test]
fn byte_level_reorderings() {
    let a = ApInt::from_u64(16, 0x1234);
    assert_eq!(v(&a.byte_swap()), 0x3412);
    assert_eq!(v(&ApInt::from_u64(8, 0b0000_0001).reverse_bits()), 0b1000_0000);
    assert_eq!(v(&ApInt::from_u64(8, 0xab).concat(&ApInt::from_u64(8, 0xcd))), 0xabcd);
}
