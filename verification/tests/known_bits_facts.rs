use lib::ap_int::ApInt;
use lib::known_bits::KnownBits;

fn c(width: u32, v: u64) -> KnownBits {
    KnownBits::from_ap_int(ApInt::from_u64(width, v))
}

fn value(k: &KnownBits) -> Option<u64> {
    k.constant().and_then(|v| v.try_zext_u64())
}

fn masks(k: &KnownBits) -> (u64, u64) {
    (k.zero_mask().try_zext_u64().unwrap(), k.one_mask().try_zext_u64().unwrap())
}

#[test]
fn constant_fact_knows_every_bit() {
    let k = c(8, 0x5a);
    assert!(k.is_constant());
    assert_eq!(value(&k), Some(0x5a));
    assert_eq!(masks(&k), (0xa5, 0x5a));
    assert!(!k.has_conflict());
}

#[test]
fn unknown_fact_knows_nothing() {
    let k = KnownBits::unknown(16);
    assert!(k.is_unknown());
    assert_eq!(k.min_value().try_zext_u64(), Some(0));
    assert_eq!(k.max_value().try_zext_u64(), Some(0xffff));
    assert_eq!(value(&k), None);
}

#[test]
fn not_swaps_known_zeros_and_ones() {
    let k = c(8, 0x0f).not();
    assert_eq!(value(&k), Some(0xf0));
}

#[test]
fn bitwise_transfers_on_constants() {
    let a = c(8, 0b1100_1010);
    let b = c(8, 0b1010_0110);
    assert_eq!(value(&KnownBits::bitand(&a, &b)), Some(0b1000_0010));
    assert_eq!(value(&KnownBits::bitor(&a, &b)), Some(0b1110_1110));
    assert_eq!(value(&KnownBits::bitxor(&a, &b)), Some(0b0110_1100));
}

#[test]
fn and_with_partial_facts() {
    // Low nibble known zero on the left is enough to know the low nibble
    // of the AND.
    let left = KnownBits::from_zero_one(ApInt::from_u64(8, 0x0f), ApInt::from_u64(8, 0)).unwrap();
    let right = KnownBits::unknown(8);
    let r = KnownBits::bitand(&left, &right);
    assert_eq!(masks(&r), (0x0f, 0));
}

#[test]
fn add_of_constants_is_their_sum() {
    let r = KnownBits::add(&c(8, 200), &c(8, 100));
    assert_eq!(value(&r), Some((200 + 100) % 256));
}

#[test]
fn add_of_even_values_is_even() {
    let even = KnownBits::from_zero_one(ApInt::from_u64(8, 1), ApInt::from_u64(8, 0)).unwrap();
    let r = KnownBits::add(&even, &even);
    assert!(r.is_known_zero(0));
    assert!(!r.is_known_one(0));
}

#[test]
fn sub_of_constants_is_their_difference() {
    let r = KnownBits::sub(&c(8, 3), &c(8, 5));
    assert_eq!(value(&r), Some(254));
}

#[test]
fn compute_for_add_carry_with_known_carry() {
    let carry = c(1, 1);
    let r = KnownBits::compute_for_add_carry(&c(8, 10), &c(8, 20), &carry);
    assert_eq!(value(&r), Some(31));
}

#[test]
fn intersect_keeps_common_knowledge() {
    let r = c(8, 0b0000_0011).intersect_with(&c(8, 0b0000_0001));
    // Bit 0 is one in both, bit 1 differs, the rest are zero in both.
    assert_eq!(masks(&r), (0b1111_1100, 0b0000_0001));
}

#[test]
fn union_combines_knowledge() {
    let low = KnownBits::from_zero_one(ApInt::from_u64(8, 0x0f), ApInt::from_u64(8, 0)).unwrap();
    let high = KnownBits::from_zero_one(ApInt::from_u64(8, 0), ApInt::from_u64(8, 0xf0)).unwrap();
    let r = low.union_with(&high);
    assert_eq!(value(&r), Some(0xf0));
}

#[test]
fn extensions_and_truncation() {
    let k = c(8, 0x80);
    assert_eq!(value(&k.zext(16)), Some(0x0080));
    assert_eq!(value(&k.sext(16)), Some(0xff80));
    assert_eq!(value(&k.trunc(4)), Some(0));
    let z = KnownBits::unknown(4).zext(8);
    assert_eq!(masks(&z), (0xf0, 0));
}

#[test]
fn unsigned_bounds_of_a_partial_fact() {
    // Bit 7 known one, bit 0 known zero.
    let k = KnownBits::from_zero_one(ApInt::from_u64(8, 0x01), ApInt::from_u64(8, 0x80)).unwrap();
    assert_eq!(k.min_value().try_zext_u64(), Some(0x80));
    assert_eq!(k.max_value().try_zext_u64(), Some(0xfe));
    assert!(k.is_negative());
}

#[test]
fn mismatched_widths_are_refused() {
    let r = KnownBits::from_zero_one(ApInt::zero(8), ApInt::zero(16));
    assert_eq!(r.err(), Some(lib::error::IrError::OperandWidthMismatch { lhs: 8, rhs: 16 }));
}

#[test]
fn shift_by_constant() {
    let r = KnownBits::shl(&c(8, 0b0000_0101), &c(8, 2));
    assert_eq!(value(&r), Some(0b0001_0100));
    let r = KnownBits::lshr(&c(8, 0b1000_0000), &c(8, 3));
    assert_eq!(value(&r), Some(0b0001_0000));
    let r = KnownBits::ashr(&c(8, 0b1000_0000), &c(8, 3));
    assert_eq!(value(&r), Some(0b1111_0000));
}

#[test]
fn mul_and_udiv_of_constants() {
    assert_eq!(value(&KnownBits::mul(&c(8, 12), &c(8, 11))), Some(132));
    // The quotient of 200 by 7 is at most 28, so its top three bits are zero.
    let q = KnownBits::udiv(&c(8, 200), &c(8, 7));
    assert_eq!(q.count_min_leading_zeros(), 3);
}

#[test]
fn comparisons_of_constants() {
    assert_eq!(KnownBits::ult(&c(8, 3), &c(8, 5)), Some(true));
    assert_eq!(KnownBits::eq(&c(8, 3), &c(8, 5)), Some(false));
    assert_eq!(KnownBits::slt(&c(8, 0xff), &c(8, 1)), Some(true));
}

#[test]
fn min_and_max_of_constants() {
    let a = c(8, 0x90);
    let b = c(8, 0x20);
    assert_eq!(value(&KnownBits::umax(&a, &b)), Some(0x90));
    assert_eq!(value(&KnownBits::umin(&a, &b)), Some(0x20));
    // 0x90 is negative as a signed byte.
    assert_eq!(value(&KnownBits::smax(&a, &b)), Some(0x20));
    assert_eq!(value(&KnownBits::smin(&a, &b)), Some(0x90));
}

#[test]
fn umax_of_overlapping_ranges_keeps_common_high_bits() {
    // Both values lie in 0x40..=0x7f: bit 6 set and bit 7 clear.
    let a = KnownBits::from_zero_one(ApInt::from_u64(8, 0x80), ApInt::from_u64(8, 0x40)).unwrap();
    let b = KnownBits::from_zero_one(ApInt::from_u64(8, 0x80), ApInt::from_u64(8, 0x40)).unwrap();
    let m = KnownBits::umax(&a, &b);
    let (zero, one) = masks(&m);
    assert_eq!(zero & 0x80, 0x80);
    assert_eq!(one & 0x40, 0x40);
}

#[test]
fn make_ge_learns_high_bits_of_a_lower_bound() {
    // Any byte that is at least 0xf0 has its top four bits set.
    let k = KnownBits::unknown(8);
    let g = k.make_ge(&ApInt::from_u64(8, 0xf0));
    let (_zero, one) = masks(&g);
    assert_eq!(one, 0xf0);
    // With bits 0..3 known zero, every value >= 0xf0 is exactly 0xf0.
    let k2 = KnownBits::from_zero_one(ApInt::from_u64(8, 0x0f), ApInt::from_u64(8, 0)).unwrap();
    let g2 = k2.make_ge(&ApInt::from_u64(8, 0xf0));
    assert_eq!(value(&g2), Some(0xf0));
}

#[test]
fn absolute_difference_of_constants() {
    assert_eq!(value(&KnownBits::abdu(&c(8, 3), &c(8, 10))), Some(7));
    assert_eq!(value(&KnownBits::abdu(&c(8, 10), &c(8, 3))), Some(7));
}

#[test]
fn bit_permutations_of_constants() {
    assert_eq!(value(&c(8, 0b0000_0110).reverse_bits()), Some(0b0110_0000));
    assert_eq!(value(&c(16, 0x12ab).byte_swap()), Some(0xab12));
    assert_eq!(value(&c(8, 0xab).concat(&c(8, 0xcd))), Some(0xabcd));
    assert_eq!(value(&c(16, 0xabcd).extract_bits(8, 4)), Some(0xbc));
    let mut k = c(16, 0x0000);
    k.insert_bits(&c(4, 0xf), 8);
    assert_eq!(value(&k), Some(0x0f00));
}

#[test]
fn extension_with_unknown_high_bits() {
    let k = c(4, 0x5).anyext(8);
    assert_eq!(masks(&k), (0x0a, 0x05));
}

#[test]
fn add_and_sub_with_no_unsigned_wrap() {
    let a = c(8, 200);
    let b = c(8, 50);
    assert_eq!(value(&KnownBits::add_with_flags(&a, &b, false, true)), Some(250));
    assert_eq!(value(&KnownBits::sub_with_flags(&a, &b, false, true)), Some(150));
    // An unknown value minus a small constant that cannot wrap stays
    // below the unknown value's maximum.
    let top_clear = KnownBits::from_zero_one(ApInt::from_u64(8, 0xf0), ApInt::from_u64(8, 0)).unwrap();
    let d = KnownBits::sub_with_flags(&top_clear, &c(8, 1), false, true);
    let (zero, _one) = masks(&d);
    assert_eq!(zero & 0xf0, 0xf0);
}

fn fact(width: u32, zero: u64, one: u64) -> KnownBits {
    KnownBits::from_zero_one(ApInt::from_u64(width, zero), ApInt::from_u64(width, one)).unwrap()
}

fn admitted(k: &KnownBits, v: u64) -> bool {
    let (z, o) = masks(k);
    v & z == 0 && v & o == o
}

fn sext8(v: u64) -> i64 {
    (v as u8) as i8 as i64
}

#[test]
fn shifts_admit_every_admitted_shift() {
    let lhs = fact(8, 0x30, 0x81);
    let rhs = fact(8, 0xf8, 0x01);
    let shl = KnownBits::shl(&lhs, &rhs);
    let lshr = KnownBits::lshr(&lhs, &rhs);
    let ashr = KnownBits::ashr(&lhs, &rhs);
    let mut checked = 0;
    for x in 0u64..256 {
        if !admitted(&lhs, x) {
            continue;
        }
        for s in 0u64..8 {
            if !admitted(&rhs, s) {
                continue;
            }
            assert!(admitted(&shl, (x << s) & 0xff));
            assert!(admitted(&lshr, x >> s));
            assert!(admitted(&ashr, ((sext8(x) >> s) as u64) & 0xff));
            checked += 1;
        }
    }
    assert!(checked > 0);
    // Every admitted amount is at least one, so bit 0 of the left shift is
    // known zero.
    assert_eq!(masks(&shl).0 & 1, 1);
}

#[test]
fn shift_flags_admit_every_shift_they_allow() {
    let lhs = fact(8, 0xc0, 0x01);
    let rhs = fact(8, 0xfc, 0x00);
    let shl = KnownBits::shl_with_flags(&lhs, &rhs, true, true, true);
    let exact_lhs = fact(8, 0x01, 0x80);
    let lshr = KnownBits::lshr_with_flags(&exact_lhs, &rhs, true, true);
    let mut checked = 0;
    for x in 0u64..256 {
        for s in 1u64..4 {
            if !admitted(&rhs, s) {
                continue;
            }
            let wide = x << s;
            let keeps_unsigned = wide < 256;
            let keeps_signed = sext8(wide & 0xff) == sext8(x) << s;
            if admitted(&lhs, x) && keeps_unsigned && keeps_signed {
                assert!(admitted(&shl, wide & 0xff));
                checked += 1;
            }
            if admitted(&exact_lhs, x) && x & ((1 << s) - 1) == 0 {
                assert!(admitted(&lshr, x >> s));
                checked += 1;
            }
        }
    }
    assert!(checked > 0);
}

#[test]
fn decided_comparisons_hold_for_every_admitted_pair() {
    let facts = [
        fact(8, 0xf0, 0x01),
        fact(8, 0x0f, 0x80),
        fact(8, 0x00, 0x21),
        fact(8, 0x7e, 0x00),
        fact(8, 0xfe, 0x01),
    ];
    let mut decided = 0;
    for l in facts.iter() {
        for r in facts.iter() {
            let eq = KnownBits::eq(l, r);
            let ugt = KnownBits::ugt(l, r);
            let sgt = KnownBits::sgt(l, r);
            if eq.is_some() || ugt.is_some() || sgt.is_some() {
                decided += 1;
            }
            for x in 0u64..256 {
                if !admitted(l, x) {
                    continue;
                }
                for y in 0u64..256 {
                    if !admitted(r, y) {
                        continue;
                    }
                    if let Some(b) = eq {
                        assert_eq!(x == y, b);
                    }
                    if let Some(b) = ugt {
                        assert_eq!(x > y, b);
                    }
                    if let Some(b) = sgt {
                        assert_eq!(sext8(x) > sext8(y), b);
                    }
                }
            }
        }
    }
    assert!(decided > 0);
}

fn partial_facts() -> Vec<KnownBits> {
    vec![
        fact(8, 0xf0, 0x01),
        fact(8, 0x0f, 0x80),
        fact(8, 0x00, 0x21),
        fact(8, 0x7e, 0x00),
        fact(8, 0x03, 0x04),
    ]
}

fn admitted_values(k: &KnownBits) -> Vec<u64> {
    (0u64..256).filter(|v| admitted(k, *v)).collect()
}

#[test]
fn averages_admit_every_admitted_average() {
    let facts = partial_facts();
    for l in facts.iter() {
        for r in facts.iter() {
            let floor_u = KnownBits::avg_floor_u(l, r);
            let ceil_u = KnownBits::avg_ceil_u(l, r);
            let floor_s = KnownBits::avg_floor_s(l, r);
            let ceil_s = KnownBits::avg_ceil_s(l, r);
            for x in admitted_values(l) {
                for y in admitted_values(r) {
                    assert!(admitted(&floor_u, (x + y) / 2));
                    assert!(admitted(&ceil_u, (x + y + 1) / 2));
                    let s = sext8(x) + sext8(y);
                    assert!(admitted(&floor_s, (s.div_euclid(2) as u64) & 0xff));
                    assert!(admitted(&ceil_s, ((s + 1).div_euclid(2) as u64) & 0xff));
                }
            }
        }
    }
    assert_eq!(value(&KnownBits::avg_floor_u(&c(8, 200), &c(8, 101))), Some(150));
    assert_eq!(value(&KnownBits::avg_ceil_s(&c(8, 0xfd), &c(8, 0))), Some(0xff));
}

#[test]
fn lowest_bit_transfers_admit_every_admitted_value() {
    for k in partial_facts().iter() {
        let blsi = k.blsi();
        let blsmsk = k.blsmsk();
        let in_reg = k.sext_in_reg(4);
        for x in admitted_values(k) {
            let neg = (0u64.wrapping_sub(x)) & 0xff;
            let dec = (x.wrapping_sub(1)) & 0xff;
            assert!(admitted(&blsi, x & neg));
            assert!(admitted(&blsmsk, x ^ dec));
            let low = x & 0x0f;
            let extended = if low & 0x08 != 0 { low | 0xf0 } else { low };
            assert!(admitted(&in_reg, extended));
        }
    }
    assert_eq!(value(&c(8, 0b0110_1000).blsi()), Some(0b0000_1000));
    assert_eq!(value(&c(8, 0b0110_1000).blsmsk()), Some(0b0000_1111));
}

#[test]
fn unsigned_saturation_admits_every_saturated_result() {
    let facts = partial_facts();
    for l in facts.iter() {
        for r in facts.iter() {
            let add = KnownBits::uadd_sat(l, r);
            let sub = KnownBits::usub_sat(l, r);
            for x in admitted_values(l) {
                for y in admitted_values(r) {
                    assert!(admitted(&add, (x + y).min(255)));
                    assert!(admitted(&sub, x.saturating_sub(y)));
                }
            }
        }
    }
    assert_eq!(value(&KnownBits::uadd_sat(&c(8, 200), &c(8, 100))), Some(255));
    assert_eq!(value(&KnownBits::usub_sat(&c(8, 100), &c(8, 200))), Some(0));
}

#[test]
fn unsigned_division_admits_every_quotient_and_remainder() {
    let mut facts = partial_facts();
    facts.push(c(8, 8));
    facts.push(fact(8, 0xe1, 0x10));
    for l in facts.iter() {
        for r in facts.iter() {
            let q = KnownBits::udiv(l, r);
            let m = KnownBits::urem(l, r);
            for x in admitted_values(l) {
                for y in admitted_values(r) {
                    if y == 0 {
                        continue;
                    }
                    assert!(admitted(&q, x / y));
                    assert!(admitted(&m, x % y));
                }
            }
        }
    }
    // A remainder by eight keeps only the low three bits.
    assert_eq!(masks(&KnownBits::urem(&KnownBits::unknown(8), &c(8, 8))).0, 0xf8);
}

#[test]
fn absolute_differences_admit_every_admitted_difference() {
    let facts = partial_facts();
    for l in facts.iter() {
        for r in facts.iter() {
            let du = KnownBits::abdu(l, r);
            let ds = KnownBits::abds(l, r);
            for x in admitted_values(l) {
                for y in admitted_values(r) {
                    assert!(admitted(&du, if x >= y { x - y } else { y - x }));
                    let (a, b) = (sext8(x), sext8(y));
                    let d = if a >= b { a - b } else { b - a };
                    assert!(admitted(&ds, (d as u64) & 0xff));
                }
            }
        }
    }
}

#[test]
fn absolute_value_admits_every_admitted_magnitude() {
    let mut facts = partial_facts();
    facts.push(fact(8, 0x7c, 0x80));
    facts.push(fact(8, 0x3e, 0x80));
    facts.push(fact(8, 0x00, 0x80));
    for k in facts.iter() {
        let wrapping = k.abs();
        let poison = k.abs_with_int_min_poison(true);
        for x in admitted_values(k) {
            let a = (sext8(x).wrapping_abs() as u64) & 0xff;
            assert!(admitted(&wrapping, a));
            if x != 0x80 {
                assert!(admitted(&poison, a));
            }
        }
    }
    assert_eq!(value(&c(8, 0xfb).abs()), Some(5));
}

#[test]
fn signed_wrap_flags_admit_every_sum_that_does_not_wrap() {
    let facts = partial_facts();
    for l in facts.iter() {
        for r in facts.iter() {
            let add = KnownBits::add_with_flags(l, r, true, false);
            let sub = KnownBits::sub_with_flags(l, r, true, false);
            for x in admitted_values(l) {
                for y in admitted_values(r) {
                    let s = sext8(x) + sext8(y);
                    if (-128..128).contains(&s) {
                        assert!(admitted(&add, (s as u64) & 0xff));
                    }
                    let d = sext8(x) - sext8(y);
                    if (-128..128).contains(&d) {
                        assert!(admitted(&sub, (d as u64) & 0xff));
                    }
                }
            }
        }
    }
}

#[test]
fn signed_saturation_admits_every_saturated_result() {
    let mut facts = partial_facts();
    facts.push(fact(8, 0x40, 0x80));
    facts.push(fact(8, 0x80, 0x40));
    facts.push(fact(8, 0x00, 0x80));
    for l in facts.iter() {
        for r in facts.iter() {
            let add = KnownBits::sadd_sat(l, r);
            let sub = KnownBits::ssub_sat(l, r);
            for x in admitted_values(l) {
                for y in admitted_values(r) {
                    let s = (sext8(x) + sext8(y)).clamp(-128, 127);
                    let d = (sext8(x) - sext8(y)).clamp(-128, 127);
                    assert!(admitted(&add, (s as u64) & 0xff));
                    assert!(admitted(&sub, (d as u64) & 0xff));
                }
            }
        }
    }
    assert_eq!(value(&KnownBits::sadd_sat(&c(8, 100), &c(8, 100))), Some(127));
    assert_eq!(value(&KnownBits::ssub_sat(&c(8, 0x9c), &c(8, 100))), Some(0x80));
}

#[test]
fn multiplication_admits_every_admitted_product() {
    let mut facts = partial_facts();
    facts.push(fact(8, 0x03, 0x04));
    facts.push(fact(8, 0xf1, 0x02));
    for l in facts.iter() {
        for r in facts.iter() {
            let p = KnownBits::mul(l, r);
            let hu = KnownBits::mulhu(l, r);
            let hs = KnownBits::mulhs(l, r);
            for x in admitted_values(l) {
                for y in admitted_values(r) {
                    assert!(admitted(&p, (x * y) & 0xff));
                    assert!(admitted(&hu, (x * y) >> 8));
                    let sp = sext8(x) * sext8(y);
                    assert!(admitted(&hs, ((sp >> 8) as u64) & 0xff));
                }
            }
        }
    }
    // Both factors are multiples of four, so the product is a multiple of
    // sixteen.
    let four = fact(8, 0x03, 0x00);
    assert_eq!(masks(&KnownBits::mul(&four, &four)).0 & 0x0f, 0x0f);
}

#[test]
fn reductions_admit_every_admitted_sum() {
    let mut facts = partial_facts();
    facts.push(fact(8, 0xe0, 0x00));
    facts.push(fact(8, 0x00, 0xf0));
    facts.push(c(8, 5));
    for k in facts.iter() {
        let vals = admitted_values(k);
        for n in 1u32..4 {
            let r = k.reduce_add(n);
            let mut idx = vec![0usize; n as usize];
            loop {
                let sum = idx.iter().fold(0u64, |acc, i| acc + vals[*i]) & 0xff;
                assert!(admitted(&r, sum));
                let mut pos = 0;
                while pos < idx.len() && idx[pos] + 1 == vals.len() {
                    idx[pos] = 0;
                    pos += 1;
                }
                if pos == idx.len() {
                    break;
                }
                idx[pos] += 1;
            }
        }
    }
    assert_eq!(value(&c(8, 5).reduce_add(3)), Some(15));
}

#[test]
fn signed_remainder_admits_every_admitted_remainder() {
    let mut facts = partial_facts();
    facts.push(c(8, 8));
    facts.push(c(8, 0x80));
    facts.push(fact(8, 0x01, 0x80));
    facts.push(fact(8, 0x81, 0x00));
    for l in facts.iter() {
        for r in facts.iter() {
            let m = KnownBits::srem(l, r);
            for x in admitted_values(l) {
                for y in admitted_values(r) {
                    if y == 0 || (x == 0x80 && y == 0xff) {
                        continue;
                    }
                    let rem = sext8(x) % sext8(y);
                    assert!(admitted(&m, (rem as u64) & 0xff));
                }
            }
        }
    }
    assert_eq!(value(&KnownBits::srem(&c(8, 0xf9), &c(8, 4))), Some(0xfd));
}

#[test]
fn signed_division_admits_every_admitted_quotient() {
    let mut facts = partial_facts();
    facts.push(c(8, 0xfe));
    facts.push(fact(8, 0x01, 0x80));
    facts.push(fact(8, 0x80, 0x10));
    facts.push(fact(8, 0x70, 0x80));
    for l in facts.iter() {
        for r in facts.iter() {
            let q = KnownBits::sdiv_with_exact(l, r, false);
            for x in admitted_values(l) {
                for y in admitted_values(r) {
                    if y == 0 || (x == 0x80 && y == 0xff) {
                        continue;
                    }
                    let d = sext8(x) / sext8(y);
                    assert!(admitted(&q, (d as u64) & 0xff));
                }
            }
        }
    }
    // -16 / 4 is -4: the quotient's top six bits are known ones.
    assert_eq!(masks(&KnownBits::sdiv_with_exact(&c(8, 0xf0), &c(8, 4), false)).1, 0xfc);
}
