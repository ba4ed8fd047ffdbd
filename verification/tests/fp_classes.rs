use lib::fp_class::{
    DenormalMode, DenormalModeKind, FpClassTest, KnownFpClass, FC_ALL, FC_FINITE, FC_INF, FC_NAN, FC_NEG_INF, FC_NEG_NORMAL,
    FC_NEG_SUBNORMAL, FC_NEG_ZERO, FC_NEGATIVE, FC_ORDERED_LESS_THAN_ZERO, FC_POSITIVE, FC_POS_INF, FC_POS_NORMAL, FC_POS_SUBNORMAL, FC_POS_ZERO,
    FC_QNAN, FC_SNAN, FC_ZERO,
};
use lib::ir::{BinaryOpcode, FastMathFlags, FloatKind, FunctionId, IntPredicate, Intrinsic, Module, ShuffleMaskElem, TypeId, ValueId};
use lib::ir_builder::no_folder::NoFolder;
use lib::ir_builder::IrBuilder;
use lib::known_fp_class::{
    add_or_subtract_fp_class, can_ignore_sign_bit_of_nan, can_ignore_sign_bit_of_zero, cannot_be_negative_zero, cannot_be_ordered_less_than_zero, compute_known_fp_class,
    compute_known_fp_class_all, compute_known_fp_class_under, compute_known_fp_class_with_flags, compute_known_fp_sign_bit,
    divide_or_remainder_fp_class, is_known_never_infinity, is_known_never_infinity_or_nan, is_known_never_nan,
    self_divide_or_remainder_fp_class,
};

fn known(classes: u32, sign_bit: Option<bool>) -> KnownFpClass {
    KnownFpClass { classes: FpClassTest { bits: classes }, sign_bit }
}

struct Fx {
    m: Module,
    f: FunctionId,
    f32_ty: TypeId,
    arg: ValueId,
}

fn fx() -> Fx {
    let mut m = Module::new("fp");
    let f32_ty = m.f32_type();
    let f = m.add_function("f", f32_ty, &vec![f32_ty]).unwrap();
    let arg = m.function_params(f)[0];
    Fx { m, f, f32_ty, arg }
}

fn class_of(m: &mut Module, ty: TypeId, bits: u64) -> KnownFpClass {
    let c = m.const_float_bits(ty, bits).unwrap();
    compute_known_fp_class_all(m, c)
}

#[test]
fn float_constants_are_known_exactly() {
    let mut x = fx();
    let t = x.f32_ty;
    assert_eq!(class_of(&mut x.m, t, u64::from(1.0_f32.to_bits())), known(FC_POS_NORMAL, Some(false)));
    assert_eq!(class_of(&mut x.m, t, u64::from((-2.5_f32).to_bits())), known(FC_NEG_NORMAL, Some(true)));
    assert_eq!(class_of(&mut x.m, t, u64::from((-0.0_f32).to_bits())), known(FC_NEG_ZERO, Some(true)));
    assert_eq!(class_of(&mut x.m, t, 0), known(FC_POS_ZERO, Some(false)));
    assert_eq!(class_of(&mut x.m, t, 1), known(FC_POS_SUBNORMAL, Some(false)));
    assert_eq!(class_of(&mut x.m, t, 0x7f80_0000), known(FC_POS_INF, Some(false)));
    assert_eq!(class_of(&mut x.m, t, 0xff80_0000), known(FC_NEG_INF, Some(true)));
    assert_eq!(class_of(&mut x.m, t, 0x7fc0_0000), known(FC_QNAN, Some(false)));
    assert_eq!(class_of(&mut x.m, t, 0x7f80_0001), known(FC_SNAN, Some(false)));
    let d = x.m.float_type(FloatKind::Double);
    assert_eq!(class_of(&mut x.m, d, 1.5_f64.to_bits()), known(FC_POS_NORMAL, Some(false)));
    let h = x.m.float_type(FloatKind::Half);
    assert_eq!(class_of(&mut x.m, h, 0xfc00), known(FC_NEG_INF, Some(true)));
    let p = x.m.poison(t);
    assert_eq!(compute_known_fp_class_all(&x.m, p), known(0, Some(false)));
    assert_eq!(compute_known_fp_class_all(&x.m, x.arg), known(FC_ALL, None));
    assert_eq!(compute_known_fp_sign_bit(&x.m, x.arg), None);
}

#[test]
fn negation_and_select_follow_their_operands() {
    let mut x = fx();
    let one = x.m.const_float_bits(x.f32_ty, u64::from(1.0_f32.to_bits())).unwrap();
    let zero = x.m.const_float_bits(x.f32_ty, 0).unwrap();
    let bool_ty = x.m.bool_type();
    let cond = x.m.const_int(bool_ty, 1).unwrap();
    let entry = x.m.append_basic_block(x.f, "entry");
    let mut b = IrBuilder::with_folder(x.m, NoFolder).position_at_end(entry);
    let neg = b.fp_neg(one, "neg").unwrap();
    let sel = b.select(cond, one, zero, "sel").unwrap();
    let sel2 = b.select(cond, neg, x.arg, "sel2").unwrap();
    let m = b.module();
    assert_eq!(compute_known_fp_class_all(m, neg), known(FC_NEG_NORMAL, Some(true)));
    assert_eq!(compute_known_fp_sign_bit(m, neg), Some(true));
    assert_eq!(compute_known_fp_class_all(m, sel), known(FC_POS_NORMAL | FC_POS_ZERO, Some(false)));
    assert!(is_known_never_nan(m, sel));
    assert!(is_known_never_infinity(m, sel));
    assert!(is_known_never_infinity_or_nan(m, sel));
    assert!(cannot_be_negative_zero(m, sel));
    assert!(cannot_be_ordered_less_than_zero(m, sel));
    assert_eq!(compute_known_fp_class_all(m, sel2), known(FC_ALL, None));
    assert!(!is_known_never_nan(m, sel2));
}

#[test]
fn fast_math_flags_rule_out_nan_and_infinity() {
    let mut x = fx();
    let bool_ty = x.m.bool_type();
    let cond = x.m.const_int(bool_ty, 1).unwrap();
    let entry = x.m.append_basic_block(x.f, "entry");
    let mut b = IrBuilder::with_folder(x.m, NoFolder).position_at_end(entry);
    let plain = b.select_erased_with_fmf(cond, x.arg, x.arg, FastMathFlags { bits: 0 }, "plain").unwrap();
    let nnan = b.select_erased_with_fmf(cond, x.arg, x.arg, FastMathFlags { bits: 0x2 }, "nnan").unwrap();
    let both = b.select_erased_with_fmf(cond, x.arg, x.arg, FastMathFlags { bits: 0x6 }, "both").unwrap();
    let m = b.module();
    assert_eq!(compute_known_fp_class_all(m, plain), known(FC_ALL, None));
    assert_eq!(compute_known_fp_class_all(m, nnan), known(FC_ALL & !FC_NAN, None));
    assert_eq!(compute_known_fp_class_all(m, both), known(FC_FINITE, None));
    assert_eq!(
        compute_known_fp_class_with_flags(m, plain, FastMathFlags { bits: 0x6 }, FpClassTest { bits: FC_ALL }),
        known(FC_FINITE, None)
    );
    assert_eq!(
        compute_known_fp_class(m, x.arg, FpClassTest { bits: FC_NAN }),
        known(FC_ALL, None)
    );
}

#[test]
fn addition_of_positive_finite_values() {
    let mut x = fx();
    let one = x.m.const_float_bits(x.f32_ty, u64::from(1.0_f32.to_bits())).unwrap();
    let two = x.m.const_float_bits(x.f32_ty, u64::from(2.0_f32.to_bits())).unwrap();
    let entry = x.m.append_basic_block(x.f, "entry");
    let mut b = IrBuilder::with_folder(x.m, NoFolder).position_at_end(entry);
    let sum = b.fp_add(one, two, "sum").unwrap();
    let diff = b.fp_binop_erased(BinaryOpcode::FSub, one, two, FastMathFlags { bits: 0 }, "diff").unwrap();
    let quot = b.fp_div(one, one, "quot").unwrap();
    let m = b.module();
    // Both operands are positive normals: no NaN, nothing below zero, no -0.
    assert_eq!(
        compute_known_fp_class_all(m, sum),
        known(FC_ALL & !FC_NAN & !FC_ORDERED_LESS_THAN_ZERO & !FC_NEG_ZERO, Some(false))
    );
    assert_eq!(compute_known_fp_class_all(m, diff), known(FC_ALL & !FC_NAN & !FC_NEG_ZERO, None));
    // `x / x` of a finite, non-zero constant is exactly 1.0.
    assert_eq!(compute_known_fp_class_all(m, quot), known(FC_POS_NORMAL, Some(false)));
}

#[test]
fn arithmetic_rules_on_known_classes() {
    let pos = known(FC_POS_NORMAL, Some(false));
    let any = known(FC_ALL, None);
    let all = FpClassTest { bits: FC_ALL };
    let ieee = Some(DenormalMode::ieee());
    assert_eq!(
        add_or_subtract_fp_class(pos, pos, false, true, all, ieee),
        known(FC_ALL & !FC_NAN & !FC_ORDERED_LESS_THAN_ZERO & !FC_NEG_ZERO, Some(false))
    );
    // Nothing of interest: nothing learned.
    assert_eq!(add_or_subtract_fp_class(pos, pos, false, true, FpClassTest { bits: FC_POS_NORMAL }, ieee), any);
    assert_eq!(add_or_subtract_fp_class(any, any, false, true, all, ieee), any);
    let neg = known(FC_NEG_NORMAL, Some(true));
    assert_eq!(divide_or_remainder_fp_class(pos, neg, true, ieee), known(FC_NEGATIVE, Some(true)));
    let zero = known(FC_ZERO, None);
    assert_eq!(divide_or_remainder_fp_class(zero, any, true, ieee), known(FC_ZERO | FC_NAN, None));
    assert_eq!(divide_or_remainder_fp_class(any, zero, true, ieee), known(FC_INF | FC_NAN, None));
    assert_eq!(divide_or_remainder_fp_class(pos, pos, false, ieee), known(FC_POSITIVE, Some(false)));
    assert_eq!(self_divide_or_remainder_fp_class(any, true, all, DenormalMode::ieee()), known(FC_NAN | FC_POS_NORMAL, None));
    assert_eq!(self_divide_or_remainder_fp_class(pos, false, all, DenormalMode::ieee()), known(FC_ZERO, None));
}

#[test]
fn class_tests_and_lattice_operations() {
    let a = FpClassTest { bits: FC_NAN | FC_POS_ZERO };
    let b = FpClassTest { bits: FC_POS_ZERO | FC_NEG_ZERO };
    assert_eq!(a.union(b).bits, FC_NAN | FC_ZERO);
    assert_eq!(a.intersection(b).bits, FC_POS_ZERO);
    assert_eq!(a.difference(b).bits, FC_NAN);
    assert_eq!(a.complement().bits, FC_ALL & !(FC_NAN | FC_POS_ZERO));
    assert!(a.intersects(b));
    assert_eq!(FpClassTest::from_bits(0xffff).bits, FC_ALL);
    let mut k = KnownFpClass::unknown();
    k.known_not(FC_NAN | FC_NEGATIVE);
    assert_eq!(k, known(FC_ALL & !FC_NAN & !FC_NEGATIVE, Some(false)));
    k.negate();
    assert_eq!(k, known(FC_NEGATIVE, Some(true)));
    let j = known(FC_POS_INF, Some(false)).union_with(known(FC_NEG_INF, Some(true)));
    assert_eq!(j, known(FC_INF, None));
}

#[test]
fn sign_indifferent_users() {
    let mut x = fx();
    let i32_ty = x.m.i32_type();
    let bool_ty = x.m.bool_type();
    let cond = x.m.const_int(bool_ty, 1).unwrap();
    let entry = x.m.append_basic_block(x.f, "entry");
    let mut b = IrBuilder::with_folder(x.m, NoFolder).position_at_end(entry);
    let conv = b.fp_to_si(x.arg, i32_ty, "i").unwrap();
    let sum = b.fp_add(x.arg, x.arg, "s").unwrap();
    let neg = b.fp_neg(x.arg, "n").unwrap();
    let nsz = b.select_erased_with_fmf(cond, x.arg, x.arg, FastMathFlags { bits: 0x8 }, "z").unwrap();
    let m = b.module();
    assert!(can_ignore_sign_bit_of_zero(m, conv, 0));
    assert!(can_ignore_sign_bit_of_nan(m, conv, 0));
    assert!(!can_ignore_sign_bit_of_zero(m, sum, 0));
    assert!(can_ignore_sign_bit_of_nan(m, sum, 1));
    assert!(!can_ignore_sign_bit_of_zero(m, neg, 0));
    assert!(!can_ignore_sign_bit_of_nan(m, neg, 0));
    assert!(can_ignore_sign_bit_of_zero(m, nsz, 1));
    assert!(!can_ignore_sign_bit_of_nan(m, nsz, 1));
    assert!(!can_ignore_sign_bit_of_zero(m, x.arg, 0));
}

#[test]
fn integer_conversions_rule_out_nan_and_subnormals() {
    let mut m = Module::new("conv");
    let i32_ty = m.i32_type();
    let f32_ty = m.f32_type();
    let half = m.float_type(FloatKind::Half);
    let f = m.add_function("f", f32_ty, &vec![i32_ty]).unwrap();
    let entry = m.append_basic_block(f, "entry");
    let n = m.function_params(f)[0];
    let mut b = IrBuilder::with_folder(m, NoFolder).position_at_end(entry);
    let u = b.ui_to_fp(n, f32_ty, "u").unwrap();
    let s = b.si_to_fp(n, half, "s").unwrap();
    let s32 = b.si_to_fp(n, f32_ty, "s32").unwrap();
    let m = b.module();
    assert_eq!(compute_known_fp_class_all(m, u), known(FC_POS_ZERO | FC_POS_NORMAL, Some(false)));
    assert_eq!(
        compute_known_fp_class_all(m, s),
        known(FC_NEG_INF | FC_NEG_NORMAL | FC_POS_ZERO | FC_POS_NORMAL | FC_POS_INF, None)
    );
    assert_eq!(compute_known_fp_class_all(m, s32), known(FC_NEG_NORMAL | FC_POS_ZERO | FC_POS_NORMAL, None));
    assert!(is_known_never_nan(m, s));
    assert!(!is_known_never_infinity(m, s));
    assert!(is_known_never_infinity(m, s32));
}

#[test]
fn arithmetic_reads_the_function_denormal_mode() {
    let mut x = fx();
    let one = x.m.const_float_bits(x.f32_ty, u64::from(1.0_f32.to_bits())).unwrap();
    let two = x.m.const_float_bits(x.f32_ty, u64::from(2.0_f32.to_bits())).unwrap();
    let keep_sign = DenormalMode { output: DenormalModeKind::PreserveSign, input: DenormalModeKind::PreserveSign };
    x.m.set_denormal_mode(x.f, keep_sign, true);
    let entry = x.m.append_basic_block(x.f, "entry");
    let mut b = IrBuilder::with_folder(x.m, NoFolder).position_at_end(entry);
    let sum = b.fp_add(one, two, "sum").unwrap();
    // Flushing a negative result may give -0 under this mode.
    assert_eq!(compute_known_fp_class_all(b.module(), sum), known(FC_ALL & !FC_NAN & !FC_ORDERED_LESS_THAN_ZERO, None));
}

#[test]
fn vector_lanes_are_tracked_through_insert_and_extract() {
    let mut x = fx();
    let v2 = x.m.fixed_vector_type(x.f32_ty, 2);
    let i32_ty = x.m.i32_type();
    let one = x.m.const_float_bits(x.f32_ty, u64::from(1.0_f32.to_bits())).unwrap();
    let zero_idx = x.m.const_int(i32_ty, 0).unwrap();
    let one_idx = x.m.const_int(i32_ty, 1).unwrap();
    let p = x.m.poison(v2);
    let entry = x.m.append_basic_block(x.f, "entry");
    let mut b = IrBuilder::with_folder(x.m, NoFolder).position_at_end(entry);
    let ins = b.insert_element(p, one, zero_idx, "ins").unwrap();
    let lane0 = b.extract_element(ins, zero_idx, "l0").unwrap();
    let lane1 = b.extract_element(ins, one_idx, "l1").unwrap();
    let m = b.module();
    assert_eq!(compute_known_fp_class_all(m, ins), known(FC_POS_NORMAL, Some(false)));
    assert_eq!(compute_known_fp_class_all(m, lane0), known(FC_POS_NORMAL, Some(false)));
    // Lane 1 is still the poison of the source vector.
    assert_eq!(compute_known_fp_class_all(m, lane1), known(0, Some(false)));
}

#[test]
fn intrinsic_calls_have_known_classes() {
    let mut x = fx();
    let t = x.f32_ty;
    let fabs = x.m.add_intrinsic(Intrinsic::Fabs, "llvm.fabs.f32", t, &vec![t]).unwrap();
    let copysign = x.m.add_intrinsic(Intrinsic::Copysign, "llvm.copysign.f32", t, &vec![t, t]).unwrap();
    let sqrt = x.m.add_intrinsic(Intrinsic::Sqrt, "llvm.sqrt.f32", t, &vec![t]).unwrap();
    let exp = x.m.add_intrinsic(Intrinsic::Exp, "llvm.exp.f32", t, &vec![t]).unwrap();
    let log = x.m.add_intrinsic(Intrinsic::Log, "llvm.log.f32", t, &vec![t]).unwrap();
    let fma = x.m.add_intrinsic(Intrinsic::Fma, "llvm.fma.f32", t, &vec![t, t, t]).unwrap();
    let plain = x.m.add_function("g", t, &vec![t]).unwrap();
    let one = x.m.const_float_bits(t, u64::from(1.0_f32.to_bits())).unwrap();
    let minus_two = x.m.const_float_bits(t, u64::from((-2.0_f32).to_bits())).unwrap();
    let entry = x.m.append_basic_block(x.f, "entry");
    let mut b = IrBuilder::with_folder(x.m, NoFolder).position_at_end(entry);
    let a = x.arg;
    let r_fabs = b.call(fabs, &vec![a], "a").unwrap();
    let r_copy = b.call(copysign, &vec![one, minus_two], "c").unwrap();
    let r_sqrt = b.call(sqrt, &vec![a], "s").unwrap();
    let r_sqrt1 = b.call(sqrt, &vec![one], "s1").unwrap();
    let r_exp = b.call(exp, &vec![a], "e").unwrap();
    let r_exp1 = b.call(exp, &vec![one], "e1").unwrap();
    let r_log1 = b.call(log, &vec![one], "l1").unwrap();
    let r_fma = b.call(fma, &vec![a, a, one], "f").unwrap();
    let r_plain = b.call(plain, &vec![one], "p").unwrap();
    let m = b.module();
    assert_eq!(compute_known_fp_class_all(m, r_fabs), known(FC_POSITIVE | FC_NAN, Some(false)));
    assert_eq!(compute_known_fp_class_all(m, r_copy), known(FC_NEG_NORMAL, Some(true)));
    assert_eq!(compute_known_fp_class_all(m, r_sqrt), known(FC_ALL & !(FC_NEG_INF | FC_NEG_SUBNORMAL | FC_NEG_NORMAL), None));
    assert_eq!(compute_known_fp_class_all(m, r_sqrt1), known(FC_POS_ZERO | FC_POS_SUBNORMAL | FC_POS_NORMAL, Some(false)));
    assert_eq!(compute_known_fp_class_all(m, r_exp), known(FC_POSITIVE | FC_NAN, None));
    assert_eq!(compute_known_fp_class_all(m, r_exp1), known(FC_POSITIVE, Some(false)));
    assert_eq!(compute_known_fp_class_all(m, r_log1), known(FC_FINITE, None));
    assert_eq!(compute_known_fp_class_all(m, r_fma), known(FC_POSITIVE | FC_NAN, None));
    assert_eq!(compute_known_fp_class_all(m, r_plain), known(FC_ALL, None));
}

#[test]
fn conditions_refine_what_is_known() {
    let mut x = fx();
    let t = x.f32_ty;
    let i1 = x.m.bool_type();
    let i32_ty = x.m.i32_type();
    let is_fpclass = x.m.add_intrinsic(Intrinsic::IsFpclass, "llvm.is.fpclass.f32", i1, &vec![t, i32_ty]).unwrap();
    let nan_mask = x.m.const_int(i32_ty, u64::from(FC_NAN)).unwrap();
    let pos_mask = x.m.const_int(i32_ty, u64::from(FC_POSITIVE | FC_NAN)).unwrap();
    let zero = x.m.const_int(i32_ty, 0).unwrap();
    let one = x.m.const_float_bits(t, u64::from(1.0_f32.to_bits())).unwrap();
    let entry = x.m.append_basic_block(x.f, "entry");
    let mut b = IrBuilder::with_folder(x.m, NoFolder).position_at_end(entry);
    let a = x.arg;
    let is_nan = b.call(is_fpclass, &vec![a, nan_mask], "isnan").unwrap();
    let is_pos = b.call(is_fpclass, &vec![a, pos_mask], "ispos").unwrap();
    let bits = b.bitcast_fp_to_int(a, i32_ty, "bits").unwrap();
    let neg = b.int_cmp(IntPredicate::Slt, bits, zero, "neg").unwrap();
    let both = b.int_and(is_pos, neg, "both").unwrap();
    let sel = b.select(is_nan, a, one, "sel").unwrap();
    let m = b.module();
    let all = FpClassTest { bits: FC_ALL };
    assert_eq!(compute_known_fp_class_under(m, a, all, is_nan, true), known(FC_NAN, None));
    assert_eq!(compute_known_fp_class_under(m, a, all, is_nan, false), known(FC_ALL & !FC_NAN, None));
    assert_eq!(compute_known_fp_class_under(m, a, all, both, true), known(FC_NAN, Some(true)));
    // A condition about another value teaches nothing.
    assert_eq!(compute_known_fp_class_under(m, one, all, is_nan, true), known(FC_POS_NORMAL, Some(false)));
    // Each select arm is refined by the select's own condition.
    assert_eq!(compute_known_fp_class_all(m, sel), known(FC_NAN | FC_POS_NORMAL, None));
}

#[test]
fn shuffles_follow_the_lanes_they_read() {
    let mut x = fx();
    let v2 = x.m.fixed_vector_type(x.f32_ty, 2);
    let i32_ty = x.m.i32_type();
    let one = x.m.const_float_bits(x.f32_ty, u64::from(1.0_f32.to_bits())).unwrap();
    let zero_idx = x.m.const_int(i32_ty, 0).unwrap();
    let p = x.m.poison(v2);
    let entry = x.m.append_basic_block(x.f, "entry");
    let mut b = IrBuilder::with_folder(x.m, NoFolder).position_at_end(entry);
    let ins = b.insert_element(p, one, zero_idx, "ins").unwrap();
    let splat = b.shuffle_vector(ins, p, &vec![ShuffleMaskElem::Lane(0), ShuffleMaskElem::Lane(0)], "splat").unwrap();
    let from_rhs = b.shuffle_vector(p, ins, &vec![ShuffleMaskElem::Lane(2), ShuffleMaskElem::Lane(3)], "r").unwrap();
    let with_poison = b.shuffle_vector(p, ins, &vec![ShuffleMaskElem::Poison, ShuffleMaskElem::Lane(2)], "q").unwrap();
    let m = b.module();
    assert_eq!(compute_known_fp_class_all(m, splat), known(FC_POS_NORMAL, Some(false)));
    assert_eq!(compute_known_fp_class_all(m, from_rhs), known(FC_POS_NORMAL, Some(false)));
    assert_eq!(compute_known_fp_class_all(m, with_poison), known(FC_ALL, None));
}
