//! Which floating-point classes a value of a module can belong to.
//!
//! The walk answers exactly for floating-point constants and poison, and
//! otherwise follows `fneg`, `select`, `fadd`, `fsub`, `fdiv`, `frem`,
//! `extractvalue`, `extractelement`, `insertelement`, `shufflevector` and phis through
//! their operands (the vector arms keep track of which lanes are asked
//! about), bounds `sitofp` and `uitofp` by their source width, and knows
//! the calls of the intrinsics `fma`, `fmuladd`, the reducing min/max,
//! `fabs`, `copysign`, `sqrt` and the `exp` and `log` families. It walks
//! to a depth of [`MAX_DEPTH`]. The `nnan` and `ninf` fast-math flags of
//! an instruction rule NaNs and infinities out whatever its arm learned.
//! A condition known to hold (or fail) teaches more: through logical
//! `and`/`or` and negation, an `llvm.is.fpclass` test rules classes in or
//! out and a sign-bit test of the value's bits fixes its sign; each arm of
//! a `select` is refined by the select's own condition. Every other value
//! answers "any class", which is never wrong. The arithmetic arms read
//! the denormal mode of the function around the instruction.

use vstd::prelude::*;
use crate::fp_class::{
    DenormalMode, DenormalModeKind, FC_ALL, FC_FINITE, FC_INF, FC_NAN, FC_NEGATIVE, FC_NEG_INF, FC_NEG_NORMAL, FC_NEG_SUBNORMAL, FC_NEG_ZERO, FC_NORMAL, FC_ORDERED_GREATER_THAN_ZERO, FC_ORDERED_LESS_THAN_ZERO, FC_POSITIVE, FC_POS_INF, FC_POS_NORMAL, FC_POS_SUBNORMAL, FC_POS_ZERO, FC_QNAN, FC_SNAN, FC_SUBNORMAL, FC_ZERO, FpClassTest, KnownFpClass, known_not_model, negate_model, never_logical_neg_zero, never_logical_pos_zero, never_logical_zero, union_model,
};
use crate::bitseq::{nat_of, all_true, all_false};
use crate::ap_int::ApInt;
use crate::ir::{ShuffleMaskElem, const_bits, denormal_mode_for, Intrinsic, IntPredicate, FunctionId, Module, ValueId, TypeId, ValueKind, Opcode, BinaryOpcode, UnaryOpcode, CastOpcode, TypeData, FloatKind, InstFlags, FastMathFlags};

verus! {

/// How deep the walk follows operands.
pub const MAX_DEPTH: u32 = 6;

/// Fast-math flag bit of `nnan`.
pub const FMF_NO_NANS: u8 = 0x2;
/// Fast-math flag bit of `ninf`.
pub const FMF_NO_INFS: u8 = 0x4;
/// Fast-math flag bit of `nsz`.
pub const FMF_NO_SIGNED_ZEROS: u8 = 0x8;

/// Exponent and fraction widths of the formats a 64-bit pattern holds.
pub open spec fn float_format(kind: FloatKind) -> Option<(u64, u64)> {
    match kind {
        FloatKind::Half => Some((5u64, 10u64)),
        FloatKind::BFloat => Some((8u64, 7u64)),
        FloatKind::Float => Some((8u64, 23u64)),
        FloatKind::Double => Some((11u64, 52u64)),
        _ => None,
    }
}

/// The `w` lowest bits set.
pub open spec fn low_ones(w: u64) -> u64 {
    ((1u64 << w) - 1) as u64
}

/// The class of the pattern `bits` in a format with `e` exponent and `p`
/// fraction bits, and its sign.
pub open spec fn pattern_class(bits: u64, e: u64, p: u64) -> (u32, bool) {
    let neg = (bits >> ((e + p) as u64)) & 1 == 1;
    let exp = (bits >> p) & low_ones(e);
    let frac = bits & low_ones(p);
    let quiet = (bits >> ((p - 1) as u64)) & 1 == 1;
    let c = if exp == low_ones(e) {
        if frac == 0 { if neg { FC_NEG_INF } else { FC_POS_INF } } else if quiet { FC_QNAN } else { FC_SNAN }
    } else if exp == 0 {
        if frac == 0 { if neg { FC_NEG_ZERO } else { FC_POS_ZERO } } else if neg { FC_NEG_SUBNORMAL } else { FC_POS_SUBNORMAL }
    } else if neg {
        FC_NEG_NORMAL
    } else {
        FC_POS_NORMAL
    };
    (c, neg)
}

/// What a constant leaf answers: a floating-point constant of a format
/// that 64 bits hold is exactly its class with its sign; poison is in no
/// class; anything else is no leaf.
pub open spec fn constant_class_model(m: Module, v: ValueId) -> Option<KnownFpClass> {
    match m.values()[v.0 as int].kind {
        ValueKind::ConstFloat { bits } => match m.shape_of(v) {
            TypeData::Float { kind } => match float_format(kind) {
                Some((e, p)) => Some(KnownFpClass {
                    classes: FpClassTest { bits: pattern_class(bits, e, p).0 },
                    sign_bit: Some(pattern_class(bits, e, p).1),
                }),
                None => None,
            },
            _ => None,
        },
        ValueKind::Poison => Some(KnownFpClass { classes: FpClassTest { bits: 0 }, sign_bit: Some(false) }),
        _ => None,
    }
}

/// The classes that the fast-math flags of `flags` rule out.
pub open spec fn flags_rule_out(flags: InstFlags) -> u32 {
    (if flags.fmf.bits & FMF_NO_NANS != 0 { FC_NAN } else { 0 }) | (if flags.fmf.bits & FMF_NO_INFS != 0 { FC_INF } else { 0 })
}

/// Nothing known.
pub open spec fn unknown_class() -> KnownFpClass {
    KnownFpClass { classes: FpClassTest { bits: FC_ALL }, sign_bit: None }
}

/// The classes the operands of `fadd` (`is_add`) or `fsub` are asked for.
pub open spec fn add_sub_sources(is_add: bool, interested: u32) -> u32 {
    interested | (if is_add && interested & FC_ORDERED_LESS_THAN_ZERO != 0 { FC_ORDERED_LESS_THAN_ZERO } else { 0 })
        | (if interested & FC_NAN != 0 { FC_INF } else { 0 })
}

/// Whether `fadd` (`is_add`) or `fsub` learns anything of the classes
/// `interested` before looking at its operands.
pub open spec fn add_sub_wanted(is_add: bool, interested: u32) -> bool {
    (is_add && interested & FC_ORDERED_LESS_THAN_ZERO != 0) || interested & FC_NAN != 0 || interested & FC_NEG_ZERO != 0
}

/// Whether, once the right operand is known as `rhs`, the left one is
/// worth looking at.
pub open spec fn add_sub_rhs_useful(rhs: KnownFpClass, is_add: bool, interested: u32) -> bool {
    (interested & FC_NAN != 0 && rhs.classes.bits & FC_NAN == 0)
        || (is_add && interested & FC_ORDERED_LESS_THAN_ZERO != 0 && rhs.classes.bits & FC_ORDERED_LESS_THAN_ZERO == 0)
        || interested & FC_NEG_ZERO != 0
        || !is_add
}

/// What is known of `lhs + rhs` (`is_add`) or `lhs - rhs` from the
/// operands' classes, `self_add` telling that both are one value, under
/// the denormal mode `mode` of the enclosing function when there is one.
pub open spec fn add_sub_model(lhs: KnownFpClass, rhs: KnownFpClass, self_add: bool, is_add: bool, interested: u32,
    mode: Option<DenormalMode>) -> KnownFpClass
{
    if !add_sub_wanted(is_add, interested) || !add_sub_rhs_useful(rhs, is_add, interested) {
        unknown_class()
    } else {
        let k0 = unknown_class();
        let k1 = if lhs.classes.bits & FC_NAN == 0 && rhs.classes.bits & FC_NAN == 0
            && (lhs.classes.bits & FC_INF == 0 || rhs.classes.bits & FC_INF == 0) { known_not_model(k0, FC_NAN) } else { k0 };
        let k2 = if is_add && lhs.classes.bits & FC_ORDERED_LESS_THAN_ZERO == 0 && rhs.classes.bits & FC_ORDERED_LESS_THAN_ZERO == 0 {
            known_not_model(k1, FC_ORDERED_LESS_THAN_ZERO)
        } else { k1 };
        let k3 = if is_add && lhs.classes.bits & FC_ORDERED_GREATER_THAN_ZERO == 0 && rhs.classes.bits & FC_ORDERED_GREATER_THAN_ZERO == 0 {
            known_not_model(k2, FC_ORDERED_GREATER_THAN_ZERO)
        } else { k2 };
        match mode {
            None => k3,
            Some(md) => if is_add {
                let doubling_keeps_sign = match md.output {
                    DenormalModeKind::Ieee => true,
                    DenormalModeKind::PreserveSign => rhs.classes.bits & FC_POS_SUBNORMAL == 0,
                    DenormalModeKind::PositiveZero => rhs.classes.bits & FC_SUBNORMAL == 0,
                    DenormalModeKind::Dynamic => false,
                };
                let k4 = if self_add && never_logical_pos_zero(rhs, md) && doubling_keeps_sign {
                    known_not_model(k3, FC_POS_ZERO)
                } else { k3 };
                if (never_logical_neg_zero(lhs, md) || never_logical_neg_zero(rhs, md))
                    && (md.output == DenormalModeKind::Ieee || md.output == DenormalModeKind::PositiveZero) {
                    known_not_model(k4, FC_NEG_ZERO)
                } else { k4 }
            } else if (never_logical_neg_zero(lhs, md) || never_logical_pos_zero(rhs, md))
                && (md.output == DenormalModeKind::Ieee || md.output == DenormalModeKind::PositiveZero) {
                known_not_model(k3, FC_NEG_ZERO)
            } else { k3 },
        }
    }
}

/// The classes the operand of `x / x` or `x % x` is asked for.
pub open spec fn self_div_sources() -> u32 {
    FC_NAN | FC_INF | FC_ZERO | FC_SUBNORMAL
}

/// What is known of `x / x` (`is_divide`) or `x % x` for a value `x`
/// known as `source` (looked at only when NaNs are of interest).
pub open spec fn self_div_model(source: KnownFpClass, is_divide: bool, interested: u32, mode: DenormalMode) -> KnownFpClass {
    let k = KnownFpClass {
        classes: FpClassTest { bits: if is_divide { FC_NAN | FC_POS_NORMAL } else { FC_NAN | FC_ZERO } },
        sign_bit: None,
    };
    if interested & FC_NAN == 0 {
        k
    } else if source.classes.bits & (FC_INF | FC_NAN) == 0 && never_logical_zero(source, mode) {
        known_not_model(k, FC_NAN)
    } else if source.classes.bits & FC_SNAN == 0 {
        known_not_model(k, FC_SNAN)
    } else {
        k
    }
}

/// The classes the right operand of `fdiv` or `frem` is asked for.
pub open spec fn div_rhs_sources() -> u32 {
    FC_NAN | FC_INF | FC_ZERO | FC_NEGATIVE
}

/// Whether `fdiv` (`is_divide`) or `frem` learns anything of the classes
/// `interested` before looking at its operands.
pub open spec fn div_wanted(is_divide: bool, interested: u32) -> bool {
    interested & FC_NAN != 0 || interested & FC_NEGATIVE != 0 || (!is_divide && interested & FC_POSITIVE != 0)
}

/// Whether, once the right operand is known as `rhs`, the left one is
/// looked at.
pub open spec fn div_lhs_looked_at(rhs: KnownFpClass, is_divide: bool, interested: u32) -> bool {
    rhs.classes.bits & FC_NAN == 0 || rhs.classes.bits & FC_NEGATIVE == 0 || rhs.classes.bits & FC_POSITIVE == 0
        || (!is_divide && interested & FC_POSITIVE != 0)
}

/// What is known of `lhs / rhs` (`is_divide`) or `lhs % rhs` from the
/// operands' classes, for operands that are not one value.
pub open spec fn div_model(lhs: KnownFpClass, rhs: KnownFpClass, is_divide: bool, mode: Option<DenormalMode>) -> KnownFpClass {
    let l = lhs.classes.bits;
    let r = rhs.classes.bits;
    let k0 = unknown_class();
    if is_divide {
        let k1 = if l & FC_NAN == 0 && r & FC_NAN == 0 && (l & FC_INF == 0 || r & FC_INF == 0)
            && (mode matches Some(md) && (never_logical_zero(lhs, md) || never_logical_zero(rhs, md))) {
            known_not_model(k0, FC_NAN)
        } else { k0 };
        let k2 = if (l & FC_NEGATIVE == 0 && r & FC_NEGATIVE == 0) || (l & FC_POSITIVE == 0 && r & FC_POSITIVE == 0) {
            known_not_model(k1, FC_NEGATIVE)
        } else { k1 };
        let k3 = if (l & FC_POSITIVE == 0 && r & FC_NEGATIVE == 0) || (l & FC_NEGATIVE == 0 && r & FC_POSITIVE == 0) {
            known_not_model(k2, FC_POSITIVE)
        } else { k2 };
        let k4 = if l & !FC_ZERO == 0 { known_not_model(k3, FC_SUBNORMAL | FC_NORMAL | FC_INF) } else { k3 };
        if r & !FC_ZERO == 0 { known_not_model(k4, FC_FINITE) } else { k4 }
    } else {
        let k1 = if l & FC_NAN == 0 && r & FC_NAN == 0 && l & FC_INF == 0
            && (mode matches Some(md) && never_logical_zero(rhs, md)) {
            known_not_model(k0, FC_NAN)
        } else { k0 };
        let k2 = if l & FC_ORDERED_LESS_THAN_ZERO == 0 { known_not_model(k1, FC_ORDERED_LESS_THAN_ZERO) } else { k1 };
        let k3 = if l & FC_ORDERED_GREATER_THAN_ZERO == 0 { known_not_model(k2, FC_ORDERED_GREATER_THAN_ZERO) } else { k2 };
        let k4 = if l & FC_NEGATIVE == 0 { known_not_model(k3, FC_NEGATIVE) } else { k3 };
        if l & FC_POSITIVE == 0 { known_not_model(k4, FC_POSITIVE) } else { k4 }
    }
}

/// `v` is a floating-point constant, so never undef.
pub open spec fn is_float_constant(m: Module, v: ValueId) -> bool {
    m.values()[v.0 as int].kind is ConstFloat
}

/// The operands of the instruction `v` (empty for any other value).
pub open spec fn operands_of(m: Module, v: ValueId) -> Seq<ValueId> {
    match m.values()[v.0 as int].kind {
        ValueKind::Instruction { operands, .. } => operands@,
        _ => Seq::empty(),
    }
}

/// The scalar type of a type shape: the element of a vector, else itself.
pub open spec fn scalar_shape(m: Module, t: TypeData) -> TypeData {
    match t {
        TypeData::FixedVector { elem, .. } => m.types()[elem.0 as int],
        _ => t,
    }
}

/// The largest binary exponent of a finite value of a format.
pub open spec fn max_exponent(kind: FloatKind) -> int {
    match kind {
        FloatKind::Half => 15,
        FloatKind::BFloat => 127,
        FloatKind::Float => 127,
        FloatKind::Double => 1023,
        FloatKind::X86Fp80 => 16383,
        FloatKind::Fp128 => 16383,
        FloatKind::PpcFp128 => 1023,
    }
}

/// What is known of `sitofp` (`signed`) or `uitofp` of `src` to the type
/// of `v`: no NaN, no subnormal, no `-0`; no sign for `uitofp`; and no
/// infinity when the format reaches past the widest integer of the
/// source's width.
pub open spec fn int_to_fp_model(m: Module, v: ValueId, src: ValueId, signed: bool, interested: u32) -> KnownFpClass {
    let k1 = known_not_model(known_not_model(known_not_model(unknown_class(), FC_NAN), FC_SUBNORMAL), FC_NEG_ZERO);
    let k2 = if signed { k1 } else {
        KnownFpClass { classes: FpClassTest { bits: k1.classes.bits & (FC_POSITIVE | FC_NAN) }, sign_bit: Some(false) }
    };
    if interested & FC_INF == 0 {
        k2
    } else {
        match scalar_shape(m, m.shape_of(src)) {
            TypeData::Integer { bits } => match scalar_shape(m, m.shape_of(v)) {
                TypeData::Float { kind } => if max_exponent(kind) >= bits - (if signed { 1int } else { 0int }) {
                    known_not_model(k2, FC_INF)
                } else { k2 },
                _ => k2,
            },
            _ => k2,
        }
    }
}

/// The lanes a query asks about, as the exec form holds them.
pub open spec fn demand_view(d: Option<Vec<bool>>) -> Option<Seq<bool>> {
    match d {
        Some(v) => Some(v@),
        None => None,
    }
}

/// The number of lanes of `v`'s type when it is a vector.
pub open spec fn lanes_of(m: Module, v: ValueId) -> Option<u32> {
    match m.shape_of(v) {
        TypeData::FixedVector { n, .. } => Some(n),
        _ => None,
    }
}

/// The lane an integer constant `idx` names, when it is below `lanes`.
pub open spec fn constant_lane(m: Module, idx: ValueId, lanes: u32) -> Option<nat> {
    match const_bits(m, idx) {
        Some(b) => if nat_of(b) < lanes { Some(nat_of(b)) } else { None },
        None => None,
    }
}

/// The lanes `dm` asks about at `lanes` wide: all of them unless `dm`
/// has that width.
pub open spec fn demanded_lanes(dm: Option<Seq<bool>>, lanes: u32) -> Seq<bool> {
    match dm {
        Some(d) => if d.len() == lanes { d } else { Seq::new(lanes as nat, |j: int| true) },
        None => Seq::new(lanes as nat, |j: int| true),
    }
}

/// Only lane `i` of `lanes`, or every lane when there is no `i`.
pub open spec fn lane_mask(lanes: u32, i: Option<nat>) -> Seq<bool> {
    match i {
        Some(i) => Seq::new(lanes as nat, |j: int| j == i),
        None => Seq::new(lanes as nat, |j: int| true),
    }
}

/// Some lane of `d` is set.
pub open spec fn any_set(d: Seq<bool>) -> bool {
    exists|j: int| 0 <= j < d.len() && d[j]
}

/// Nothing is known of `k`.
pub open spec fn is_unknown(k: KnownFpClass) -> bool {
    k.classes.bits == FC_ALL && k.sign_bit is None
}

/// What is known of `|x|` given `k` for `x`: each negative class turns
/// into its positive twin and the sign is clear.
pub open spec fn absolute_model(k: KnownFpClass) -> KnownFpClass {
    let c = k.classes.bits;
    let widened = c | (if c & FC_NEG_ZERO != 0 { FC_POS_ZERO } else { 0 }) | (if c & FC_NEG_INF != 0 { FC_POS_INF } else { 0 })
        | (if c & FC_NEG_SUBNORMAL != 0 { FC_POS_SUBNORMAL } else { 0 }) | (if c & FC_NEG_NORMAL != 0 { FC_POS_NORMAL } else { 0 });
    sign_bit_must_be(KnownFpClass { classes: FpClassTest { bits: widened }, sign_bit: k.sign_bit }, false)
}

/// What is known of `copysign(x, y)` given `k` for `x` and `sign` for `y`:
/// either sign of each class of `x`, narrowed by what is known of `y`'s
/// sign, whose sign bit it takes exactly.
pub open spec fn copy_sign_model(k: KnownFpClass, sign: KnownFpClass) -> KnownFpClass {
    let c = k.classes.bits;
    let c1 = c | (if c & FC_ZERO != 0 { FC_ZERO } else { 0 }) | (if c & FC_SUBNORMAL != 0 { FC_SUBNORMAL } else { 0 })
        | (if c & FC_NORMAL != 0 { FC_NORMAL } else { 0 }) | (if c & FC_INF != 0 { FC_INF } else { 0 });
    let s = sign.sign_bit;
    let c2 = if sign.classes.bits & (FC_POSITIVE | FC_NAN) == 0 || s == Some(true) { c1 & (FC_NEGATIVE | FC_NAN) } else { c1 };
    let c3 = if sign.classes.bits & (FC_NEGATIVE | FC_NAN) == 0 || s == Some(false) { c2 & (FC_POSITIVE | FC_NAN) } else { c2 };
    KnownFpClass { classes: FpClassTest { bits: c3 }, sign_bit: s }
}

/// What is known of `sqrt(x)` given `src` for `x`, under `mode`.
pub open spec fn sqrt_model(src: KnownFpClass, mode: DenormalMode) -> KnownFpClass {
    let c = src.classes.bits;
    let k0 = unknown_class();
    let k1 = if c & FC_POS_INF == 0 { known_not_model(k0, FC_POS_INF) } else { k0 };
    let k2 = if c & FC_SNAN == 0 { known_not_model(k1, FC_SNAN) } else { k1 };
    let k3 = if c & FC_NAN == 0 && c & FC_ORDERED_LESS_THAN_ZERO == 0 { known_not_model(k2, FC_NAN) } else { k2 };
    let k4 = known_not_model(k3, FC_NEG_INF | FC_NEG_SUBNORMAL | FC_NEG_NORMAL);
    if never_logical_neg_zero(src, mode) { known_not_model(k4, FC_NEG_ZERO) } else { k4 }
}

/// What is known of `exp(x)` given `src` for `x`.
pub open spec fn exp_model(src: KnownFpClass) -> KnownFpClass {
    let k = known_not_model(unknown_class(), FC_NEGATIVE);
    if src.classes.bits & FC_NAN == 0 { sign_bit_must_be(known_not_model(k, FC_NAN), false) } else { k }
}

/// What is known of `log(x)` given `src` for `x`, under `mode`.
pub open spec fn log_model(src: KnownFpClass, mode: DenormalMode) -> KnownFpClass {
    let c = src.classes.bits;
    let k0 = unknown_class();
    let k1 = if c & FC_POS_INF == 0 { known_not_model(k0, FC_POS_INF) } else { k0 };
    let k2 = if c & FC_NAN == 0 && c & FC_ORDERED_LESS_THAN_ZERO == 0 { known_not_model(k1, FC_NAN) } else { k1 };
    if never_logical_zero(src, mode) { known_not_model(k2, FC_NEG_INF) } else { k2 }
}

/// The denormal mode an intrinsic call `v` reads: its function's for its
/// format, or the dynamic mode.
pub open spec fn call_denormal_mode(m: Module, v: ValueId) -> DenormalMode {
    match scalar_denormal_mode(m, v) {
        Some(md) => md,
        None => DenormalMode { output: DenormalModeKind::Dynamic, input: DenormalModeKind::Dynamic },
    }
}

/// `t` is `i1` or a vector of `i1`.
pub open spec fn is_bool_like(m: Module, t: TypeId) -> bool {
    scalar_shape(m, m.types()[t.0 as int]) == (TypeData::Integer { bits: 1 })
}

/// The integer constant `c` has every bit equal to `b`.
pub open spec fn const_all(m: Module, c: ValueId, b: bool) -> bool {
    const_bits(m, c) matches Some(bits) && (if b { all_true(bits) } else { all_false(bits) })
}

/// The two halves of a logical `and` (`is_and`) or `or` over `i1`
/// values: the instruction `and a, b` or `select a, b, false`, or
/// `or a, b` or `select a, true, b`.
pub open spec fn logical_parts(m: Module, c: ValueId) -> Option<(ValueId, ValueId, bool)> {
    let ops = operands_of(m, c);
    match m.values()[c.0 as int].kind {
        ValueKind::Instruction { op, .. } => if !is_bool_like(m, m.ty_of(c)) {
            None
        } else {
            match op {
                Opcode::Binary(BinaryOpcode::And) => if ops.len() >= 2 { Some((ops[0], ops[1], true)) } else { None },
                Opcode::Binary(BinaryOpcode::Or) => if ops.len() >= 2 { Some((ops[0], ops[1], false)) } else { None },
                Opcode::Select => if ops.len() < 3 {
                    None
                } else if const_all(m, ops[2], false) {
                    Some((ops[0], ops[1], true))
                } else if const_all(m, ops[1], true) {
                    Some((ops[0], ops[2], false))
                } else {
                    None
                },
                _ => None,
            }
        },
        _ => None,
    }
}

/// The value that `c` is the bitwise negation of: `xor x, -1` in either
/// order.
pub open spec fn not_operand(m: Module, c: ValueId) -> Option<ValueId> {
    let ops = operands_of(m, c);
    match m.values()[c.0 as int].kind {
        ValueKind::Instruction { op: Opcode::Binary(BinaryOpcode::Xor), .. } => if ops.len() < 2 {
            None
        } else if const_all(m, ops[1], true) {
            Some(ops[0])
        } else if const_all(m, ops[0], true) {
            Some(ops[1])
        } else {
            None
        },
        _ => None,
    }
}

/// The value and class mask of a call `llvm.is.fpclass(x, mask)` with a
/// constant mask that fits 64 bits (its low ten bits are the classes).
pub open spec fn is_fpclass_parts(m: Module, c: ValueId) -> Option<(ValueId, u32)> {
    let ops = operands_of(m, c);
    match m.values()[c.0 as int].kind {
        ValueKind::Instruction { op: Opcode::Call { callee }, .. } =>
            if callee.0 < m.functions().len() && m.functions()[callee.0 as int].intrinsic == Some(Intrinsic::IsFpclass)
                && ops.len() >= 2 && const_bits(m, ops[1]) is Some && nat_of(const_bits(m, ops[1]).unwrap()) <= u64::MAX {
                Some((ops[0], (nat_of(const_bits(m, ops[1]).unwrap()) % 1024) as u32))
            } else {
                None
            },
        _ => None,
    }
}

/// `b` is the largest signed value of its width (`min` false) or the
/// smallest (`min` true).
pub open spec fn signed_extreme(b: Seq<bool>, min: bool) -> bool {
    b.len() > 0 && forall|i: int| 0 <= i < b.len() ==> b[i] == ((i == b.len() - 1) == min)
}

/// Whether `icmp pred x, b` tests the sign bit of `x`: `Some(true)` when
/// it holds exactly for a set sign bit, `Some(false)` for a clear one.
pub open spec fn sign_bit_check(pred: IntPredicate, b: Seq<bool>) -> Option<bool> {
    match pred {
        IntPredicate::Slt => if all_false(b) { Some(true) } else { None },
        IntPredicate::Sle => if all_true(b) { Some(true) } else { None },
        IntPredicate::Sgt => if all_true(b) { Some(false) } else { None },
        IntPredicate::Sge => if all_false(b) { Some(false) } else { None },
        IntPredicate::Ugt => if signed_extreme(b, false) { Some(true) } else { None },
        IntPredicate::Uge => if signed_extreme(b, true) { Some(true) } else { None },
        IntPredicate::Ult => if signed_extreme(b, true) { Some(false) } else { None },
        IntPredicate::Ule => if signed_extreme(b, false) { Some(false) } else { None },
        _ => None,
    }
}

/// Whether `c` is `icmp pred (bitcast value), constant` testing the sign
/// bit of `value` lane by lane; see [`sign_bit_check`].
pub open spec fn sign_test(m: Module, c: ValueId, value: ValueId) -> Option<bool> {
    let ops = operands_of(m, c);
    match m.values()[c.0 as int].kind {
        ValueKind::Instruction { op: Opcode::ICmp(pred), .. } => if ops.len() < 2 {
            None
        } else {
            let cast = ops[0];
            let cops = operands_of(m, cast);
            match m.values()[cast.0 as int].kind {
                ValueKind::Instruction { op: Opcode::Cast(CastOpcode::BitCast), .. } =>
                    if cops.len() >= 1 && cops[0] == value && lanes_of(m, cops[0]) == lanes_of(m, cast) {
                        match const_bits(m, ops[1]) {
                            Some(b) => sign_bit_check(pred, b),
                            None => None,
                        }
                    } else {
                        None
                    },
                _ => None,
            }
        },
        _ => None,
    }
}

/// `k` with the sign bit set (`one`) or clear: the classes of the other
/// sign go, NaNs stay.
pub open spec fn sign_bit_must_be(k: KnownFpClass, one: bool) -> KnownFpClass {
    KnownFpClass {
        classes: FpClassTest { bits: k.classes.bits & (if one { FC_NEGATIVE | FC_NAN } else { FC_POSITIVE | FC_NAN }) },
        sign_bit: Some(one),
    }
}

/// What the condition `c` being `is_true` teaches of `value`, on top of
/// `k`: both halves of a logical `and` that holds (or `or` that fails), the
/// operand of a negation with the truth flipped, an `llvm.is.fpclass` test
/// of `value`, or a sign-bit test of `value`'s bits.
pub open spec fn cond_model(m: Module, value: ValueId, c: ValueId, is_true: bool, k: KnownFpClass, depth: nat) -> KnownFpClass
    decreases MAX_DEPTH - depth,
{
    let split = if depth < MAX_DEPTH {
        match logical_parts(m, c) {
            Some((a, b, is_and)) => if is_and == is_true { Some((a, b)) } else { None },
            None => None,
        }
    } else { None };
    match split {
        Some((a, b)) => cond_model(m, value, b, is_true, cond_model(m, value, a, is_true, k, depth + 1), depth + 1),
        None => match (if depth < MAX_DEPTH { not_operand(m, c) } else { None }) {
            Some(x) => cond_model(m, value, x, !is_true, k, depth + 1),
            None => if m.values()[c.0 as int].kind matches ValueKind::Instruction { op: Opcode::FCmp(_), .. } {
                k
            } else {
                match is_fpclass_parts(m, c) {
                    Some((tested, mask)) => if tested == value {
                        known_not_model(k, if is_true { !mask & FC_ALL } else { mask })
                    } else { k },
                    None => match sign_test(m, c, value) {
                        Some(tis) => sign_bit_must_be(k, tis == is_true),
                        None => k,
                    },
                }
            },
        },
    }
}

/// What the condition context `ctx` (a condition and whether it holds)
/// teaches of `v`.
pub open spec fn context_model(m: Module, v: ValueId, ctx: Option<(ValueId, bool)>) -> KnownFpClass {
    match ctx {
        Some((c, t)) => cond_model(m, v, c, t, unknown_class(), 0),
        None => unknown_class(),
    }
}

/// The classes the context rules out of `v`.
pub open spec fn context_rule_out(m: Module, v: ValueId, ctx: Option<(ValueId, bool)>) -> u32 {
    match ctx {
        Some(_) => !context_model(m, v, ctx).classes.bits & FC_ALL,
        None => 0,
    }
}

/// `k` once the context's classes are ruled out and, where `k` has no
/// sign, the context's sign filled in.
pub open spec fn finish_model(m: Module, v: ValueId, k: KnownFpClass, ctx: Option<(ValueId, bool)>) -> KnownFpClass {
    match ctx {
        None => k,
        Some(_) => match (k.sign_bit, context_model(m, v, ctx).sign_bit) {
            (None, Some(s)) => sign_bit_must_be(k, s),
            _ => k,
        },
    }
}

/// `w` lanes, none of them asked about.
pub open spec fn no_lanes(w: nat) -> Seq<bool> {
    Seq::new(w, |j: int| false)
}

/// The lanes of the two sources of a shuffle with mask `mask` that the
/// asked lanes `d[i..]` read, added to `l` and `r`; `None` when an asked
/// lane is poison or names no source lane.
pub open spec fn shuffle_fold(mask: Seq<ShuffleMaskElem>, d: Seq<bool>, w: nat, i: nat, l: Seq<bool>, r: Seq<bool>)
    -> Option<(Seq<bool>, Seq<bool>)>
    decreases mask.len() - i,
{
    if i >= mask.len() {
        Some((l, r))
    } else if i >= d.len() || !d[i as int] {
        shuffle_fold(mask, d, w, i + 1, l, r)
    } else {
        match mask[i as int] {
            ShuffleMaskElem::Poison => None,
            ShuffleMaskElem::Lane(k) => if (k as nat) < w {
                shuffle_fold(mask, d, w, i + 1, l.update(k as int, true), r)
            } else if (k as nat) < 2 * w {
                shuffle_fold(mask, d, w, i + 1, l, r.update(k - w, true))
            } else {
                None
            },
        }
    }
}

/// Every lane of `mask` reads lane 0 of the first source.
pub open spec fn all_lane_zero(mask: Seq<ShuffleMaskElem>) -> bool {
    forall|i: int| 0 <= i < mask.len() ==> mask[i] == ShuffleMaskElem::Lane(0)
}

/// The lanes of each source of a shuffle of `w`-lane vectors with mask
/// `mask` that the asked lanes `d` read; `None` when an asked lane is
/// poison.
pub open spec fn shuffle_demands(mask: Seq<ShuffleMaskElem>, d: Seq<bool>, w: nat) -> Option<(Seq<bool>, Seq<bool>)> {
    if !any_set(d) {
        Some((no_lanes(w), no_lanes(w)))
    } else if all_lane_zero(mask) {
        Some((no_lanes(w).update(0, true), no_lanes(w)))
    } else {
        shuffle_fold(mask, d, w, 0, no_lanes(w), no_lanes(w))
    }
}

/// Every lane of `mask` is lane 0 or poison.
pub open spec fn zero_or_poison_mask(mask: Seq<ShuffleMaskElem>) -> bool {
    forall|i: int| 0 <= i < mask.len() ==> (mask[i] == ShuffleMaskElem::Lane(0) || mask[i] == ShuffleMaskElem::Poison)
}

/// The scalar a shuffle `v` splats: `shufflevector (insertelement _, s, 0), _`
/// with every lane reading lane 0 (or poison).
pub open spec fn splat_of(m: Module, v: ValueId) -> Option<ValueId> {
    let ops = operands_of(m, v);
    if ops.len() < 2 || !zero_or_poison_mask(m.values()[v.0 as int].kind->mask@) {
        None
    } else {
        let ins = ops[0];
        let iops = operands_of(m, ins);
        match m.values()[ins.0 as int].kind {
            ValueKind::Instruction { op: Opcode::InsertElement, .. } =>
                if iops.len() >= 3 && const_all(m, iops[2], false) { Some(iops[1]) } else { None },
            _ => None,
        }
    }
}

/// What is known of the class of `v`, walking its operands from `depth`
/// on with interest in the classes `interested`.
pub open spec fn known_fp_class_model(m: Module, v: ValueId, interested: u32, depth: nat, dm: Option<Seq<bool>>, ctx: Option<(ValueId, bool)>) -> KnownFpClass
    decreases 2 * (MAX_DEPTH - depth) + 1, 0nat,
{
    match constant_class_model(m, v) {
        Some(k) => k,
        None => match m.values()[v.0 as int].kind {
            ValueKind::Instruction { op, flags, .. } => {
                let out = match ctx {
                    None => flags_rule_out(flags),
                    Some(_) => flags_rule_out(flags) | context_rule_out(m, v, ctx),
                };
                if depth >= MAX_DEPTH {
                    finish_model(m, v, known_not_model(unknown_class(), out), ctx)
                } else {
                    finish_model(m, v, known_not_model(dispatch_model(m, v, op, interested & !out, depth, dm, ctx), out), ctx)
                }
            },
            _ => match ctx {
                None => unknown_class(),
                Some(_) => finish_model(m, v, known_not_model(unknown_class(), context_rule_out(m, v, ctx)), ctx),
            },
        },
    }
}

/// The arm of the instruction `v` with opcode `op`.
pub open spec fn dispatch_model(m: Module, v: ValueId, op: Opcode, interested: u32, depth: nat, dm: Option<Seq<bool>>, ctx: Option<(ValueId, bool)>) -> KnownFpClass
    decreases 2 * (MAX_DEPTH - depth), 1nat,
{
    let ops = operands_of(m, v);
    if depth >= MAX_DEPTH {
        unknown_class()
    } else {
        match op {
            Opcode::Unary(UnaryOpcode::FNeg) => if ops.len() >= 1 {
                negate_model(known_fp_class_model(m, ops[0], interested, depth + 1, dm, ctx))
            } else { unknown_class() },
            Opcode::Select => if ops.len() >= 3 {
                union_model(
                    cond_model(m, ops[1], ops[0], true, known_fp_class_model(m, ops[1], interested, depth + 1, dm, ctx), depth + 1),
                    cond_model(m, ops[2], ops[0], false, known_fp_class_model(m, ops[2], interested, depth + 1, dm, ctx), depth + 1))
            } else { unknown_class() },
            Opcode::Binary(BinaryOpcode::FAdd) => if ops.len() >= 2 { add_sub_arm(m, v, ops[0], ops[1], true, interested, depth, dm, ctx) } else { unknown_class() },
            Opcode::Binary(BinaryOpcode::FSub) => if ops.len() >= 2 { add_sub_arm(m, v, ops[0], ops[1], false, interested, depth, dm, ctx) } else { unknown_class() },
            Opcode::Binary(BinaryOpcode::FDiv) => if ops.len() >= 2 { div_arm(m, v, ops[0], ops[1], true, interested, depth, dm, ctx) } else { unknown_class() },
            Opcode::Binary(BinaryOpcode::FRem) => if ops.len() >= 2 { div_arm(m, v, ops[0], ops[1], false, interested, depth, dm, ctx) } else { unknown_class() },
            Opcode::Cast(CastOpcode::SIToFP) => if ops.len() >= 1 { int_to_fp_model(m, v, ops[0], true, interested) } else { unknown_class() },
            Opcode::Cast(CastOpcode::UIToFP) => if ops.len() >= 1 { int_to_fp_model(m, v, ops[0], false, interested) } else { unknown_class() },
            Opcode::Call { callee } => if m.values()[v.0 as int].kind is Instruction && callee.0 < m.functions().len() {
                match m.functions()[callee.0 as int].intrinsic {
                    Some(id) => intrinsic_arm(m, v, id, ops, interested, depth, dm, ctx),
                    None => unknown_class(),
                }
            } else { unknown_class() },
            Opcode::ShuffleVector => shuffle_arm(m, v, interested, depth, dm, ctx),
            Opcode::ExtractElement => if ops.len() >= 2 {
                match lanes_of(m, ops[0]) {
                    None => known_fp_class_model(m, ops[0], interested, depth + 1, dm, ctx),
                    Some(n) => known_fp_class_model(m, ops[0], interested, depth + 1, Some(lane_mask(n, constant_lane(m, ops[1], n))), ctx),
                }
            } else { unknown_class() },
            Opcode::InsertElement => if ops.len() >= 3 { insert_element_arm(m, v, ops[0], ops[1], ops[2], interested, depth, dm, ctx) } else { unknown_class() },
            Opcode::ExtractValue => if ops.len() >= 1 {
                known_fp_class_model(m, ops[0], interested, depth + 1, dm, ctx)
            } else { unknown_class() },
            Opcode::Phi => if ops.len() == 0 || depth >= MAX_DEPTH - 2 {
                unknown_class()
            } else {
                phi_model(m, v, ops, interested, 0, None, dm, ctx)
            },
            _ => unknown_class(),
        }
    }
}

/// How the function around `v` treats denormals of `v`'s floating-point
/// format, or `None` for a value in no function or of no such format.
pub open spec fn scalar_denormal_mode(m: Module, v: ValueId) -> Option<DenormalMode> {
    let f = match m.values()[v.0 as int].kind {
        ValueKind::Instruction { block, .. } => Some(m.blocks()[block.0 as int].function),
        ValueKind::Argument { function, .. } => Some(function),
        _ => None,
    };
    match (f, scalar_shape(m, m.shape_of(v))) {
        (Some(f), TypeData::Float { kind }) => Some(denormal_mode_for(m.functions()[f.0 as int], kind)),
        _ => None,
    }
}

/// The `fadd` / `fsub` arm of `v` over the operands `l` and `r`.
pub open spec fn add_sub_arm(m: Module, v: ValueId, l: ValueId, r: ValueId, is_add: bool, interested: u32, depth: nat, dm: Option<Seq<bool>>, ctx: Option<(ValueId, bool)>) -> KnownFpClass
    decreases 2 * (MAX_DEPTH - depth), 0nat,
{
    if depth >= MAX_DEPTH || !add_sub_wanted(is_add, interested) {
        unknown_class()
    } else {
        let sources = add_sub_sources(is_add, interested);
        let kr = known_fp_class_model(m, r, sources, depth + 1, dm, ctx);
        let self_add = l == r && is_float_constant(m, l);
        let kl = if self_add { kr } else { known_fp_class_model(m, l, sources, depth + 1, dm, ctx) };
        add_sub_model(kl, kr, self_add, is_add, interested, scalar_denormal_mode(m, v))
    }
}

/// The `shufflevector` arm of `v`: a splat is its scalar; otherwise the
/// asked lanes of each source, joined.
pub open spec fn shuffle_arm(m: Module, v: ValueId, interested: u32, depth: nat, dm: Option<Seq<bool>>,
    ctx: Option<(ValueId, bool)>) -> KnownFpClass
    decreases 2 * (MAX_DEPTH - depth), 0nat,
{
    let ops = operands_of(m, v);
    let mask = m.values()[v.0 as int].kind->mask@;
    if depth >= MAX_DEPTH || !(m.values()[v.0 as int].kind is Instruction) || ops.len() < 2 {
        unknown_class()
    } else {
        match splat_of(m, v) {
            Some(x) => known_fp_class_model(m, x, interested, depth + 1, dm, ctx),
            None => match lanes_of(m, ops[0]) {
                None => unknown_class(),
                Some(w) => if mask.len() > u32::MAX || w == 0 { unknown_class() } else { match shuffle_demands(mask, demanded_lanes(dm, mask.len() as u32), w as nat) {
                    None => unknown_class(),
                    Some((dl, dr)) => {
                        let kl = if any_set(dl) {
                            known_fp_class_model(m, ops[0], interested, depth + 1, Some(dl), ctx)
                        } else {
                            KnownFpClass { classes: FpClassTest { bits: 0 }, sign_bit: None }
                        };
                        if any_set(dl) && is_unknown(kl) {
                            kl
                        } else if any_set(dr) {
                            union_model(kl, known_fp_class_model(m, ops[1], interested, depth + 1, Some(dr), ctx))
                        } else {
                            kl
                        }
                    },
                } },
            },
        }
    }
}

/// The intrinsic arm of the call `v` to `id` with the arguments `args`.
pub open spec fn intrinsic_arm(m: Module, v: ValueId, id: Intrinsic, args: Seq<ValueId>, interested: u32, depth: nat,
    dm: Option<Seq<bool>>, ctx: Option<(ValueId, bool)>) -> KnownFpClass
    decreases 2 * (MAX_DEPTH - depth), 0nat,
{
    let mode = call_denormal_mode(m, v);
    let fmf = match m.values()[v.0 as int].kind { ValueKind::Instruction { flags, .. } => flags.fmf.bits, _ => 0u8 };
    if depth >= MAX_DEPTH {
        unknown_class()
    } else {
        match id {
            Intrinsic::Fma | Intrinsic::FmulAdd => if interested & FC_NEGATIVE == 0 || args.len() < 3 || args[0] != args[1] {
                unknown_class()
            } else {
                let k = known_not_model(unknown_class(), FC_NEG_ZERO);
                if known_fp_class_model(m, args[2], interested, depth + 1, dm, ctx).classes.bits & FC_ORDERED_LESS_THAN_ZERO == 0 {
                    known_not_model(k, FC_NEGATIVE)
                } else { k }
            },
            Intrinsic::VectorReduceFmax | Intrinsic::VectorReduceFmin | Intrinsic::VectorReduceFmaximum
            | Intrinsic::VectorReduceFminimum => if args.len() < 1 {
                unknown_class()
            } else {
                let nnan = fmf & FMF_NO_NANS != 0;
                let ninf = fmf & FMF_NO_INFS != 0;
                let a0 = if nnan { interested & !FC_NAN } else { interested };
                let asked = if ninf { a0 & !FC_INF } else { a0 };
                let k0 = known_fp_class_model(m, args[0], asked, depth + 1, dm, ctx);
                let k1 = if nnan { known_not_model(k0, FC_NAN) } else { k0 };
                let k2 = if ninf { known_not_model(k1, FC_INF) } else { k1 };
                if k2.classes.bits & FC_NAN != 0 { KnownFpClass { classes: k2.classes, sign_bit: None } } else { k2 }
            },
            Intrinsic::Fabs => absolute_model(
                if interested & (FC_NAN | FC_POSITIVE) != 0 && args.len() >= 1 {
                    known_fp_class_model(m, args[0], interested, depth + 1, dm, ctx)
                } else { unknown_class() }),
            Intrinsic::Copysign => if args.len() < 2 {
                unknown_class()
            } else {
                copy_sign_model(known_fp_class_model(m, args[0], interested, depth + 1, dm, ctx),
                    known_fp_class_model(m, args[1], interested, depth + 1, dm, ctx))
            },
            Intrinsic::Sqrt => if args.len() < 1 {
                unknown_class()
            } else {
                let sources = interested | (if interested & FC_NAN != 0 { FC_ORDERED_LESS_THAN_ZERO } else { 0 });
                let src = known_fp_class_model(m, args[0], sources, depth + 1, dm, ctx);
                let nsz = fmf & FMF_NO_SIGNED_ZEROS != 0;
                let k = sqrt_model(src, if nsz { DenormalMode { output: DenormalModeKind::Dynamic, input: DenormalModeKind::Dynamic } } else { mode });
                if nsz { known_not_model(k, FC_NEG_ZERO) } else { k }
            },
            Intrinsic::Exp | Intrinsic::Exp2 | Intrinsic::Exp10 => if args.len() < 1 {
                unknown_class()
            } else {
                exp_model(known_fp_class_model(m, args[0], interested, depth + 1, dm, ctx))
            },
            Intrinsic::Log | Intrinsic::Log2 | Intrinsic::Log10 => if args.len() < 1 || interested & (FC_NAN | FC_INF) == 0 {
                unknown_class()
            } else {
                let s0 = if interested & FC_NEG_INF != 0 { interested | FC_ZERO | FC_SUBNORMAL } else { interested };
                let sources = if interested & FC_NAN != 0 { s0 | FC_NAN | FC_NEGATIVE } else { s0 };
                log_model(known_fp_class_model(m, args[0], sources, depth + 1, dm, ctx), mode)
            },
            _ => unknown_class(),
        }
    }
}

/// The `insertelement` arm of `v`, which puts `elem` into the lane `idx`
/// of `vector`: the element where its lane is asked about, joined with the
/// other asked lanes of `vector`.
pub open spec fn insert_element_arm(m: Module, v: ValueId, vector: ValueId, elem: ValueId, idx: ValueId, interested: u32,
    depth: nat, dm: Option<Seq<bool>>, ctx: Option<(ValueId, bool)>) -> KnownFpClass
    decreases 2 * (MAX_DEPTH - depth), 0nat,
{
    if depth >= MAX_DEPTH {
        unknown_class()
    } else {
        match lanes_of(m, v) {
            None => unknown_class(),
            Some(n) => {
                let d = demanded_lanes(dm, n);
                let lane = constant_lane(m, idx, n);
                let dv = match lane { Some(i) => d.update(i as int, false), None => d };
                let needs = match lane { Some(i) => d[i as int], None => true };
                let ke = known_fp_class_model(m, elem, interested, depth + 1, dm, ctx);
                if needs && is_unknown(ke) {
                    ke
                } else {
                    let k = if needs { ke } else { KnownFpClass { classes: FpClassTest { bits: 0 }, sign_bit: None } };
                    if any_set(dv) {
                        union_model(k, known_fp_class_model(m, vector, interested, depth + 1, Some(dv), ctx))
                    } else {
                        k
                    }
                }
            },
        }
    }
}

/// The `fdiv` / `frem` arm of `v` over the operands `l` and `r`.
pub open spec fn div_arm(m: Module, v: ValueId, l: ValueId, r: ValueId, is_divide: bool, interested: u32, depth: nat, dm: Option<Seq<bool>>, ctx: Option<(ValueId, bool)>) -> KnownFpClass
    decreases 2 * (MAX_DEPTH - depth), 0nat,
{
    let mode = scalar_denormal_mode(m, v);
    let self_mode = match mode {
        Some(md) => md,
        None => DenormalMode { output: DenormalModeKind::Dynamic, input: DenormalModeKind::Dynamic },
    };
    if depth >= MAX_DEPTH {
        unknown_class()
    } else if l == r && is_float_constant(m, l) {
        let src = if interested & FC_NAN != 0 { known_fp_class_model(m, l, self_div_sources(), depth + 1, dm, ctx) } else { unknown_class() };
        self_div_model(src, is_divide, interested, self_mode)
    } else if !div_wanted(is_divide, interested) {
        unknown_class()
    } else {
        let kr = known_fp_class_model(m, r, div_rhs_sources(), depth + 1, dm, ctx);
        let kl = if div_lhs_looked_at(kr, is_divide, interested) {
            known_fp_class_model(m, l, FC_ALL, depth + 1, dm, ctx)
        } else { unknown_class() };
        div_model(kl, kr, is_divide, mode)
    }
}

/// The phi arm from the incoming value `ops[i]` on, with `acc` what the
/// incoming values before it gave: each incoming value other than the
/// phi itself is walked at depth `MAX_DEPTH - 2` and joined, stopping
/// once every class is possible.
pub open spec fn phi_model(m: Module, v: ValueId, ops: Seq<ValueId>, interested: u32, i: nat, acc: Option<KnownFpClass>, dm: Option<Seq<bool>>, ctx: Option<(ValueId, bool)>) -> KnownFpClass
    decreases 2 * (MAX_DEPTH - (MAX_DEPTH - 2)) + 1, ops.len() - i,
{
    if i >= ops.len() {
        match acc { Some(k) => k, None => unknown_class() }
    } else if ops[i as int] == v {
        phi_model(m, v, ops, interested, i + 1, acc, dm, ctx)
    } else {
        let src = known_fp_class_model(m, ops[i as int], interested, (MAX_DEPTH - 2) as nat, dm, ctx);
        let next = match acc { Some(k) => union_model(k, src), None => src };
        if next.classes.bits == FC_ALL {
            next
        } else {
            phi_model(m, v, ops, interested, i + 1, Some(next), dm, ctx)
        }
    }
}

/// The class and sign of the pattern `bits` with `e` exponent and `p`
/// fraction bits.
fn classify_pattern(bits: u64, e: u64, p: u64) -> (r: (u32, bool))
    requires
        1 <= e <= 11,
        1 <= p <= 52,
    ensures
        r == pattern_class(bits, e, p),
{
    let neg = (bits >> (e + p)) & 1 == 1;
    assert(1u64 << e >= 1) by (bit_vector)
        requires
            e <= 11;
    assert(1u64 << p >= 1) by (bit_vector)
        requires
            p <= 52;
    let ones_e: u64 = (1u64 << e) - 1;
    let ones_p: u64 = (1u64 << p) - 1;
    let exp = (bits >> p) & ones_e;
    let frac = bits & ones_p;
    let quiet = (bits >> (p - 1)) & 1 == 1;
    let c = if exp == ones_e {
        if frac == 0 { if neg { FC_NEG_INF } else { FC_POS_INF } } else if quiet { FC_QNAN } else { FC_SNAN }
    } else if exp == 0 {
        if frac == 0 { if neg { FC_NEG_ZERO } else { FC_POS_ZERO } } else if neg { FC_NEG_SUBNORMAL } else { FC_POS_SUBNORMAL }
    } else if neg {
        FC_NEG_NORMAL
    } else {
        FC_POS_NORMAL
    };
    (c, neg)
}

/// What a constant leaf answers, or `None` for a value that is none.
fn constant_fp_class(m: &Module, v: ValueId) -> (r: Option<KnownFpClass>)
    requires
        m.wf(),
        m.valid_value(v),
    ensures
        r == constant_class_model(*m, v),
{
    match &m.value(v).kind {
        ValueKind::ConstFloat { bits } => {
            let t = m.value_type(v);
            match m.type_data(t) {
                TypeData::Float { kind } => {
                    let (e, p): (u64, u64) = match kind {
                        FloatKind::Half => (5, 10),
                        FloatKind::BFloat => (8, 7),
                        FloatKind::Float => (8, 23),
                        FloatKind::Double => (11, 52),
                        _ => { return None; },
                    };
                    let (c, neg) = classify_pattern(*bits, e, p);
                    Some(KnownFpClass { classes: FpClassTest { bits: c }, sign_bit: Some(neg) })
                },
                _ => None,
            }
        },
        ValueKind::Poison => Some(KnownFpClass { classes: FpClassTest { bits: 0 }, sign_bit: Some(false) }),
        _ => None,
    }
}

/// What is known of `lhs + rhs` (`is_add`) or `lhs - rhs` from what is
/// known of the operands, `self_add` telling that both are one value
/// (then `known_lhs` is `known_rhs`), for a query interested in the
/// classes `interested`, under the denormal mode `mode` of the enclosing
/// function when there is one.
pub fn add_or_subtract_fp_class(known_lhs: KnownFpClass, known_rhs: KnownFpClass, self_add: bool, is_add: bool,
    interested: FpClassTest, mode: Option<DenormalMode>) -> (r: KnownFpClass)
    ensures
        r == add_sub_model(known_lhs, known_rhs, self_add, is_add, interested.bits, mode),
{
    let mut known = KnownFpClass::unknown();
    let want_negative = is_add && interested.bits & FC_ORDERED_LESS_THAN_ZERO != 0;
    let want_nan = interested.bits & FC_NAN != 0;
    let want_negative_zero = interested.bits & FC_NEG_ZERO != 0;
    if !want_nan && !want_negative && !want_negative_zero {
        return known;
    }
    if !((want_nan && known_rhs.is_known_never_nan())
        || (want_negative && known_rhs.cannot_be_ordered_less_than_zero())
        || want_negative_zero
        || !is_add)
    {
        return known;
    }
    if known_lhs.is_known_never_nan() && known_rhs.is_known_never_nan()
        && (known_lhs.is_known_never_infinity() || known_rhs.is_known_never_infinity())
    {
        known.known_not(FC_NAN);
    }
    if is_add {
        if known_lhs.cannot_be_ordered_less_than_zero() && known_rhs.cannot_be_ordered_less_than_zero() {
            known.known_not(FC_ORDERED_LESS_THAN_ZERO);
        }
        if known_lhs.cannot_be_ordered_greater_than_zero() && known_rhs.cannot_be_ordered_greater_than_zero() {
            known.known_not(FC_ORDERED_GREATER_THAN_ZERO);
        }
    }
    let md = match mode {
        Some(md) => md,
        None => { return known; },
    };
    let flush_ok = match md.output {
        DenormalModeKind::Ieee | DenormalModeKind::PositiveZero => true,
        _ => false,
    };
    if is_add {
        let doubling_keeps_sign = match md.output {
            DenormalModeKind::Ieee => true,
            DenormalModeKind::PreserveSign => known_rhs.is_known_never_positive_subnormal(),
            DenormalModeKind::PositiveZero => known_rhs.is_known_never_subnormal(),
            DenormalModeKind::Dynamic => false,
        };
        if self_add && known_rhs.is_known_never_logical_positive_zero(md) && doubling_keeps_sign {
            known.known_not(FC_POS_ZERO);
        }
        if (known_lhs.is_known_never_logical_negative_zero(md) || known_rhs.is_known_never_logical_negative_zero(md)) && flush_ok {
            known.known_not(FC_NEG_ZERO);
        }
    } else if (known_lhs.is_known_never_logical_negative_zero(md) || known_rhs.is_known_never_logical_positive_zero(md)) && flush_ok {
        known.known_not(FC_NEG_ZERO);
    }
    known
}

/// What is known of `x / x` (`is_divide`) or `x % x` for `x` known as
/// `source`, for a query interested in the classes `interested`.
pub fn self_divide_or_remainder_fp_class(source: KnownFpClass, is_divide: bool, interested: FpClassTest, mode: DenormalMode)
    -> (r: KnownFpClass)
    ensures
        r == self_div_model(source, is_divide, interested.bits, mode),
{
    let mut known = KnownFpClass::from_classes(FpClassTest { bits: if is_divide { FC_NAN | FC_POS_NORMAL } else { FC_NAN | FC_ZERO } });
    if interested.bits & FC_NAN == 0 {
        return known;
    }
    if source.is_known_never_infinity_or_nan() && source.is_known_never_logical_zero(mode) {
        known.known_not(FC_NAN);
    } else if source.is_known_never(FC_SNAN) {
        known.known_not(FC_SNAN);
    }
    known
}

/// What is known of `lhs / rhs` (`is_divide`) or `lhs % rhs` for two
/// operands that are not one value, from what is known of them.
pub fn divide_or_remainder_fp_class(known_lhs: KnownFpClass, known_rhs: KnownFpClass, is_divide: bool, mode: Option<DenormalMode>)
    -> (r: KnownFpClass)
    ensures
        r == div_model(known_lhs, known_rhs, is_divide, mode),
{
    let mut known = KnownFpClass::unknown();
    if is_divide {
        let zero_ok = match mode {
            Some(md) => known_lhs.is_known_never_logical_zero(md) || known_rhs.is_known_never_logical_zero(md),
            None => false,
        };
        if known_lhs.is_known_never_nan() && known_rhs.is_known_never_nan()
            && (known_lhs.is_known_never_infinity() || known_rhs.is_known_never_infinity()) && zero_ok
        {
            known.known_not(FC_NAN);
        }
        if (known_lhs.is_known_never(FC_NEGATIVE) && known_rhs.is_known_never(FC_NEGATIVE))
            || (known_lhs.is_known_never(FC_POSITIVE) && known_rhs.is_known_never(FC_POSITIVE))
        {
            known.known_not(FC_NEGATIVE);
        }
        if (known_lhs.is_known_never(FC_POSITIVE) && known_rhs.is_known_never(FC_NEGATIVE))
            || (known_lhs.is_known_never(FC_NEGATIVE) && known_rhs.is_known_never(FC_POSITIVE))
        {
            known.known_not(FC_POSITIVE);
        }
        if known_lhs.is_known_always(FC_ZERO) {
            known.known_not(FC_SUBNORMAL | FC_NORMAL | FC_INF);
        }
        if known_rhs.is_known_always(FC_ZERO) {
            known.known_not(FC_FINITE);
        }
    } else {
        let zero_ok = match mode {
            Some(md) => known_rhs.is_known_never_logical_zero(md),
            None => false,
        };
        if known_lhs.is_known_never_nan() && known_rhs.is_known_never_nan() && known_lhs.is_known_never_infinity() && zero_ok {
            known.known_not(FC_NAN);
        }
        if known_lhs.cannot_be_ordered_less_than_zero() {
            known.known_not(FC_ORDERED_LESS_THAN_ZERO);
        }
        if known_lhs.cannot_be_ordered_greater_than_zero() {
            known.known_not(FC_ORDERED_GREATER_THAN_ZERO);
        }
        if known_lhs.is_known_never(FC_NEGATIVE) {
            known.known_not(FC_NEGATIVE);
        }
        if known_lhs.is_known_never(FC_POSITIVE) {
            known.known_not(FC_POSITIVE);
        }
    }
    known
}

/// The classes that the fast-math flags of `flags` rule out.
fn rule_out(flags: &InstFlags) -> (r: u32)
    ensures
        r == flags_rule_out(*flags),
{
    (if flags.fmf.bits & FMF_NO_NANS != 0 { FC_NAN } else { 0 }) | (if flags.fmf.bits & FMF_NO_INFS != 0 { FC_INF } else { 0 })
}

/// `t` is `i1` or a vector of `i1`.
fn is_bool_like_exec(m: &Module, t: TypeId) -> (r: bool)
    requires
        m.wf(),
        m.valid_type(t),
    ensures
        r == is_bool_like(*m, t),
{
    match scalar_shape_exec(m, t) {
        TypeData::Integer { bits } => bits == 1,
        _ => false,
    }
}

/// The integer constant `c` has every bit equal to `b`.
fn const_all_exec(m: &Module, c: ValueId, b: bool) -> (r: bool)
    requires
        m.valid_value(c),
    ensures
        r == const_all(*m, c, b),
{
    match &m.value(c).kind {
        ValueKind::ConstInt { value } => if b { value.is_all_ones() } else { value.is_zero() },
        _ => false,
    }
}

/// The operands of the instruction `c`, with what `wf` says of them.
fn operands_exec(m: &Module, c: ValueId) -> (r: Option<&Vec<ValueId>>)
    requires
        m.wf(),
        m.valid_value(c),
    ensures
        r is Some <==> m.values()[c.0 as int].kind is Instruction,
        r matches Some(o) ==> o@ == operands_of(*m, c),
        r matches Some(o) ==> forall|k: int| 0 <= k < o@.len() ==> m.valid_value(#[trigger] o@[k]),
{
    proof {
        assert(crate::ir::value_refs_ok(m.values()[c.0 as int], m.types().len(), m.values().len(),
            m.blocks().len(), m.functions().len()));
    }
    match &m.value(c).kind {
        ValueKind::Instruction { operands, .. } => Some(operands),
        _ => None,
    }
}

/// The two halves of a logical `and` or `or`.
fn logical_parts_exec(m: &Module, c: ValueId) -> (r: Option<(ValueId, ValueId, bool)>)
    requires
        m.wf(),
        m.valid_value(c),
    ensures
        r == logical_parts(*m, c),
        r matches Some((a, b, _)) ==> m.valid_value(a) && m.valid_value(b),
{
    let op = match &m.value(c).kind {
        ValueKind::Instruction { op, .. } => *op,
        _ => { return None; },
    };
    if !is_bool_like_exec(m, m.value_type(c)) {
        return None;
    }
    let ops = match operands_exec(m, c) { Some(o) => o, None => { return None; } };
    match op {
        Opcode::Binary(BinaryOpcode::And) => if ops.len() >= 2 { Some((ops[0], ops[1], true)) } else { None },
        Opcode::Binary(BinaryOpcode::Or) => if ops.len() >= 2 { Some((ops[0], ops[1], false)) } else { None },
        Opcode::Select => if ops.len() < 3 {
            None
        } else if const_all_exec(m, ops[2], false) {
            Some((ops[0], ops[1], true))
        } else if const_all_exec(m, ops[1], true) {
            Some((ops[0], ops[2], false))
        } else {
            None
        },
        _ => None,
    }
}

/// The value `c` negates.
fn not_operand_exec(m: &Module, c: ValueId) -> (r: Option<ValueId>)
    requires
        m.wf(),
        m.valid_value(c),
    ensures
        r == not_operand(*m, c),
        r matches Some(x) ==> m.valid_value(x),
{
    match &m.value(c).kind {
        ValueKind::Instruction { op: Opcode::Binary(BinaryOpcode::Xor), .. } => {
            let ops = match operands_exec(m, c) { Some(o) => o, None => { return None; } };
            if ops.len() < 2 {
                None
            } else if const_all_exec(m, ops[1], true) {
                Some(ops[0])
            } else if const_all_exec(m, ops[0], true) {
                Some(ops[1])
            } else {
                None
            }
        },
        _ => None,
    }
}

/// The value and class mask of an `llvm.is.fpclass` call.
fn is_fpclass_exec(m: &Module, c: ValueId) -> (r: Option<(ValueId, u32)>)
    requires
        m.wf(),
        m.valid_value(c),
    ensures
        r == is_fpclass_parts(*m, c),
{
    let callee = match &m.value(c).kind {
        ValueKind::Instruction { op: Opcode::Call { callee }, .. } => *callee,
        _ => { return None; },
    };
    if callee.0 >= m.function_count() {
        return None;
    }
    match m.function_intrinsic(callee) {
        Some(Intrinsic::IsFpclass) => {},
        _ => { return None; },
    }
    let ops = match operands_exec(m, c) { Some(o) => o, None => { return None; } };
    if ops.len() < 2 {
        return None;
    }
    match &m.value(ops[1]).kind {
        ValueKind::ConstInt { value } => match value.try_zext_u64() {
            Some(x) => Some((ops[0], (x % 1024) as u32)),
            None => None,
        },
        _ => None,
    }
}

/// `a` is the largest (`min` false) or smallest signed value.
fn signed_extreme_exec(a: &ApInt, min: bool) -> (r: bool)
    ensures
        r == signed_extreme(a@, min),
{
    let n = a.bit_width();
    if n == 0 {
        return false;
    }
    let mut i: u32 = 0;
    while i < n
        invariant
            n == a@.len(),
            n > 0,
            i <= n,
            forall|j: int| 0 <= j < i ==> a@[j] == ((j == n - 1) == min),
        decreases n - i,
    {
        if a.bit(i) != ((i == n - 1) == min) {
            return false;
        }
        i += 1;
    }
    true
}

/// Whether `icmp pred x, a` tests the sign bit of `x`.
fn sign_bit_check_exec(pred: IntPredicate, a: &ApInt) -> (r: Option<bool>)
    ensures
        r == sign_bit_check(pred, a@),
{
    match pred {
        IntPredicate::Slt => if a.is_zero() { Some(true) } else { None },
        IntPredicate::Sle => if a.is_all_ones() { Some(true) } else { None },
        IntPredicate::Sgt => if a.is_all_ones() { Some(false) } else { None },
        IntPredicate::Sge => if a.is_zero() { Some(false) } else { None },
        IntPredicate::Ugt => if signed_extreme_exec(a, false) { Some(true) } else { None },
        IntPredicate::Uge => if signed_extreme_exec(a, true) { Some(true) } else { None },
        IntPredicate::Ult => if signed_extreme_exec(a, true) { Some(false) } else { None },
        IntPredicate::Ule => if signed_extreme_exec(a, false) { Some(false) } else { None },
        _ => None,
    }
}

/// Whether `c` tests the sign bit of `value`'s bits.
fn sign_test_exec(m: &Module, c: ValueId, value: ValueId) -> (r: Option<bool>)
    requires
        m.wf(),
        m.valid_value(c),
        m.valid_value(value),
    ensures
        r == sign_test(*m, c, value),
{
    let pred = match &m.value(c).kind {
        ValueKind::Instruction { op: Opcode::ICmp(pred), .. } => *pred,
        _ => { return None; },
    };
    let ops = match operands_exec(m, c) { Some(o) => o, None => { return None; } };
    if ops.len() < 2 {
        return None;
    }
    let cast = ops[0];
    match &m.value(cast).kind {
        ValueKind::Instruction { op: Opcode::Cast(CastOpcode::BitCast), .. } => {},
        _ => { return None; },
    }
    let cops = match operands_exec(m, cast) { Some(o) => o, None => { return None; } };
    if cops.len() < 1 || cops[0] != value || vector_lanes(m, cops[0]) != vector_lanes(m, cast) {
        return None;
    }
    match &m.value(ops[1]).kind {
        ValueKind::ConstInt { value: b } => sign_bit_check_exec(pred, b),
        _ => None,
    }
}

/// `k` with the sign bit set (`one`) or clear.
fn sign_bit_must_be_exec(k: KnownFpClass, one: bool) -> (r: KnownFpClass)
    ensures
        r == sign_bit_must_be(k, one),
{
    KnownFpClass {
        classes: FpClassTest { bits: k.classes.bits & (if one { FC_NEGATIVE | FC_NAN } else { FC_POSITIVE | FC_NAN }) },
        sign_bit: Some(one),
    }
}

/// What the condition `c` being `is_true` teaches of `value` on top of `k`.
fn cond_at(m: &Module, value: ValueId, c: ValueId, is_true: bool, k: KnownFpClass, depth: u32) -> (r: KnownFpClass)
    requires
        m.wf(),
        m.valid_value(value),
        m.valid_value(c),
    ensures
        r == cond_model(*m, value, c, is_true, k, depth as nat),
    decreases MAX_DEPTH - depth,
{
    if depth < MAX_DEPTH {
        if let Some((a, b, is_and)) = logical_parts_exec(m, c) {
            if is_and == is_true {
                let ka = cond_at(m, value, a, is_true, k, depth + 1);
                return cond_at(m, value, b, is_true, ka, depth + 1);
            }
        }
        if let Some(x) = not_operand_exec(m, c) {
            return cond_at(m, value, x, !is_true, k, depth + 1);
        }
    }
    if let ValueKind::Instruction { op: Opcode::FCmp(_), .. } = &m.value(c).kind {
        return k;
    }
    if let Some((tested, mask)) = is_fpclass_exec(m, c) {
        if tested == value {
            let mut r = k;
            r.known_not(if is_true { !mask & FC_ALL } else { mask });
            return r;
        }
        return k;
    }
    match sign_test_exec(m, c, value) {
        Some(tis) => sign_bit_must_be_exec(k, tis == is_true),
        None => k,
    }
}

/// What the condition context teaches of `v`.
fn context_at(m: &Module, v: ValueId, ctx: Option<(ValueId, bool)>) -> (r: KnownFpClass)
    requires
        m.wf(),
        m.valid_value(v),
        ctx matches Some((c, _)) ==> m.valid_value(c),
    ensures
        r == context_model(*m, v, ctx),
{
    match ctx {
        Some((c, t)) => cond_at(m, v, c, t, KnownFpClass::unknown(), 0),
        None => KnownFpClass::unknown(),
    }
}

/// `k` with the sign the context knows (`assumed`) filled in where `k`
/// has none.
fn finish_at(k: KnownFpClass, assumed: KnownFpClass, ctx: Option<(ValueId, bool)>) -> (r: KnownFpClass)
    ensures
        r == (match ctx {
            None => k,
            Some(_) => match (k.sign_bit, assumed.sign_bit) {
                (None, Some(s)) => sign_bit_must_be(k, s),
                _ => k,
            },
        }),
{
    match ctx {
        None => k,
        Some(_) => match (k.sign_bit, assumed.sign_bit) {
            (None, Some(s)) => sign_bit_must_be_exec(k, s),
            _ => k,
        },
    }
}

/// The walk at `v` from `depth` on.
fn known_fp_class_at(m: &Module, v: ValueId, interested: u32, depth: u32, dm: &Option<Vec<bool>>, ctx: Option<(ValueId, bool)>) -> (r: KnownFpClass)
    requires
        ctx matches Some((c, _)) ==> m.valid_value(c),
        m.wf(),
        m.valid_value(v),
        depth <= MAX_DEPTH,
    ensures
        r == known_fp_class_model(*m, v, interested, depth as nat, demand_view(*dm), ctx),
    decreases 2 * (MAX_DEPTH - depth) + 1, 0nat,
{
    if let Some(k) = constant_fp_class(m, v) {
        return k;
    }
    match &m.value(v).kind {
        ValueKind::Instruction { op, flags, .. } => {
            let assumed = context_at(m, v, ctx);
            let out = match ctx {
                None => rule_out(flags),
                Some(_) => rule_out(flags) | (!assumed.classes.bits & FC_ALL),
            };
            let mut k = if depth >= MAX_DEPTH {
                KnownFpClass::unknown()
            } else {
                dispatch(m, v, *op, interested & !out, depth, dm, ctx)
            };
            k.known_not(out);
            finish_at(k, assumed, ctx)
        },
        _ => match ctx {
            None => KnownFpClass::unknown(),
            Some(_) => {
                let assumed = context_at(m, v, ctx);
                let mut k = KnownFpClass::unknown();
                k.known_not(!assumed.classes.bits & FC_ALL);
                finish_at(k, assumed, ctx)
            },
        },
    }
}

/// The arm of the instruction `v`, with opcode `op`.
fn dispatch(m: &Module, v: ValueId, op: Opcode, interested: u32, depth: u32, dm: &Option<Vec<bool>>, ctx: Option<(ValueId, bool)>) -> (r: KnownFpClass)
    requires
        ctx matches Some((c, _)) ==> m.valid_value(c),
        m.wf(),
        m.valid_value(v),
        depth < MAX_DEPTH,
    ensures
        r == dispatch_model(*m, v, op, interested, depth as nat, demand_view(*dm), ctx),
    decreases 2 * (MAX_DEPTH - depth), 1nat,
{
    let ops = match &m.value(v).kind {
        ValueKind::Instruction { operands, .. } => operands,
        _ => { return KnownFpClass::unknown(); },
    };
    proof {
        assert(crate::ir::value_refs_ok(m.values()[v.0 as int], m.types().len(), m.values().len(),
            m.blocks().len(), m.functions().len()));
        assert(ops@ == operands_of(*m, v));
    }
    match op {
        Opcode::Unary(UnaryOpcode::FNeg) => {
            if ops.len() < 1 {
                return KnownFpClass::unknown();
            }
            let mut k = known_fp_class_at(m, ops[0], interested, depth + 1, dm, ctx);
            k.negate();
            k
        },
        Opcode::Select => {
            if ops.len() < 3 {
                return KnownFpClass::unknown();
            }
            let kt = known_fp_class_at(m, ops[1], interested, depth + 1, dm, ctx);
            let kt = cond_at(m, ops[1], ops[0], true, kt, depth + 1);
            let kf = known_fp_class_at(m, ops[2], interested, depth + 1, dm, ctx);
            let kf = cond_at(m, ops[2], ops[0], false, kf, depth + 1);
            kt.union_with(kf)
        },
        Opcode::Binary(BinaryOpcode::FAdd) | Opcode::Binary(BinaryOpcode::FSub) => {
            if ops.len() < 2 {
                return KnownFpClass::unknown();
            }
            let is_add = match op { Opcode::Binary(BinaryOpcode::FAdd) => true, _ => false };
            add_sub_at(m, v, ops[0], ops[1], is_add, interested, depth, dm, ctx)
        },
        Opcode::Binary(BinaryOpcode::FDiv) | Opcode::Binary(BinaryOpcode::FRem) => {
            if ops.len() < 2 {
                return KnownFpClass::unknown();
            }
            let is_divide = match op { Opcode::Binary(BinaryOpcode::FDiv) => true, _ => false };
            div_at(m, v, ops[0], ops[1], is_divide, interested, depth, dm, ctx)
        },
        Opcode::Cast(CastOpcode::SIToFP) | Opcode::Cast(CastOpcode::UIToFP) => {
            if ops.len() < 1 {
                return KnownFpClass::unknown();
            }
            let signed = match op { Opcode::Cast(CastOpcode::SIToFP) => true, _ => false };
            int_to_fp_class(m, v, ops[0], signed, interested)
        },
        Opcode::Call { callee } => {
            if callee.0 >= m.function_count() {
                return KnownFpClass::unknown();
            }
            match m.function_intrinsic(callee) {
                Some(id) => intrinsic_at(m, v, id, ops, interested, depth, dm, ctx),
                None => KnownFpClass::unknown(),
            }
        },
        Opcode::ShuffleVector => shuffle_at(m, v, interested, depth, dm, ctx),
        Opcode::ExtractElement => {
            if ops.len() < 2 {
                return KnownFpClass::unknown();
            }
            match vector_lanes(m, ops[0]) {
                None => known_fp_class_at(m, ops[0], interested, depth + 1, dm, ctx),
                Some(n) => {
                    let lane = constant_lane_exec(m, ops[1], n);
                    let d = lane_mask_exec(n, lane);
                    known_fp_class_at(m, ops[0], interested, depth + 1, &Some(d), ctx)
                },
            }
        },
        Opcode::InsertElement => {
            if ops.len() < 3 {
                return KnownFpClass::unknown();
            }
            insert_element_at(m, v, ops[0], ops[1], ops[2], interested, depth, dm, ctx)
        },
        Opcode::ExtractValue => {
            if ops.len() < 1 {
                return KnownFpClass::unknown();
            }
            known_fp_class_at(m, ops[0], interested, depth + 1, dm, ctx)
        },
        Opcode::Phi => {
            if ops.len() == 0 || depth >= MAX_DEPTH - 2 {
                return KnownFpClass::unknown();
            }
            phi_fp_class(m, v, ops, interested, dm, ctx)
        },
        _ => KnownFpClass::unknown(),
    }
}

/// The scalar type of the type `t`.
fn scalar_shape_exec(m: &Module, t: TypeId) -> (r: TypeData)
    requires
        m.wf(),
        m.valid_type(t),
    ensures
        r == scalar_shape(*m, m.types()[t.0 as int]),
{
    proof {
        assert(crate::ir::type_refs_below(m.types()[t.0 as int], t.0 as int));
    }
    match m.type_data(t) {
        TypeData::FixedVector { elem, .. } => m.type_data(elem),
        d => d,
    }
}

/// The largest binary exponent of a finite value of the format `kind`.
fn max_exponent_exec(kind: FloatKind) -> (r: i64)
    ensures
        r == max_exponent(kind),
{
    match kind {
        FloatKind::Half => 15,
        FloatKind::BFloat => 127,
        FloatKind::Float => 127,
        FloatKind::Double => 1023,
        FloatKind::X86Fp80 => 16383,
        FloatKind::Fp128 => 16383,
        FloatKind::PpcFp128 => 1023,
    }
}

/// The `sitofp` (`signed`) / `uitofp` arm of `v` over its source `src`.
fn int_to_fp_class(m: &Module, v: ValueId, src: ValueId, signed: bool, interested: u32) -> (r: KnownFpClass)
    requires
        m.wf(),
        m.valid_value(v),
        m.valid_value(src),
    ensures
        r == int_to_fp_model(*m, v, src, signed, interested),
{
    let mut known = KnownFpClass::unknown();
    known.known_not(FC_NAN);
    known.known_not(FC_SUBNORMAL);
    known.known_not(FC_NEG_ZERO);
    if !signed {
        known = KnownFpClass { classes: FpClassTest { bits: known.classes.bits & (FC_POSITIVE | FC_NAN) }, sign_bit: Some(false) };
    }
    if interested & FC_INF == 0 {
        return known;
    }
    let st = m.value_type(src);
    let bits = match scalar_shape_exec(m, st) {
        TypeData::Integer { bits } => bits,
        _ => { return known; },
    };
    let vt = m.value_type(v);
    let kind = match scalar_shape_exec(m, vt) {
        TypeData::Float { kind } => kind,
        _ => { return known; },
    };
    let size: i64 = if signed { bits as i64 - 1 } else { bits as i64 };
    if max_exponent_exec(kind) >= size {
        known.known_not(FC_INF);
    }
    known
}

/// How the function around `v` treats denormals of `v`'s format.
fn denormal_mode_of(m: &Module, v: ValueId) -> (r: Option<DenormalMode>)
    requires
        m.wf(),
        m.valid_value(v),
    ensures
        r == scalar_denormal_mode(*m, v),
{
    proof {
        assert(crate::ir::value_refs_ok(m.values()[v.0 as int], m.types().len(), m.values().len(),
            m.blocks().len(), m.functions().len()));
    }
    let f = match &m.value(v).kind {
        ValueKind::Instruction { block, .. } => {
            proof {
                assert(crate::ir::block_refs_ok(m.blocks()[block.0 as int], m.values().len(), m.functions().len()));
            }
            m.block_function(*block)
        },
        ValueKind::Argument { function, .. } => *function,
        _ => { return None; },
    };
    let t = m.value_type(v);
    match scalar_shape_exec(m, t) {
        TypeData::Float { kind } => Some(m.function_denormal_mode(f, kind)),
        _ => None,
    }
}

/// The number of lanes of `v`'s type when it is a vector.
fn vector_lanes(m: &Module, v: ValueId) -> (r: Option<u32>)
    requires
        m.wf(),
        m.valid_value(v),
    ensures
        r == lanes_of(*m, v),
{
    match m.type_data(m.value_type(v)) {
        TypeData::FixedVector { n, .. } => Some(n),
        _ => None,
    }
}

/// The lane an integer constant `idx` names, when it is below `lanes`.
fn constant_lane_exec(m: &Module, idx: ValueId, lanes: u32) -> (r: Option<u32>)
    requires
        m.valid_value(idx),
    ensures
        r matches Some(i) ==> constant_lane(*m, idx, lanes) == Some(i as nat),
        r is None ==> constant_lane(*m, idx, lanes) is None,
{
    match &m.value(idx).kind {
        ValueKind::ConstInt { value } => match value.try_zext_u64() {
            Some(x) => if x < lanes as u64 { Some(x as u32) } else { None },
            None => None,
        },
        _ => None,
    }
}

/// Only lane `i` of `lanes`, or every lane when there is no `i`.
fn lane_mask_exec(lanes: u32, i: Option<u32>) -> (r: Vec<bool>)
    ensures
        r@ == lane_mask(lanes, match i { Some(i) => Some(i as nat), None => None }),
{
    let mut r: Vec<bool> = Vec::new();
    let n = lanes as usize;
    for j in 0..n
        invariant
            n == lanes,
            r@ == lane_mask(lanes, match i { Some(i) => Some(i as nat), None => None }).take(j as int),
    {
        let bit = match i {
            Some(k) => j == k as usize,
            None => true,
        };
        r.push(bit);
        assert(r@ =~= lane_mask(lanes, match i { Some(i) => Some(i as nat), None => None }).take(j + 1));
    }
    assert(r@ =~= lane_mask(lanes, match i { Some(i) => Some(i as nat), None => None }));
    r
}

/// Some lane of `d` is set.
fn any_lane(d: &Vec<bool>) -> (r: bool)
    ensures
        r == any_set(d@),
{
    let mut j: usize = 0;
    while j < d.len()
        invariant
            j <= d@.len(),
            forall|t: int| 0 <= t < j ==> !d@[t],
        decreases d@.len() - j,
    {
        if d[j] {
            return true;
        }
        j += 1;
    }
    false
}

/// What is known of `|x|` given `k` for `x`.
fn absolute_exec(k: KnownFpClass) -> (r: KnownFpClass)
    ensures
        r == absolute_model(k),
{
    let c = k.classes.bits;
    let widened = c | (if c & FC_NEG_ZERO != 0 { FC_POS_ZERO } else { 0 }) | (if c & FC_NEG_INF != 0 { FC_POS_INF } else { 0 })
        | (if c & FC_NEG_SUBNORMAL != 0 { FC_POS_SUBNORMAL } else { 0 }) | (if c & FC_NEG_NORMAL != 0 { FC_POS_NORMAL } else { 0 });
    sign_bit_must_be_exec(KnownFpClass { classes: FpClassTest { bits: widened }, sign_bit: k.sign_bit }, false)
}

/// What is known of `copysign(x, y)` given `k` for `x` and `sign` for `y`.
fn copy_sign_exec(k: KnownFpClass, sign: KnownFpClass) -> (r: KnownFpClass)
    ensures
        r == copy_sign_model(k, sign),
{
    let c = k.classes.bits;
    let c1 = c | (if c & FC_ZERO != 0 { FC_ZERO } else { 0 }) | (if c & FC_SUBNORMAL != 0 { FC_SUBNORMAL } else { 0 })
        | (if c & FC_NORMAL != 0 { FC_NORMAL } else { 0 }) | (if c & FC_INF != 0 { FC_INF } else { 0 });
    let s = sign.sign_bit;
    let c2 = if sign.classes.bits & (FC_POSITIVE | FC_NAN) == 0 || s == Some(true) { c1 & (FC_NEGATIVE | FC_NAN) } else { c1 };
    let c3 = if sign.classes.bits & (FC_NEGATIVE | FC_NAN) == 0 || s == Some(false) { c2 & (FC_POSITIVE | FC_NAN) } else { c2 };
    KnownFpClass { classes: FpClassTest { bits: c3 }, sign_bit: s }
}

/// What is known of `sqrt(x)` given `src` for `x`, under `mode`.
fn sqrt_exec(src: KnownFpClass, mode: DenormalMode) -> (r: KnownFpClass)
    ensures
        r == sqrt_model(src, mode),
{
    let mut k = KnownFpClass::unknown();
    if src.is_known_never(FC_POS_INF) {
        k.known_not(FC_POS_INF);
    }
    if src.is_known_never(FC_SNAN) {
        k.known_not(FC_SNAN);
    }
    if src.is_known_never_nan() && src.cannot_be_ordered_less_than_zero() {
        k.known_not(FC_NAN);
    }
    k.known_not(FC_NEG_INF | FC_NEG_SUBNORMAL | FC_NEG_NORMAL);
    if src.is_known_never_logical_negative_zero(mode) {
        k.known_not(FC_NEG_ZERO);
    }
    k
}

/// What is known of `exp(x)` given `src` for `x`.
fn exp_exec(src: KnownFpClass) -> (r: KnownFpClass)
    ensures
        r == exp_model(src),
{
    let mut k = KnownFpClass::unknown();
    k.known_not(FC_NEGATIVE);
    if src.is_known_never_nan() {
        k.known_not(FC_NAN);
        k = sign_bit_must_be_exec(k, false);
    }
    k
}

/// What is known of `log(x)` given `src` for `x`, under `mode`.
fn log_exec(src: KnownFpClass, mode: DenormalMode) -> (r: KnownFpClass)
    ensures
        r == log_model(src, mode),
{
    let mut k = KnownFpClass::unknown();
    if src.is_known_never(FC_POS_INF) {
        k.known_not(FC_POS_INF);
    }
    if src.is_known_never_nan() && src.cannot_be_ordered_less_than_zero() {
        k.known_not(FC_NAN);
    }
    if src.is_known_never_logical_zero(mode) {
        k.known_not(FC_NEG_INF);
    }
    k
}

/// The intrinsic arm of the call `v` to `id` with the arguments `args`.
fn intrinsic_at(m: &Module, v: ValueId, id: Intrinsic, args: &Vec<ValueId>, interested: u32, depth: u32,
    dm: &Option<Vec<bool>>, ctx: Option<(ValueId, bool)>) -> (r: KnownFpClass)
    requires
        ctx matches Some((c, _)) ==> m.valid_value(c),
        m.wf(),
        m.valid_value(v),
        forall|k: int| 0 <= k < args@.len() ==> m.valid_value(#[trigger] args@[k]),
        depth < MAX_DEPTH,
    ensures
        r == intrinsic_arm(*m, v, id, args@, interested, depth as nat, demand_view(*dm), ctx),
    decreases 2 * (MAX_DEPTH - depth), 0nat,
{
    let mode = match denormal_mode_of(m, v) {
        Some(md) => md,
        None => DenormalMode::dynamic(),
    };
    let fmf: u8 = match &m.value(v).kind {
        ValueKind::Instruction { flags, .. } => flags.fmf.bits,
        _ => 0,
    };
    match id {
        Intrinsic::Fma | Intrinsic::FmulAdd => {
            if interested & FC_NEGATIVE == 0 || args.len() < 3 || args[0] != args[1] {
                return KnownFpClass::unknown();
            }
            let mut k = KnownFpClass::unknown();
            k.known_not(FC_NEG_ZERO);
            if known_fp_class_at(m, args[2], interested, depth + 1, dm, ctx).cannot_be_ordered_less_than_zero() {
                k.known_not(FC_NEGATIVE);
            }
            k
        },
        Intrinsic::VectorReduceFmax | Intrinsic::VectorReduceFmin | Intrinsic::VectorReduceFmaximum
        | Intrinsic::VectorReduceFminimum => {
            if args.len() < 1 {
                return KnownFpClass::unknown();
            }
            let nnan = fmf & FMF_NO_NANS != 0;
            let ninf = fmf & FMF_NO_INFS != 0;
            let a0 = if nnan { interested & !FC_NAN } else { interested };
            let asked = if ninf { a0 & !FC_INF } else { a0 };
            let mut k = known_fp_class_at(m, args[0], asked, depth + 1, dm, ctx);
            if nnan {
                k.known_not(FC_NAN);
            }
            if ninf {
                k.known_not(FC_INF);
            }
            if !k.is_known_never_nan() {
                k = KnownFpClass { classes: k.classes, sign_bit: None };
            }
            k
        },
        Intrinsic::Fabs => {
            let k = if interested & (FC_NAN | FC_POSITIVE) != 0 && args.len() >= 1 {
                known_fp_class_at(m, args[0], interested, depth + 1, dm, ctx)
            } else {
                KnownFpClass::unknown()
            };
            absolute_exec(k)
        },
        Intrinsic::Copysign => {
            if args.len() < 2 {
                return KnownFpClass::unknown();
            }
            let k = known_fp_class_at(m, args[0], interested, depth + 1, dm, ctx);
            let ks = known_fp_class_at(m, args[1], interested, depth + 1, dm, ctx);
            copy_sign_exec(k, ks)
        },
        Intrinsic::Sqrt => {
            if args.len() < 1 {
                return KnownFpClass::unknown();
            }
            let sources = interested | (if interested & FC_NAN != 0 { FC_ORDERED_LESS_THAN_ZERO } else { 0 });
            let src = known_fp_class_at(m, args[0], sources, depth + 1, dm, ctx);
            let nsz = fmf & FMF_NO_SIGNED_ZEROS != 0;
            let mut k = sqrt_exec(src, if nsz { DenormalMode::dynamic() } else { mode });
            if nsz {
                k.known_not(FC_NEG_ZERO);
            }
            k
        },
        Intrinsic::Exp | Intrinsic::Exp2 | Intrinsic::Exp10 => {
            if args.len() < 1 {
                return KnownFpClass::unknown();
            }
            exp_exec(known_fp_class_at(m, args[0], interested, depth + 1, dm, ctx))
        },
        Intrinsic::Log | Intrinsic::Log2 | Intrinsic::Log10 => {
            if args.len() < 1 || interested & (FC_NAN | FC_INF) == 0 {
                return KnownFpClass::unknown();
            }
            let s0 = if interested & FC_NEG_INF != 0 { interested | FC_ZERO | FC_SUBNORMAL } else { interested };
            let sources = if interested & FC_NAN != 0 { s0 | FC_NAN | FC_NEGATIVE } else { s0 };
            log_exec(known_fp_class_at(m, args[0], sources, depth + 1, dm, ctx), mode)
        },
        _ => KnownFpClass::unknown(),
    }
}

/// The lanes `dm` asks about at `n` wide.
fn demanded_lanes_exec(dm: &Option<Vec<bool>>, n: u32) -> (r: Vec<bool>)
    ensures
        r@ == demanded_lanes(demand_view(*dm), n),
{
    let mut d: Vec<bool> = Vec::new();
    let nn = n as usize;
    let use_given = match dm {
        Some(g) => g.len() == nn,
        None => false,
    };
    for j in 0..nn
        invariant
            nn == n,
            use_given == (demand_view(*dm) matches Some(g) && g.len() == n),
            d@ == demanded_lanes(demand_view(*dm), n).take(j as int),
    {
        let bit = match dm {
            Some(g) => if use_given { g[j] } else { true },
            None => true,
        };
        d.push(bit);
        assert(d@ =~= demanded_lanes(demand_view(*dm), n).take(j + 1));
    }
    assert(d@ =~= demanded_lanes(demand_view(*dm), n));
    d
}

/// `w` lanes, none set.
fn no_lanes_exec(w: u32) -> (r: Vec<bool>)
    ensures
        r@ == no_lanes(w as nat),
{
    let mut r: Vec<bool> = Vec::new();
    for j in 0..w as usize
        invariant
            r@ == no_lanes(j as nat),
    {
        r.push(false);
        assert(r@ =~= no_lanes((j + 1) as nat));
    }
    r
}

/// The lanes of each source a shuffle's asked lanes read.
fn shuffle_demands_exec(mask: &Vec<ShuffleMaskElem>, d: &Vec<bool>, w: u32) -> (r: Option<(Vec<bool>, Vec<bool>)>)
    requires
        w > 0,
    ensures
        match (r, shuffle_demands(mask@, d@, w as nat)) {
            (Some((a, b)), Some((x, y))) => a@ == x && b@ == y,
            (None, None) => true,
            _ => false,
        },
{
    let mut l = no_lanes_exec(w);
    let r0 = no_lanes_exec(w);
    if !any_lane(d) {
        return Some((l, r0));
    }
    let mut all_zero = true;
    let mut i: usize = 0;
    while i < mask.len()
        invariant
            i <= mask@.len(),
            all_zero == forall|j: int| 0 <= j < i ==> mask@[j] == ShuffleMaskElem::Lane(0),
        decreases mask@.len() - i,
    {
        match mask[i] {
            ShuffleMaskElem::Lane(0) => {},
            _ => { all_zero = false; },
        }
        i += 1;
    }
    if all_zero {
        l.set(0, true);
        return Some((l, r0));
    }
    let mut r = r0;
    let mut i: usize = 0;
    while i < mask.len()
        invariant
            w > 0,
            l@.len() == w,
            r@.len() == w,
            i <= mask@.len(),
            shuffle_fold(mask@, d@, w as nat, 0, no_lanes(w as nat), no_lanes(w as nat))
                == shuffle_fold(mask@, d@, w as nat, i as nat, l@, r@),
        decreases mask@.len() - i,
    {
        if i < d.len() && d[i] {
            match mask[i] {
                ShuffleMaskElem::Poison => { return None; },
                ShuffleMaskElem::Lane(k) => {
                    if k < w {
                        l.set(k as usize, true);
                    } else if (k as u64) < 2 * (w as u64) {
                        r.set((k - w) as usize, true);
                    } else {
                        return None;
                    }
                },
            }
        }
        i += 1;
    }
    Some((l, r))
}

/// The scalar a splat shuffle `v` repeats.
fn splat_exec(m: &Module, v: ValueId) -> (r: Option<ValueId>)
    requires
        m.wf(),
        m.valid_value(v),
    ensures
        r == splat_of(*m, v),
        r matches Some(x) ==> m.valid_value(x),
{
    let (ops, mask) = match &m.value(v).kind {
        ValueKind::Instruction { operands, mask, .. } => (operands, mask),
        _ => { return None; },
    };
    proof {
        assert(crate::ir::value_refs_ok(m.values()[v.0 as int], m.types().len(), m.values().len(),
            m.blocks().len(), m.functions().len()));
        assert(ops@ == operands_of(*m, v));
        assert(mask@ == m.values()[v.0 as int].kind->mask@);
    }
    if ops.len() < 2 {
        return None;
    }
    let mut i: usize = 0;
    while i < mask.len()
        invariant
            i <= mask@.len(),
            forall|j: int| 0 <= j < i ==> (mask@[j] == ShuffleMaskElem::Lane(0) || mask@[j] == ShuffleMaskElem::Poison),
            mask@ == m.values()[v.0 as int].kind->mask@,
            ops@ == operands_of(*m, v),
            ops@.len() >= 2,
        decreases mask@.len() - i,
    {
        match mask[i] {
            ShuffleMaskElem::Lane(0) | ShuffleMaskElem::Poison => {},
            _ => {
                assert(!(mask@[i as int] == ShuffleMaskElem::Lane(0) || mask@[i as int] == ShuffleMaskElem::Poison));
                return None;
            },
        }
        i += 1;
    }
    let ins = ops[0];
    match &m.value(ins).kind {
        ValueKind::Instruction { op: Opcode::InsertElement, .. } => {},
        _ => { return None; },
    }
    let iops = match operands_exec(m, ins) { Some(o) => o, None => { return None; } };
    if iops.len() >= 3 && const_all_exec(m, iops[2], false) { Some(iops[1]) } else { None }
}

/// The `shufflevector` arm of `v`.
fn shuffle_at(m: &Module, v: ValueId, interested: u32, depth: u32, dm: &Option<Vec<bool>>, ctx: Option<(ValueId, bool)>)
    -> (k: KnownFpClass)
    requires
        ctx matches Some((c, _)) ==> m.valid_value(c),
        m.wf(),
        m.valid_value(v),
        depth < MAX_DEPTH,
    ensures
        k == shuffle_arm(*m, v, interested, depth as nat, demand_view(*dm), ctx),
    decreases 2 * (MAX_DEPTH - depth), 0nat,
{
    let (ops, mask) = match &m.value(v).kind {
        ValueKind::Instruction { operands, mask, .. } => (operands, mask),
        _ => { return KnownFpClass::unknown(); },
    };
    proof {
        assert(crate::ir::value_refs_ok(m.values()[v.0 as int], m.types().len(), m.values().len(),
            m.blocks().len(), m.functions().len()));
        assert(ops@ == operands_of(*m, v));
    }
    if ops.len() < 2 {
        return KnownFpClass::unknown();
    }
    if let Some(x) = splat_exec(m, v) {
        return known_fp_class_at(m, x, interested, depth + 1, dm, ctx);
    }
    let w = match vector_lanes(m, ops[0]) {
        Some(w) => w,
        None => { return KnownFpClass::unknown(); },
    };
    if mask.len() > u32::MAX as usize || w == 0 {
        return KnownFpClass::unknown();
    }
    let d = demanded_lanes_exec(dm, mask.len() as u32);
    let (dl, dr) = match shuffle_demands_exec(mask, &d, w) {
        Some(p) => p,
        None => { return KnownFpClass::unknown(); },
    };
    let left = any_lane(&dl);
    let kl = if left {
        known_fp_class_at(m, ops[0], interested, depth + 1, &Some(dl), ctx)
    } else {
        KnownFpClass { classes: FpClassTest { bits: 0 }, sign_bit: None }
    };
    if left && kl.classes.bits == FC_ALL && kl.sign_bit.is_none() {
        return kl;
    }
    if any_lane(&dr) {
        let kr = known_fp_class_at(m, ops[1], interested, depth + 1, &Some(dr), ctx);
        kl.union_with(kr)
    } else {
        kl
    }
}

/// The `insertelement` arm of `v`.
fn insert_element_at(m: &Module, v: ValueId, vector: ValueId, elem: ValueId, idx: ValueId, interested: u32, depth: u32,
    dm: &Option<Vec<bool>>, ctx: Option<(ValueId, bool)>) -> (k: KnownFpClass)
    requires
        ctx matches Some((c, _)) ==> m.valid_value(c),
        m.wf(),
        m.valid_value(v),
        m.valid_value(vector),
        m.valid_value(elem),
        m.valid_value(idx),
        depth < MAX_DEPTH,
    ensures
        k == insert_element_arm(*m, v, vector, elem, idx, interested, depth as nat, demand_view(*dm), ctx),
    decreases 2 * (MAX_DEPTH - depth), 0nat,
{
    let n = match vector_lanes(m, v) {
        Some(n) => n,
        None => { return KnownFpClass::unknown(); },
    };
    let mut d: Vec<bool> = Vec::new();
    let nn = n as usize;
    let use_given = match dm {
        Some(g) => g.len() == nn,
        None => false,
    };
    for j in 0..nn
        invariant
            nn == n,
            use_given == (demand_view(*dm) matches Some(g) && g.len() == n),
            d@ == demanded_lanes(demand_view(*dm), n).take(j as int),
    {
        let bit = match dm {
            Some(g) => if use_given { g[j] } else { true },
            None => true,
        };
        d.push(bit);
        assert(d@ =~= demanded_lanes(demand_view(*dm), n).take(j + 1));
    }
    assert(d@ =~= demanded_lanes(demand_view(*dm), n));
    let lane = constant_lane_exec(m, idx, n);
    let ghost d0 = d@;
    let needs = match lane {
        Some(i) => {
            let b = d[i as usize];
            d.set(i as usize, false);
            b
        },
        None => true,
    };
    let ke = known_fp_class_at(m, elem, interested, depth + 1, dm, ctx);
    proof {
        let sl = constant_lane(*m, idx, n);
        let dv = match sl { Some(i) => d0.update(i as int, false), None => d0 };
        assert(d@ == dv);
        assert(needs == (match sl { Some(i) => d0[i as int], None => true }));
    }
    if needs && ke.classes.bits == FC_ALL && ke.sign_bit.is_none() {
        return ke;
    }
    let kk = if needs { ke } else { KnownFpClass { classes: FpClassTest { bits: 0 }, sign_bit: None } };
    if any_lane(&d) {
        let kv = known_fp_class_at(m, vector, interested, depth + 1, &Some(d), ctx);
        kk.union_with(kv)
    } else {
        kk
    }
}

/// `v` is a floating-point constant.
fn float_constant(m: &Module, v: ValueId) -> (r: bool)
    requires
        m.valid_value(v),
    ensures
        r == is_float_constant(*m, v),
{
    match &m.value(v).kind {
        ValueKind::ConstFloat { .. } => true,
        _ => false,
    }
}

/// The `fadd` (`is_add`) / `fsub` arm over the operands `l` and `r`.
fn add_sub_at(m: &Module, v: ValueId, l: ValueId, r: ValueId, is_add: bool, interested: u32, depth: u32, dm: &Option<Vec<bool>>, ctx: Option<(ValueId, bool)>) -> (k: KnownFpClass)
    requires
        ctx matches Some((c, _)) ==> m.valid_value(c),
        m.wf(),
        m.valid_value(v),
        m.valid_value(l),
        m.valid_value(r),
        depth < MAX_DEPTH,
    ensures
        k == add_sub_arm(*m, v, l, r, is_add, interested, depth as nat, demand_view(*dm), ctx),
    decreases 2 * (MAX_DEPTH - depth), 0nat,
{
    let want_negative = is_add && interested & FC_ORDERED_LESS_THAN_ZERO != 0;
    if !want_negative && interested & FC_NAN == 0 && interested & FC_NEG_ZERO == 0 {
        return KnownFpClass::unknown();
    }
    let sources = interested | (if want_negative { FC_ORDERED_LESS_THAN_ZERO } else { 0 })
        | (if interested & FC_NAN != 0 { FC_INF } else { 0 });
    let kr = known_fp_class_at(m, r, sources, depth + 1, dm, ctx);
    let self_add = l == r && float_constant(m, l);
    let kl = if self_add { kr } else { known_fp_class_at(m, l, sources, depth + 1, dm, ctx) };
    add_or_subtract_fp_class(kl, kr, self_add, is_add, FpClassTest { bits: interested }, denormal_mode_of(m, v))
}

/// The `fdiv` (`is_divide`) / `frem` arm over the operands `l` and `r`.
fn div_at(m: &Module, v: ValueId, l: ValueId, r: ValueId, is_divide: bool, interested: u32, depth: u32, dm: &Option<Vec<bool>>, ctx: Option<(ValueId, bool)>) -> (k: KnownFpClass)
    requires
        ctx matches Some((c, _)) ==> m.valid_value(c),
        m.wf(),
        m.valid_value(v),
        m.valid_value(l),
        m.valid_value(r),
        depth < MAX_DEPTH,
    ensures
        k == div_arm(*m, v, l, r, is_divide, interested, depth as nat, demand_view(*dm), ctx),
    decreases 2 * (MAX_DEPTH - depth), 0nat,
{
    if l == r && float_constant(m, l) {
        let src = if interested & FC_NAN != 0 {
            known_fp_class_at(m, l, FC_NAN | FC_INF | FC_ZERO | FC_SUBNORMAL, depth + 1, dm, ctx)
        } else {
            KnownFpClass::unknown()
        };
        let mode = match denormal_mode_of(m, v) {
            Some(md) => md,
            None => DenormalMode::dynamic(),
        };
        return self_divide_or_remainder_fp_class(src, is_divide, FpClassTest { bits: interested }, mode);
    }
    if !(interested & FC_NAN != 0 || interested & FC_NEGATIVE != 0 || (!is_divide && interested & FC_POSITIVE != 0)) {
        return KnownFpClass::unknown();
    }
    let kr = known_fp_class_at(m, r, FC_NAN | FC_INF | FC_ZERO | FC_NEGATIVE, depth + 1, dm, ctx);
    let kl = if kr.is_known_never_nan() || kr.is_known_never(FC_NEGATIVE) || kr.is_known_never(FC_POSITIVE)
        || (!is_divide && interested & FC_POSITIVE != 0)
    {
        known_fp_class_at(m, l, FC_ALL, depth + 1, dm, ctx)
    } else {
        KnownFpClass::unknown()
    };
    divide_or_remainder_fp_class(kl, kr, is_divide, denormal_mode_of(m, v))
}

/// The phi arm of `v` over its incoming values `ops`.
fn phi_fp_class(m: &Module, v: ValueId, ops: &Vec<ValueId>, interested: u32, dm: &Option<Vec<bool>>, ctx: Option<(ValueId, bool)>) -> (k: KnownFpClass)
    requires
        ctx matches Some((c, _)) ==> m.valid_value(c),
        m.wf(),
        forall|j: int| 0 <= j < ops@.len() ==> m.valid_value(#[trigger] ops@[j]),
    ensures
        k == phi_model(*m, v, ops@, interested, 0, None, demand_view(*dm), ctx),
    decreases 2 * (MAX_DEPTH - (MAX_DEPTH - 2)) + 1, 1nat,
{
    let mut acc: Option<KnownFpClass> = None;
    let n = ops.len();
    let mut i: usize = 0;
    while i < n
        invariant
            ctx matches Some((c, _)) ==> m.valid_value(c),
            m.wf(),
            n == ops@.len(),
            i <= n,
            forall|j: int| 0 <= j < ops@.len() ==> m.valid_value(#[trigger] ops@[j]),
            phi_model(*m, v, ops@, interested, 0, None, demand_view(*dm), ctx) == phi_model(*m, v, ops@, interested, i as nat, acc, demand_view(*dm), ctx),
        decreases n - i,
    {
        if ops[i] == v {
            i = i + 1;
            continue;
        }
        let src = known_fp_class_at(m, ops[i], interested, MAX_DEPTH - 2, dm, ctx);
        let next = match acc {
            Some(k) => k.union_with(src),
            None => src,
        };
        if next.classes.bits == FC_ALL {
            return next;
        }
        acc = Some(next);
        i = i + 1;
    }
    match acc {
        Some(k) => k,
        None => KnownFpClass::unknown(),
    }
}

/// Which classes `value` may belong to, for a query interested in the
/// classes `interested`; classes outside them may be left possible.
pub fn compute_known_fp_class(m: &Module, value: ValueId, interested: FpClassTest) -> (r: KnownFpClass)
    requires
        m.wf(),
        m.valid_value(value),
    ensures
        r == known_fp_class_model(*m, value, interested.bits, 0, None, None),
{
    known_fp_class_at(m, value, interested.bits, 0, &None, None)
}

/// Which classes `value` may belong to when the condition `cond` is
/// known to be `cond_true`: what the condition teaches of each value the
/// walk reaches is ruled in as well.
pub fn compute_known_fp_class_under(m: &Module, value: ValueId, interested: FpClassTest, cond: ValueId, cond_true: bool)
    -> (r: KnownFpClass)
    requires
        m.wf(),
        m.valid_value(value),
        m.valid_value(cond),
    ensures
        r == known_fp_class_model(*m, value, interested.bits, 0, None, Some((cond, cond_true))),
{
    known_fp_class_at(m, value, interested.bits, 0, &None, Some((cond, cond_true)))
}

/// What is known of the select arm `arm` once the select's `condition`
/// is taken to hold (or, with `invert`, to fail), on top of `known`.
pub fn adjust_known_fp_class_for_select_arm(m: &Module, known: KnownFpClass, condition: ValueId, arm: ValueId, invert: bool,
    depth: u32) -> (r: KnownFpClass)
    requires
        m.wf(),
        m.valid_value(condition),
        m.valid_value(arm),
        depth < u32::MAX,
    ensures
        r == cond_model(*m, arm, condition, !invert, known, (depth + 1) as nat),
{
    cond_at(m, arm, condition, !invert, known, depth + 1)
}

/// Which classes `value` may belong to, over every class.
pub fn compute_known_fp_class_all(m: &Module, value: ValueId) -> (r: KnownFpClass)
    requires
        m.wf(),
        m.valid_value(value),
    ensures
        r == known_fp_class_model(*m, value, FC_ALL, 0, None, None),
{
    compute_known_fp_class(m, value, FpClassTest { bits: FC_ALL })
}

/// Which classes `value` may belong to at a use carrying the fast-math
/// flags `flags`: `nnan` and `ninf` there rule NaNs and infinities out.
pub fn compute_known_fp_class_with_flags(m: &Module, value: ValueId, flags: FastMathFlags, interested: FpClassTest) -> (r: KnownFpClass)
    requires
        m.wf(),
        m.valid_value(value),
    ensures
        ({
            let nnan = flags.bits & FMF_NO_NANS != 0;
            let ninf = flags.bits & FMF_NO_INFS != 0;
            let a0 = if nnan { interested.bits & !FC_NAN } else { interested.bits };
            let asked = if ninf { a0 & !FC_INF } else { a0 };
            let k0 = known_fp_class_model(*m, value, asked, 0, None, None);
            let k1 = if nnan { known_not_model(k0, FC_NAN) } else { k0 };
            r == (if ninf { known_not_model(k1, FC_INF) } else { k1 })
        }),
{
    let mut interested = interested;
    if flags.bits & FMF_NO_NANS != 0 {
        interested = interested.difference(FpClassTest { bits: FC_NAN });
    }
    if flags.bits & FMF_NO_INFS != 0 {
        interested = interested.difference(FpClassTest { bits: FC_INF });
    }
    let mut known = compute_known_fp_class(m, value, interested);
    if flags.bits & FMF_NO_NANS != 0 {
        known.known_not(FC_NAN);
    }
    if flags.bits & FMF_NO_INFS != 0 {
        known.known_not(FC_INF);
    }
    known
}

/// `value` is never a NaN.
pub fn is_known_never_nan(m: &Module, value: ValueId) -> (r: bool)
    requires
        m.wf(),
        m.valid_value(value),
    ensures
        r == (known_fp_class_model(*m, value, FC_NAN, 0, None, None).classes.bits & FC_NAN == 0),
{
    compute_known_fp_class(m, value, FpClassTest { bits: FC_NAN }).is_known_never_nan()
}

/// `value` is never an infinity.
pub fn is_known_never_infinity(m: &Module, value: ValueId) -> (r: bool)
    requires
        m.wf(),
        m.valid_value(value),
    ensures
        r == (known_fp_class_model(*m, value, FC_INF, 0, None, None).classes.bits & FC_INF == 0),
{
    compute_known_fp_class(m, value, FpClassTest { bits: FC_INF }).is_known_never_infinity()
}

/// `value` is neither an infinity nor a NaN.
pub fn is_known_never_infinity_or_nan(m: &Module, value: ValueId) -> (r: bool)
    requires
        m.wf(),
        m.valid_value(value),
    ensures
        r == (known_fp_class_model(*m, value, FC_INF | FC_NAN, 0, None, None).classes.bits & FC_NAN == 0
            && known_fp_class_model(*m, value, FC_INF | FC_NAN, 0, None, None).classes.bits & FC_INF == 0),
{
    let known = compute_known_fp_class(m, value, FpClassTest { bits: FC_INF | FC_NAN });
    known.is_known_never_nan() && known.is_known_never_infinity()
}

/// `value` is never `-0.0`.
pub fn cannot_be_negative_zero(m: &Module, value: ValueId) -> (r: bool)
    requires
        m.wf(),
        m.valid_value(value),
    ensures
        r == (known_fp_class_model(*m, value, FC_NEG_ZERO, 0, None, None).classes.bits & FC_NEG_ZERO == 0),
{
    compute_known_fp_class(m, value, FpClassTest { bits: FC_NEG_ZERO }).is_known_never(FC_NEG_ZERO)
}

/// `value` is a NaN or never below `-0.0`.
pub fn cannot_be_ordered_less_than_zero(m: &Module, value: ValueId) -> (r: bool)
    requires
        m.wf(),
        m.valid_value(value),
    ensures
        r == (known_fp_class_model(*m, value, FC_ORDERED_LESS_THAN_ZERO, 0, None, None).classes.bits & FC_ORDERED_LESS_THAN_ZERO == 0),
{
    compute_known_fp_class(m, value, FpClassTest { bits: FC_ORDERED_LESS_THAN_ZERO }).cannot_be_ordered_less_than_zero()
}

/// The sign bit of `value`, when it is known.
pub fn compute_known_fp_sign_bit(m: &Module, value: ValueId) -> (r: Option<bool>)
    requires
        m.wf(),
        m.valid_value(value),
    ensures
        r == known_fp_class_model(*m, value, FC_ALL, 0, None, None).sign_bit,
{
    compute_known_fp_class(m, value, FpClassTest { bits: FC_ALL }).sign_bit
}

} // verus!

verus! {

/// Ruling classes out never makes a class possible again.
pub proof fn law_known_not_only_removes(k: KnownFpClass, mask: u32)
    ensures
        known_not_model(k, mask).classes.bits & !k.classes.bits == 0,
        known_not_model(k, mask).classes.bits & mask == 0,
{
    let c = k.classes.bits;
    assert((c & !mask) & !c == 0 && (c & !mask) & mask == 0) by (bit_vector);
}

/// An instruction carrying `nnan` is known never to be a NaN, and one
/// carrying `ninf` never to be an infinity, whatever its operands are.
pub proof fn law_flags_rule_out(m: Module, v: ValueId, interested: u32, depth: nat)
    requires
        m.values()[v.0 as int].kind is Instruction,
        constant_class_model(m, v) is None,
    ensures
        m.values()[v.0 as int].kind->flags.fmf.bits & FMF_NO_NANS != 0
            ==> known_fp_class_model(m, v, interested, depth, None, None).classes.bits & FC_NAN == 0,
        m.values()[v.0 as int].kind->flags.fmf.bits & FMF_NO_INFS != 0
            ==> known_fp_class_model(m, v, interested, depth, None, None).classes.bits & FC_INF == 0,
{
    let flags = m.values()[v.0 as int].kind->flags;
    let out = flags_rule_out(flags);
    let b = flags.fmf.bits;
    assert(b & FMF_NO_NANS != 0 ==> out & FC_NAN == FC_NAN) by (bit_vector)
        requires
            out == (if b & 2u8 != 0 { 3u32 } else { 0u32 }) | (if b & 4u8 != 0 { 0x204u32 } else { 0u32 });
    assert(b & FMF_NO_INFS != 0 ==> out & FC_INF == FC_INF) by (bit_vector)
        requires
            out == (if b & 2u8 != 0 { 3u32 } else { 0u32 }) | (if b & 4u8 != 0 { 0x204u32 } else { 0u32 });
    let k = known_fp_class_model(m, v, interested, depth, None, None);
    let inner = if depth >= MAX_DEPTH { unknown_class() } else {
        dispatch_model(m, v, m.values()[v.0 as int].kind->op, interested & !out, depth, None, None)
    };
    assert(k == known_not_model(inner, out));
    let c = inner.classes.bits;
    assert((c & !out) & (out & 3u32) == 0 && (c & !out) & (out & 0x204u32) == 0) by (bit_vector);
}

/// A floating-point constant of a format that 64 bits hold is known
/// exactly: its one class and its sign.
pub proof fn law_constant_is_exact(m: Module, v: ValueId, bits: u64, kind: FloatKind, interested: u32, depth: nat)
    requires
        m.values()[v.0 as int].kind == (ValueKind::ConstFloat { bits }),
        m.shape_of(v) == (TypeData::Float { kind }),
        float_format(kind) is Some,
    ensures
        ({
            let (e, p) = float_format(kind).unwrap();
            known_fp_class_model(m, v, interested, depth, None, None) == (KnownFpClass {
                classes: FpClassTest { bits: pattern_class(bits, e, p).0 },
                sign_bit: Some(pattern_class(bits, e, p).1),
            })
        }),
{
}

/// What is known of a `select` without fast-math flags allows every
/// class that either arm allows once its condition is taken to hold (for
/// the first arm) or to fail (for the second).
pub proof fn law_select_covers_both_arms(m: Module, v: ValueId, interested: u32, depth: nat)
    requires
        m.values()[v.0 as int].kind is Instruction,
        m.values()[v.0 as int].kind->op == Opcode::Select,
        m.values()[v.0 as int].kind->flags.fmf.bits == 0,
        operands_of(m, v).len() >= 3,
        depth < MAX_DEPTH,
    ensures
        ({
            let ops = operands_of(m, v);
            let k = known_fp_class_model(m, v, interested, depth, None, None);
            let kt = cond_model(m, ops[1], ops[0], true, known_fp_class_model(m, ops[1], interested, depth + 1, None, None), depth + 1);
            let kf = cond_model(m, ops[2], ops[0], false, known_fp_class_model(m, ops[2], interested, depth + 1, None, None), depth + 1);
            &&& kt.classes.bits & !k.classes.bits == 0
            &&& kf.classes.bits & !k.classes.bits == 0
        }),
{
    let flags = m.values()[v.0 as int].kind->flags;
    assert(flags_rule_out(flags) == 0) by {
        let b = flags.fmf.bits;
        assert(b == 0u8 ==> (if b & 2u8 != 0 { 3u32 } else { 0u32 }) | (if b & 4u8 != 0 { 0x204u32 } else { 0u32 }) == 0u32) by (bit_vector);
    }
    let ops = operands_of(m, v);
    assert(interested & !0u32 == interested) by (bit_vector);
    let kt = cond_model(m, ops[1], ops[0], true, known_fp_class_model(m, ops[1], interested, depth + 1, None, None), depth + 1);
    let kf = cond_model(m, ops[2], ops[0], false, known_fp_class_model(m, ops[2], interested, depth + 1, None, None), depth + 1);
    let u = union_model(kt, kf);
    let k = known_not_model(u, 0);
    assert(k.classes.bits == (kt.classes.bits | kf.classes.bits) & !0u32);
    let a = kt.classes.bits;
    let b = kf.classes.bits;
    assert(a & !((a | b) & !0u32) == 0 && b & !((a | b) & !0u32) == 0) by (bit_vector);
}

} // verus!

verus! {

/// The user `user` of an operand treats `+0` and `-0` alike: it carries
/// `nsz`, converts to an integer, or is an `fcmp`.
pub open spec fn ignores_zero_sign(m: Module, user: ValueId) -> bool {
    match m.values()[user.0 as int].kind {
        ValueKind::Instruction { op, flags, .. } => flags.fmf.bits & FMF_NO_SIGNED_ZEROS != 0 || match op {
            Opcode::Cast(CastOpcode::FPToSI) | Opcode::Cast(CastOpcode::FPToUI) | Opcode::FCmp(_) => true,
            _ => false,
        },
        _ => false,
    }
}

/// The user `user` of an operand ignores the sign of a NaN: it carries
/// `nnan`, converts to an integer or between float formats, or is proper
/// floating-point arithmetic or an `fcmp`.
pub open spec fn ignores_nan_sign(m: Module, user: ValueId) -> bool {
    match m.values()[user.0 as int].kind {
        ValueKind::Instruction { op, flags, .. } => flags.fmf.bits & FMF_NO_NANS != 0 || match op {
            Opcode::Cast(CastOpcode::FPToSI) | Opcode::Cast(CastOpcode::FPToUI) | Opcode::Cast(CastOpcode::FPTrunc)
            | Opcode::Cast(CastOpcode::FPExt) | Opcode::FCmp(_) => true,
            Opcode::Binary(BinaryOpcode::FAdd) | Opcode::Binary(BinaryOpcode::FSub) | Opcode::Binary(BinaryOpcode::FMul)
            | Opcode::Binary(BinaryOpcode::FDiv) | Opcode::Binary(BinaryOpcode::FRem) => true,
            _ => false,
        },
        _ => false,
    }
}

/// Whether the user `user`, reading an operand at `operand_index`, is
/// indifferent to the sign of a zero there. Calls are never taken to be.
pub fn can_ignore_sign_bit_of_zero(m: &Module, user: ValueId, operand_index: u32) -> (r: bool)
    requires
        m.valid_value(user),
    ensures
        r == ignores_zero_sign(*m, user),
{
    match &m.value(user).kind {
        ValueKind::Instruction { op, flags, .. } => {
            if flags.fmf.bits & FMF_NO_SIGNED_ZEROS != 0 {
                return true;
            }
            match op {
                Opcode::Cast(CastOpcode::FPToSI) | Opcode::Cast(CastOpcode::FPToUI) | Opcode::FCmp(_) => true,
                _ => false,
            }
        },
        _ => false,
    }
}

/// Whether the user `user`, reading an operand at `operand_index`, is
/// indifferent to the sign of a NaN there. Calls are never taken to be.
pub fn can_ignore_sign_bit_of_nan(m: &Module, user: ValueId, operand_index: u32) -> (r: bool)
    requires
        m.valid_value(user),
    ensures
        r == ignores_nan_sign(*m, user),
{
    match &m.value(user).kind {
        ValueKind::Instruction { op, flags, .. } => {
            if flags.fmf.bits & FMF_NO_NANS != 0 {
                return true;
            }
            match op {
                Opcode::Cast(CastOpcode::FPToSI) | Opcode::Cast(CastOpcode::FPToUI) | Opcode::Cast(CastOpcode::FPTrunc)
                | Opcode::Cast(CastOpcode::FPExt) | Opcode::FCmp(_) => true,
                Opcode::Binary(BinaryOpcode::FAdd) | Opcode::Binary(BinaryOpcode::FSub) | Opcode::Binary(BinaryOpcode::FMul)
                | Opcode::Binary(BinaryOpcode::FDiv) | Opcode::Binary(BinaryOpcode::FRem) => true,
                _ => false,
            }
        },
        _ => false,
    }
}

} // verus!

verus! {

/// Under a condition context, a value that is no constant belongs only to
/// classes the condition allows for it.
pub proof fn law_context_rules_out(m: Module, v: ValueId, interested: u32, depth: nat, dm: Option<Seq<bool>>, c: ValueId,
    holds: bool)
    requires
        constant_class_model(m, v) is None,
    ensures
        known_fp_class_model(m, v, interested, depth, dm, Some((c, holds))).classes.bits
            & !context_model(m, v, Some((c, holds))).classes.bits & FC_ALL == 0,
{
    let ctx = Some((c, holds));
    let a = context_model(m, v, ctx).classes.bits;
    let r = known_fp_class_model(m, v, interested, depth, dm, ctx);
    let (inner, f) = match m.values()[v.0 as int].kind {
        ValueKind::Instruction { op, flags, .. } => {
            let out = flags_rule_out(flags) | context_rule_out(m, v, ctx);
            (if depth >= MAX_DEPTH { unknown_class() } else { dispatch_model(m, v, op, interested & !out, depth, dm, ctx) },
                flags_rule_out(flags))
        },
        _ => (unknown_class(), 0u32),
    };
    let out = f | (!a & FC_ALL);
    let kn = known_not_model(inner, out);
    assert(r == finish_model(m, v, kn, ctx)) by {
        if !(m.values()[v.0 as int].kind is Instruction) {
            assert(0u32 | (!a & FC_ALL) == !a & FC_ALL) by (bit_vector);
        }
    }
    let cb = inner.classes.bits;
    assert((cb & !(f | (!a & 0x3ffu32))) & !a & 0x3ffu32 == 0) by (bit_vector);
    assert(((cb & !(f | (!a & 0x3ffu32))) & (0x3cu32 | 3u32)) & !a & 0x3ffu32 == 0) by (bit_vector);
    assert(((cb & !(f | (!a & 0x3ffu32))) & (0x3c0u32 | 3u32)) & !a & 0x3ffu32 == 0) by (bit_vector);
}

} // verus!
