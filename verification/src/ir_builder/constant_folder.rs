//! Default folder: folds operations whose operands are integer constants.
//!
//! Results that would be poison (a shift by at least the width, a division
//! by zero, the signed division of the minimum by minus one) and
//! operations carrying `exact` or no-wrap flags are not folded: the builder
//! then emits the instruction.

use vstd::prelude::*;
use crate::ap_int::{
    ApInt, seq_add, seq_sub, seq_mul, seq_shl, seq_lshr, seq_ashr, seq_udiv, seq_sdiv, seq_resize, seq_sext,
};
use crate::bitseq::{nat_of, int_of, seq_and, seq_or, seq_xor, range_mask, all_true};
use crate::error::{IrError, IrResult};
use crate::ir::{
    Module, ValueId, TypeId, TypeData, ValueKind, BinaryOpcode, CastOpcode, IntPredicate, FastMathFlags,
    UnaryOpcode, const_bits,
};
use crate::ir_builder::folder::{Folded, IRBuilderFolder, CmpPredicate, OverflowFlags};

verus! {

/// Folds integer arithmetic, comparisons, casts and selects on constant
/// operands and declines everything else.
#[derive(Debug, Clone, Copy)]
pub struct ConstantFolder;

/// The bits of `op a, b` when it is folded, `None` when it is not.
pub open spec fn int_binop_model(op: BinaryOpcode, a: Seq<bool>, b: Seq<bool>) -> Option<Seq<bool>> {
    if a.len() != b.len() {
        None
    } else {
        match op {
            BinaryOpcode::Add => Some(seq_add(a, b)),
            BinaryOpcode::Sub => Some(seq_sub(a, b)),
            BinaryOpcode::Mul => Some(seq_mul(a, b)),
            BinaryOpcode::And => Some(seq_and(a, b)),
            BinaryOpcode::Or => Some(seq_or(a, b)),
            BinaryOpcode::Xor => Some(seq_xor(a, b)),
            BinaryOpcode::Shl => if nat_of(b) < a.len() { Some(seq_shl(a, nat_of(b))) } else { None },
            BinaryOpcode::LShr => if nat_of(b) < a.len() { Some(seq_lshr(a, nat_of(b))) } else { None },
            BinaryOpcode::AShr => if nat_of(b) < a.len() { Some(seq_ashr(a, nat_of(b))) } else { None },
            BinaryOpcode::UDiv => if nat_of(b) == 0 { None } else { Some(seq_udiv(a, b)) },
            BinaryOpcode::SDiv => if nat_of(b) == 0 || (a.len() > 0 && a == range_mask(a.len(), a.len() - 1, a.len() as int) && all_true(b)) {
                None
            } else {
                Some(seq_sdiv(a, b))
            },
            _ => None,
        }
    }
}

/// Whether the integer predicate holds of `a` and `b`.
pub open spec fn int_predicate_holds(pred: IntPredicate, a: Seq<bool>, b: Seq<bool>) -> bool {
    match pred {
        IntPredicate::Eq => a == b,
        IntPredicate::Ne => a != b,
        IntPredicate::Ugt => nat_of(a) > nat_of(b),
        IntPredicate::Uge => nat_of(a) >= nat_of(b),
        IntPredicate::Ult => nat_of(a) < nat_of(b),
        IntPredicate::Ule => nat_of(a) <= nat_of(b),
        IntPredicate::Sgt => int_of(a) > int_of(b),
        IntPredicate::Sge => int_of(a) >= int_of(b),
        IntPredicate::Slt => int_of(a) < int_of(b),
        IntPredicate::Sle => int_of(a) <= int_of(b),
    }
}

/// The bits of the integer cast `op a` to width `w`, `None` when it is not
/// an integer cast in the right direction.
pub open spec fn int_cast_model(op: CastOpcode, a: Seq<bool>, w: nat) -> Option<Seq<bool>> {
    match op {
        CastOpcode::Trunc => if w <= a.len() { Some(a.take(w as int)) } else { None },
        CastOpcode::ZExt => if w >= a.len() { Some(seq_resize(a, w)) } else { None },
        CastOpcode::SExt => if w >= a.len() { Some(seq_sext(a, w)) } else { None },
        _ => None,
    }
}

/// What the folder answers for `op lhs, rhs` on module `m`.
pub open spec fn const_binop_model(m: Module, op: BinaryOpcode, lhs: ValueId, rhs: ValueId) -> Option<Seq<bool>> {
    match (const_bits(m, lhs), const_bits(m, rhs)) {
        (Some(a), Some(b)) => if m.ty_of(lhs) == m.ty_of(rhs) { int_binop_model(op, a, b) } else { None },
        _ => None,
    }
}

/// What the folder answers for the integer comparison `pred lhs, rhs`.
pub open spec fn const_compare_model(m: Module, pred: IntPredicate, lhs: ValueId, rhs: ValueId) -> Option<Seq<bool>> {
    match (const_bits(m, lhs), const_bits(m, rhs)) {
        (Some(a), Some(b)) => if m.ty_of(lhs) == m.ty_of(rhs) && a.len() == b.len() {
            Some(seq![int_predicate_holds(pred, a, b)])
        } else {
            None
        },
        _ => None,
    }
}

/// What the folder answers for the cast `op value` to `dest_ty`.
pub open spec fn const_cast_model(m: Module, op: CastOpcode, value: ValueId, dest_ty: TypeId) -> Option<Seq<bool>> {
    match (const_bits(m, value), m.types()[dest_ty.0 as int]) {
        (Some(a), TypeData::Integer { bits }) => int_cast_model(op, a, bits as nat),
        _ => None,
    }
}

/// `v` is a constant: neither an instruction nor an argument.
pub open spec fn is_constant(m: Module, v: ValueId) -> bool {
    !(m.values()[v.0 as int].kind is Instruction) && !(m.values()[v.0 as int].kind is Argument)
}

/// The arm a select of the constant arms `t` and `f` takes when its
/// condition is a one-bit integer constant (`true` for the first).
pub open spec fn select_pick(m: Module, cond: ValueId, t: ValueId, f: ValueId) -> Option<bool> {
    if !is_constant(m, t) || !is_constant(m, f) {
        None
    } else {
        match const_bits(m, cond) {
            Some(c) => if c.len() == 1 { Some(c[0]) } else { None },
            None => None,
        }
    }
}

/// The answer `r` folds to the integer constant with bits `model`, or
/// declines when `model` is `None`.
pub open spec fn answers_int(r: IrResult<Option<Folded>>, model: Option<Seq<bool>>) -> bool {
    &&& r is Ok
    &&& (r->Ok_0 is Some <==> model is Some)
    &&& (model matches Some(bits) ==> r->Ok_0->Some_0 is Int && r->Ok_0->Some_0->Int_0@ == bits)
}

/// The integer constant `v`, if it is one.
fn const_value(m: &Module, v: ValueId) -> (r: Option<&ApInt>)
    requires
        m.valid_value(v),
    ensures
        r matches Some(a) ==> const_bits(*m, v) == Some(a@),
        r is None ==> const_bits(*m, v) is None,
{
    match &m.value(v).kind {
        ValueKind::ConstInt { value } => Some(value),
        _ => None,
    }
}

/// `v` is a constant.
fn constant_value(m: &Module, v: ValueId) -> (r: bool)
    requires
        m.valid_value(v),
    ensures
        r == is_constant(*m, v),
{
    match &m.value(v).kind {
        ValueKind::Instruction { .. } | ValueKind::Argument { .. } => false,
        _ => true,
    }
}

/// `op a, b` on two constants of one width.
fn fold_int_binop(op: BinaryOpcode, a: &ApInt, b: &ApInt) -> (r: Option<ApInt>)
    ensures
        r is Some <==> int_binop_model(op, a@, b@) is Some,
        r matches Some(c) ==> int_binop_model(op, a@, b@) == Some(c@),
{
    let w = a.bit_width();
    if w != b.bit_width() {
        return None;
    }
    match op {
        BinaryOpcode::Add => Some(a.wrapping_add(b)),
        BinaryOpcode::Sub => Some(a.wrapping_sub(b)),
        BinaryOpcode::Mul => Some(a.wrapping_mul(b)),
        BinaryOpcode::And => Some(a.bitand(b)),
        BinaryOpcode::Or => Some(a.bitor(b)),
        BinaryOpcode::Xor => Some(a.bitxor(b)),
        BinaryOpcode::Shl | BinaryOpcode::LShr | BinaryOpcode::AShr => {
            let amount = b.limited_value(w as u64);
            if amount >= w as u64 {
                return None;
            }
            let n = amount as u32;
            match op {
                BinaryOpcode::Shl => Some(a.shl(n)),
                BinaryOpcode::LShr => Some(a.lshr(n)),
                _ => Some(a.ashr(n)),
            }
        },
        BinaryOpcode::UDiv => a.checked_udiv(b),
        BinaryOpcode::SDiv => a.checked_sdiv(b),
        _ => None,
    }
}

/// Whether `pred a, b` holds, for two constants of one width.
fn predicate_holds(pred: IntPredicate, a: &ApInt, b: &ApInt) -> (r: bool)
    requires
        a@.len() == b@.len(),
    ensures
        r == int_predicate_holds(pred, a@, b@),
{
    match pred {
        IntPredicate::Eq => a.eq_ap_int(b),
        IntPredicate::Ne => !a.eq_ap_int(b),
        IntPredicate::Ugt => a.ugt(b),
        IntPredicate::Uge => a.uge(b),
        IntPredicate::Ult => a.ult(b),
        IntPredicate::Ule => a.ule(b),
        IntPredicate::Sgt => a.sgt(b),
        IntPredicate::Sge => a.sge(b),
        IntPredicate::Slt => a.slt(b),
        IntPredicate::Sle => a.sle(b),
    }
}

impl ConstantFolder {
    /// Folds `op lhs, rhs` when both are integer constants of one type.
    pub fn fold_binary(&self, m: &Module, op: BinaryOpcode, lhs: ValueId, rhs: ValueId) -> (r: IrResult<Option<Folded>>)
        requires
            m.wf(),
            m.valid_value(lhs),
            m.valid_value(rhs),
        ensures
            answers_int(r, const_binop_model(*m, op, lhs, rhs)),
    {
        let a = match const_value(m, lhs) {
            Some(a) => a,
            None => { return Ok(None); },
        };
        let b = match const_value(m, rhs) {
            Some(b) => b,
            None => { return Ok(None); },
        };
        if m.value_type(lhs) != m.value_type(rhs) {
            return Ok(None);
        }
        match fold_int_binop(op, a, b) {
            Some(c) => Ok(Some(Folded::Int(c))),
            None => Ok(None),
        }
    }

    /// Folds the integer comparison `pred lhs, rhs` of two constants.
    pub fn fold_compare(&self, m: &Module, pred: IntPredicate, lhs: ValueId, rhs: ValueId) -> (r: IrResult<Option<Folded>>)
        requires
            m.wf(),
            m.valid_value(lhs),
            m.valid_value(rhs),
        ensures
            answers_int(r, const_compare_model(*m, pred, lhs, rhs)),
    {
        let a = match const_value(m, lhs) {
            Some(a) => a,
            None => { return Ok(None); },
        };
        let b = match const_value(m, rhs) {
            Some(b) => b,
            None => { return Ok(None); },
        };
        if m.value_type(lhs) != m.value_type(rhs) || a.bit_width() != b.bit_width() {
            return Ok(None);
        }
        let holds = predicate_holds(pred, a, b);
        let c = if holds { ApInt::all_ones(1) } else { ApInt::zero(1) };
        assert(c@ =~= seq![holds]);
        Ok(Some(Folded::Int(c)))
    }

    /// Folds `trunc`, `zext` and `sext` of an integer constant.
    pub fn fold_int_cast(&self, m: &Module, op: CastOpcode, value: ValueId, dest_ty: TypeId) -> (r: IrResult<Option<Folded>>)
        requires
            m.wf(),
            m.valid_value(value),
            m.valid_type(dest_ty),
        ensures
            answers_int(r, const_cast_model(*m, op, value, dest_ty)),
    {
        let a = match const_value(m, value) {
            Some(a) => a,
            None => { return Ok(None); },
        };
        let w = match m.type_data(dest_ty) {
            TypeData::Integer { bits } => bits,
            _ => { return Ok(None); },
        };
        let c = match op {
            CastOpcode::Trunc => a.trunc(w),
            CastOpcode::ZExt => a.zext(w),
            CastOpcode::SExt => a.sext(w),
            _ => None,
        };
        match c {
            Some(c) => Ok(Some(Folded::Int(c))),
            None => Ok(None),
        }
    }

    /// Folds a select of two constants whose condition is a one-bit
    /// constant to the arm it picks.
    pub fn fold_select(&self, m: &Module, cond: ValueId, true_value: ValueId, false_value: ValueId) -> (r: IrResult<Option<Folded>>)
        requires
            m.wf(),
            m.valid_value(cond),
            m.valid_value(true_value),
            m.valid_value(false_value),
        ensures
            r is Ok,
            select_pick(*m, cond, true_value, false_value) matches Some(c) ==> r == Ok::<Option<Folded>, crate::error::IrError>(
                Some(Folded::Value(if c { true_value } else { false_value }))),
            select_pick(*m, cond, true_value, false_value) is None ==> r == Ok::<Option<Folded>, crate::error::IrError>(None),
    {
        if !constant_value(m, true_value) || !constant_value(m, false_value) {
            return Ok(None);
        }
        let c = match const_value(m, cond) {
            Some(c) => c,
            None => { return Ok(None); },
        };
        if c.bit_width() != 1 {
            return Ok(None);
        }
        if c.bit(0) {
            Ok(Some(Folded::Value(true_value)))
        } else {
            Ok(Some(Folded::Value(false_value)))
        }
    }
}

impl IRBuilderFolder for ConstantFolder {
    fn fold_bin_op_dyn(&self, m: &Module, opcode: BinaryOpcode, lhs: ValueId, rhs: ValueId) -> (r: IrResult<Option<Folded>>)
        ensures
            answers_int(r, const_binop_model(*m, opcode, lhs, rhs)),
    {
        self.fold_binary(m, opcode, lhs, rhs)
    }

    fn fold_no_wrap_bin_op_dyn(&self, m: &Module, opcode: BinaryOpcode, lhs: ValueId, rhs: ValueId, flags: OverflowFlags) -> (r: IrResult<Option<Folded>>)
        ensures
            answers_int(r, const_binop_model(*m, opcode, lhs, rhs)),
    {
        self.fold_binary(m, opcode, lhs, rhs)
    }

    fn fold_exact_bin_op_dyn(&self, m: &Module, opcode: BinaryOpcode, lhs: ValueId, rhs: ValueId) -> (r: IrResult<Option<Folded>>)
        ensures
            answers_int(r, const_binop_model(*m, opcode, lhs, rhs)),
    {
        self.fold_binary(m, opcode, lhs, rhs)
    }

    fn fold_bin_op_fmf_dyn(&self, m: &Module, opcode: BinaryOpcode, lhs: ValueId, rhs: ValueId, fmf: FastMathFlags) -> (r: IrResult<Option<Folded>>)
        ensures
            answers_int(r, const_binop_model(*m, opcode, lhs, rhs)),
    {
        self.fold_binary(m, opcode, lhs, rhs)
    }

    fn fold_un_op_fmf_dyn(&self, m: &Module, opcode: UnaryOpcode, value: ValueId, fmf: FastMathFlags) -> (r: IrResult<Option<Folded>>)
        ensures
            r == Ok::<Option<Folded>, IrError>(None),
    {
        Ok(None)
    }

    fn fold_cmp_dyn(&self, m: &Module, predicate: CmpPredicate, lhs: ValueId, rhs: ValueId) -> (r: IrResult<Option<Folded>>)
        ensures
            answers_int(r, match predicate {
                CmpPredicate::Int(p) => const_compare_model(*m, p, lhs, rhs),
                CmpPredicate::Float(_) => None,
            }),
    {
        match predicate {
            CmpPredicate::Int(p) => self.fold_compare(m, p, lhs, rhs),
            CmpPredicate::Float(_) => Ok(None),
        }
    }

    fn fold_select_dyn(&self, m: &Module, cond: ValueId, true_value: ValueId, false_value: ValueId) -> (r: IrResult<Option<Folded>>)
        ensures
            select_pick(*m, cond, true_value, false_value) matches Some(c) ==> r == Ok::<Option<Folded>, IrError>(
                Some(Folded::Value(if c { true_value } else { false_value }))),
            select_pick(*m, cond, true_value, false_value) is None ==> r == Ok::<Option<Folded>, IrError>(None),
    {
        self.fold_select(m, cond, true_value, false_value)
    }

    fn fold_cast_dyn(&self, m: &Module, opcode: CastOpcode, value: ValueId, dest_ty: TypeId) -> (r: IrResult<Option<Folded>>)
        ensures
            answers_int(r, const_cast_model(*m, opcode, value, dest_ty)),
    {
        self.fold_int_cast(m, opcode, value, dest_ty)
    }
}

} // verus!
