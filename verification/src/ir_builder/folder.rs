//! Folding strategy consulted by the IR builder before it emits an
//! instruction.
//!
//! Every hook answers `Ok(None)` to decline, `Ok(Some(_))` with the folded
//! result, or `Err(_)` to reject the operation. The builder checks every
//! folded result against the type the instruction would have had, so a
//! folder can never make the builder hand back a value of the wrong type.

use vstd::prelude::*;
use crate::ap_int::ApInt;
use crate::error::{IrError, IrResult, TypeKindLabel};
use crate::ir::{
    Module, ValueId, TypeId, TypeData, BinaryOpcode, UnaryOpcode, CastOpcode, IntPredicate,
    FloatPredicate, FastMathFlags, ShuffleMaskElem, GepNoWrapFlags, kind_label_of, type_mismatch,
};

verus! {

/// Answer of a folder: a value that already exists, or an integer
/// constant (of the expected integer type) to add to the module.
pub enum Folded {
    Value(ValueId),
    Int(ApInt),
}

/// A comparison predicate of either family.
#[derive(Debug, Clone, Copy, PartialEq, Eq, Structural)]
pub enum CmpPredicate {
    Int(IntPredicate),
    Float(FloatPredicate),
}

/// No-wrap flags of `add`, `sub`, `mul` and `shl`.
#[derive(Debug, Clone, Copy, PartialEq, Eq, Structural)]
pub struct OverflowFlags {
    pub nuw: bool,
    pub nsw: bool,
}

/// Why a folded result cannot stand where a value of type `expected` is
/// required, or `None` when it can.
pub open spec fn folded_error(m: Module, f: Folded, expected: TypeId) -> Option<IrError> {
    match f {
        Folded::Value(v) => if !m.valid_value(v) {
            Some(IrError::ForeignValueId)
        } else if m.ty_of(v) == expected {
            None
        } else {
            Some(type_mismatch(m.types(), expected, m.ty_of(v)))
        },
        Folded::Int(a) => match m.types()[expected.0 as int] {
            TypeData::Integer { bits } => if bits == a@.len() {
                None
            } else {
                Some(IrError::OperandWidthMismatch { lhs: bits, rhs: a@.len() as u32 })
            },
            t => Some(IrError::TypeMismatch { expected: kind_label_of(t), got: TypeKindLabel::Integer }),
        },
    }
}

/// Why a folded comparison result is not a one-bit integer, or `None`.
pub open spec fn folded_bool_error(m: Module, f: Folded) -> Option<IrError> {
    match f {
        Folded::Value(v) => if !m.valid_value(v) {
            Some(IrError::ForeignValueId)
        } else {
            match m.shape_of(v) {
                TypeData::Integer { bits } => if bits == 1 {
                    None
                } else {
                    Some(IrError::OperandWidthMismatch { lhs: 1, rhs: bits })
                },
                t => Some(IrError::TypeMismatch { expected: TypeKindLabel::Integer, got: kind_label_of(t) }),
            }
        },
        Folded::Int(a) => if a@.len() == 1 {
            None
        } else {
            Some(IrError::OperandWidthMismatch { lhs: 1, rhs: a@.len() as u32 })
        },
    }
}

/// The answer kept by a narrowing step: an error is passed on, no fold
/// stays no fold, and a fold stands only when it fits.
pub open spec fn narrowed(m: Module, folded: IrResult<Option<Folded>>, error_of: spec_fn(Folded) -> Option<IrError>, r: IrResult<Option<Folded>>) -> bool {
    match folded {
        Err(e) => r == Err::<Option<Folded>, IrError>(e),
        Ok(None) => r == Ok::<Option<Folded>, IrError>(None),
        Ok(Some(f)) => match error_of(f) {
            Some(e) => r == Err::<Option<Folded>, IrError>(e),
            None => r == Ok::<Option<Folded>, IrError>(Some(f)),
        },
    }
}

/// Checks a folded result against the required type `expected`.
pub fn check_folded(m: &Module, f: &Folded, expected: TypeId) -> (r: Option<IrError>)
    requires
        m.wf(),
        m.valid_type(expected),
    ensures
        r == folded_error(*m, *f, expected),
{
    match f {
        Folded::Value(v) => {
            if v.0 >= m.value_count() {
                return Some(IrError::ForeignValueId);
            }
            let t = m.value_type(*v);
            match m.require_match(expected, t) {
                Ok(()) => None,
                Err(e) => Some(e),
            }
        },
        Folded::Int(a) => {
            match m.type_data(expected) {
                TypeData::Integer { bits } => {
                    let w = a.bit_width();
                    if bits == w {
                        None
                    } else {
                        Some(IrError::OperandWidthMismatch { lhs: bits, rhs: w })
                    }
                },
                _ => Some(IrError::TypeMismatch { expected: m.kind_label(expected), got: TypeKindLabel::Integer }),
            }
        },
    }
}

/// Checks that a folded comparison result is a one-bit integer.
pub fn check_folded_bool(m: &Module, f: &Folded) -> (r: Option<IrError>)
    requires
        m.wf(),
    ensures
        r == folded_bool_error(*m, *f),
{
    match f {
        Folded::Value(v) => {
            if v.0 >= m.value_count() {
                return Some(IrError::ForeignValueId);
            }
            let t = m.value_type(*v);
            match m.type_data(t) {
                TypeData::Integer { bits } => if bits == 1 {
                    None
                } else {
                    Some(IrError::OperandWidthMismatch { lhs: 1, rhs: bits })
                },
                _ => Some(IrError::TypeMismatch { expected: TypeKindLabel::Integer, got: m.kind_label(t) }),
            }
        },
        Folded::Int(a) => {
            let w = a.bit_width();
            if w == 1 {
                None
            } else {
                Some(IrError::OperandWidthMismatch { lhs: 1, rhs: w })
            }
        },
    }
}

/// Keeps a fold only when it has the type of the operand `like`.
pub fn narrow_folded_int(m: &Module, folded: IrResult<Option<Folded>>, like: ValueId) -> (r: IrResult<Option<Folded>>)
    requires
        m.wf(),
        m.valid_value(like),
    ensures
        narrowed(*m, folded, |f: Folded| folded_error(*m, f, m.ty_of(like)), r),
{
    narrow_to_type(m, folded, m.value_type(like))
}

/// Keeps a fold only when it has the floating-point type of `like`.
pub fn narrow_folded_fp(m: &Module, folded: IrResult<Option<Folded>>, like: ValueId) -> (r: IrResult<Option<Folded>>)
    requires
        m.wf(),
        m.valid_value(like),
    ensures
        narrowed(*m, folded, |f: Folded| folded_error(*m, f, m.ty_of(like)), r),
{
    narrow_to_type(m, folded, m.value_type(like))
}

/// Keeps a fold only when it is a one-bit integer.
pub fn narrow_folded_bool(m: &Module, folded: IrResult<Option<Folded>>) -> (r: IrResult<Option<Folded>>)
    requires
        m.wf(),
    ensures
        narrowed(*m, folded, |f: Folded| folded_bool_error(*m, f), r),
{
    match folded {
        Err(e) => Err(e),
        Ok(None) => Ok(None),
        Ok(Some(f)) => match check_folded_bool(m, &f) {
            Some(e) => Err(e),
            None => Ok(Some(f)),
        },
    }
}

/// Keeps a cast fold only when it has the destination type `dest_ty`.
pub fn narrow_folded_cast_int(m: &Module, folded: IrResult<Option<Folded>>, dest_ty: TypeId) -> (r: IrResult<Option<Folded>>)
    requires
        m.wf(),
        m.valid_type(dest_ty),
    ensures
        narrowed(*m, folded, |f: Folded| folded_error(*m, f, dest_ty), r),
{
    narrow_to_type(m, folded, dest_ty)
}

/// Keeps a cast fold only when it has the destination type `dest_ty`.
pub fn narrow_folded_cast_fp(m: &Module, folded: IrResult<Option<Folded>>, dest_ty: TypeId) -> (r: IrResult<Option<Folded>>)
    requires
        m.wf(),
        m.valid_type(dest_ty),
    ensures
        narrowed(*m, folded, |f: Folded| folded_error(*m, f, dest_ty), r),
{
    narrow_to_type(m, folded, dest_ty)
}

fn narrow_to_type(m: &Module, folded: IrResult<Option<Folded>>, ty: TypeId) -> (r: IrResult<Option<Folded>>)
    requires
        m.wf(),
        m.valid_type(ty),
    ensures
        narrowed(*m, folded, |f: Folded| folded_error(*m, f, ty), r),
{
    match folded {
        Err(e) => Err(e),
        Ok(None) => Ok(None),
        Ok(Some(f)) => match check_folded(m, &f, ty) {
            Some(e) => Err(e),
            None => Ok(Some(f)),
        },
    }
}

/// Strategy for folding operations while building IR.
///
/// The `*_dyn` hooks see erased operands and decline by default. The
/// typed hooks are what the typed builder methods call; by default they
/// ask the matching `*_dyn` hook and keep its answer only when it has the
/// operand's (or destination's) type.
pub trait IRBuilderFolder {
    fn fold_bin_op_dyn(&self, m: &Module, opcode: BinaryOpcode, lhs: ValueId, rhs: ValueId) -> (r: IrResult<Option<Folded>>)
        requires
            m.wf(),
            m.valid_value(lhs),
            m.valid_value(rhs),
        default_ensures
            r == Ok::<Option<Folded>, IrError>(None),
    {
        Ok(None)
    }

    fn fold_exact_bin_op_dyn(&self, m: &Module, opcode: BinaryOpcode, lhs: ValueId, rhs: ValueId) -> (r: IrResult<Option<Folded>>)
        requires
            m.wf(),
            m.valid_value(lhs),
            m.valid_value(rhs),
        default_ensures
            r == Ok::<Option<Folded>, IrError>(None),
    {
        Ok(None)
    }

    fn fold_no_wrap_bin_op_dyn(&self, m: &Module, opcode: BinaryOpcode, lhs: ValueId, rhs: ValueId, flags: OverflowFlags) -> (r: IrResult<Option<Folded>>)
        requires
            m.wf(),
            m.valid_value(lhs),
            m.valid_value(rhs),
        default_ensures
            r == Ok::<Option<Folded>, IrError>(None),
    {
        Ok(None)
    }

    fn fold_bin_op_fmf_dyn(&self, m: &Module, opcode: BinaryOpcode, lhs: ValueId, rhs: ValueId, fmf: FastMathFlags) -> (r: IrResult<Option<Folded>>)
        requires
            m.wf(),
            m.valid_value(lhs),
            m.valid_value(rhs),
        default_ensures
            r == Ok::<Option<Folded>, IrError>(None),
    {
        Ok(None)
    }

    fn fold_un_op_fmf_dyn(&self, m: &Module, opcode: UnaryOpcode, value: ValueId, fmf: FastMathFlags) -> (r: IrResult<Option<Folded>>)
        requires
            m.wf(),
            m.valid_value(value),
        default_ensures
            r == Ok::<Option<Folded>, IrError>(None),
    {
        Ok(None)
    }

    fn fold_cmp_dyn(&self, m: &Module, predicate: CmpPredicate, lhs: ValueId, rhs: ValueId) -> (r: IrResult<Option<Folded>>)
        requires
            m.wf(),
            m.valid_value(lhs),
            m.valid_value(rhs),
        default_ensures
            r == Ok::<Option<Folded>, IrError>(None),
    {
        Ok(None)
    }

    fn fold_select_dyn(&self, m: &Module, cond: ValueId, true_value: ValueId, false_value: ValueId) -> (r: IrResult<Option<Folded>>)
        requires
            m.wf(),
            m.valid_value(cond),
            m.valid_value(true_value),
            m.valid_value(false_value),
        default_ensures
            r == Ok::<Option<Folded>, IrError>(None),
    {
        Ok(None)
    }

    fn fold_cast_dyn(&self, m: &Module, opcode: CastOpcode, value: ValueId, dest_ty: TypeId) -> (r: IrResult<Option<Folded>>)
        requires
            m.wf(),
            m.valid_value(value),
            m.valid_type(dest_ty),
        default_ensures
            r == Ok::<Option<Folded>, IrError>(None),
    {
        Ok(None)
    }

    fn fold_extract_element_dyn(&self, m: &Module, vector: ValueId, index: ValueId) -> (r: IrResult<Option<Folded>>)
        requires
            m.wf(),
            m.valid_value(vector),
            m.valid_value(index),
        default_ensures
            r == Ok::<Option<Folded>, IrError>(None),
    {
        Ok(None)
    }

    fn fold_insert_element_dyn(&self, m: &Module, vector: ValueId, new_element: ValueId, index: ValueId) -> (r: IrResult<Option<Folded>>)
        requires
            m.wf(),
            m.valid_value(vector),
            m.valid_value(new_element),
            m.valid_value(index),
        default_ensures
            r == Ok::<Option<Folded>, IrError>(None),
    {
        Ok(None)
    }

    fn fold_shuffle_vector_dyn(&self, m: &Module, lhs: ValueId, rhs: ValueId, mask: &Vec<ShuffleMaskElem>) -> (r: IrResult<Option<Folded>>)
        requires
            m.wf(),
            m.valid_value(lhs),
            m.valid_value(rhs),
        default_ensures
            r == Ok::<Option<Folded>, IrError>(None),
    {
        Ok(None)
    }

    fn fold_extract_value_dyn(&self, m: &Module, aggregate: ValueId, indices: &Vec<u32>) -> (r: IrResult<Option<Folded>>)
        requires
            m.wf(),
            m.valid_value(aggregate),
        default_ensures
            r == Ok::<Option<Folded>, IrError>(None),
    {
        Ok(None)
    }

    fn fold_insert_value_dyn(&self, m: &Module, aggregate: ValueId, value: ValueId, indices: &Vec<u32>) -> (r: IrResult<Option<Folded>>)
        requires
            m.wf(),
            m.valid_value(aggregate),
            m.valid_value(value),
        default_ensures
            r == Ok::<Option<Folded>, IrError>(None),
    {
        Ok(None)
    }

    fn fold_gep_dyn(&self, m: &Module, source_ty: TypeId, ptr: ValueId, indices: &Vec<ValueId>, no_wrap: GepNoWrapFlags)
        -> (r: IrResult<Option<Folded>>)
        requires
            m.wf(),
            m.valid_type(source_ty),
            m.valid_value(ptr),
            forall|k: int| 0 <= k < indices@.len() ==> m.valid_value(#[trigger] indices@[k]),
        default_ensures
            r == Ok::<Option<Folded>, IrError>(None),
    {
        Ok(None)
    }

    fn create_pointer_cast(&self, m: &Module, value: ValueId, dest_ty: TypeId) -> (r: IrResult<Option<Folded>>)
        requires
            m.wf(),
            m.valid_value(value),
            m.valid_type(dest_ty),
        default_ensures
            r == Ok::<Option<Folded>, IrError>(None),
    {
        Ok(None)
    }

    fn create_pointer_bitcast_or_addrspace_cast(&self, m: &Module, value: ValueId, dest_ty: TypeId) -> (r: IrResult<Option<Folded>>)
        requires
            m.wf(),
            m.valid_value(value),
            m.valid_type(dest_ty),
        default_ensures
            r == Ok::<Option<Folded>, IrError>(None),
    {
        Ok(None)
    }

    fn fold_int_bin_op(&self, m: &Module, opcode: BinaryOpcode, lhs: ValueId, rhs: ValueId) -> (r: IrResult<Option<Folded>>)
        requires
            m.wf(),
            m.valid_value(lhs),
            m.valid_value(rhs),
        default_ensures
            exists|d: IrResult<Option<Folded>>| #[trigger] call_ensures(Self::fold_bin_op_dyn, (self, m, opcode, lhs, rhs), d)
                && narrowed(*m, d, |f: Folded| folded_error(*m, f, m.ty_of(lhs)), r),
    {
        let folded = self.fold_bin_op_dyn(m, opcode, lhs, rhs);
        narrow_folded_int(m, folded, lhs)
    }

    fn fold_int_bin_op_no_wrap(&self, m: &Module, opcode: BinaryOpcode, lhs: ValueId, rhs: ValueId, flags: OverflowFlags) -> (r: IrResult<Option<Folded>>)
        requires
            m.wf(),
            m.valid_value(lhs),
            m.valid_value(rhs),
        default_ensures
            exists|d: IrResult<Option<Folded>>| #[trigger] call_ensures(Self::fold_no_wrap_bin_op_dyn, (self, m, opcode, lhs, rhs, flags), d)
                && narrowed(*m, d, |f: Folded| folded_error(*m, f, m.ty_of(lhs)), r),
    {
        let folded = self.fold_no_wrap_bin_op_dyn(m, opcode, lhs, rhs, flags);
        narrow_folded_int(m, folded, lhs)
    }

    fn fold_int_bin_op_exact(&self, m: &Module, opcode: BinaryOpcode, lhs: ValueId, rhs: ValueId) -> (r: IrResult<Option<Folded>>)
        requires
            m.wf(),
            m.valid_value(lhs),
            m.valid_value(rhs),
        default_ensures
            exists|d: IrResult<Option<Folded>>| #[trigger] call_ensures(Self::fold_exact_bin_op_dyn, (self, m, opcode, lhs, rhs), d)
                && narrowed(*m, d, |f: Folded| folded_error(*m, f, m.ty_of(lhs)), r),
    {
        let folded = self.fold_exact_bin_op_dyn(m, opcode, lhs, rhs);
        narrow_folded_int(m, folded, lhs)
    }

    fn fold_fp_bin_op(&self, m: &Module, opcode: BinaryOpcode, lhs: ValueId, rhs: ValueId, fmf: FastMathFlags) -> (r: IrResult<Option<Folded>>)
        requires
            m.wf(),
            m.valid_value(lhs),
            m.valid_value(rhs),
        default_ensures
            exists|d: IrResult<Option<Folded>>| #[trigger] call_ensures(Self::fold_bin_op_fmf_dyn, (self, m, opcode, lhs, rhs, fmf), d)
                && narrowed(*m, d, |f: Folded| folded_error(*m, f, m.ty_of(lhs)), r),
    {
        let folded = self.fold_bin_op_fmf_dyn(m, opcode, lhs, rhs, fmf);
        narrow_folded_fp(m, folded, lhs)
    }

    fn fold_fp_un_op(&self, m: &Module, opcode: UnaryOpcode, value: ValueId, fmf: FastMathFlags) -> (r: IrResult<Option<Folded>>)
        requires
            m.wf(),
            m.valid_value(value),
        default_ensures
            exists|d: IrResult<Option<Folded>>| #[trigger] call_ensures(Self::fold_un_op_fmf_dyn, (self, m, opcode, value, fmf), d)
                && narrowed(*m, d, |f: Folded| folded_error(*m, f, m.ty_of(value)), r),
    {
        let folded = self.fold_un_op_fmf_dyn(m, opcode, value, fmf);
        narrow_folded_fp(m, folded, value)
    }

    fn fold_int_cmp(&self, m: &Module, predicate: IntPredicate, lhs: ValueId, rhs: ValueId) -> (r: IrResult<Option<Folded>>)
        requires
            m.wf(),
            m.valid_value(lhs),
            m.valid_value(rhs),
        default_ensures
            exists|d: IrResult<Option<Folded>>| #[trigger] call_ensures(Self::fold_cmp_dyn, (self, m, CmpPredicate::Int(predicate), lhs, rhs), d)
                && narrowed(*m, d, |f: Folded| folded_bool_error(*m, f), r),
    {
        let folded = self.fold_cmp_dyn(m, CmpPredicate::Int(predicate), lhs, rhs);
        narrow_folded_bool(m, folded)
    }

    fn fold_fp_cmp(&self, m: &Module, predicate: FloatPredicate, lhs: ValueId, rhs: ValueId) -> (r: IrResult<Option<Folded>>)
        requires
            m.wf(),
            m.valid_value(lhs),
            m.valid_value(rhs),
        default_ensures
            exists|d: IrResult<Option<Folded>>| #[trigger] call_ensures(Self::fold_cmp_dyn, (self, m, CmpPredicate::Float(predicate), lhs, rhs), d)
                && narrowed(*m, d, |f: Folded| folded_bool_error(*m, f), r),
    {
        let folded = self.fold_cmp_dyn(m, CmpPredicate::Float(predicate), lhs, rhs);
        narrow_folded_bool(m, folded)
    }

    fn fold_cast_to_int(&self, m: &Module, opcode: CastOpcode, value: ValueId, dest_ty: TypeId) -> (r: IrResult<Option<Folded>>)
        requires
            m.wf(),
            m.valid_value(value),
            m.valid_type(dest_ty),
        default_ensures
            exists|d: IrResult<Option<Folded>>| #[trigger] call_ensures(Self::fold_cast_dyn, (self, m, opcode, value, dest_ty), d)
                && narrowed(*m, d, |f: Folded| folded_error(*m, f, dest_ty), r),
    {
        let folded = self.fold_cast_dyn(m, opcode, value, dest_ty);
        narrow_folded_cast_int(m, folded, dest_ty)
    }

    fn fold_cast_to_fp(&self, m: &Module, opcode: CastOpcode, value: ValueId, dest_ty: TypeId) -> (r: IrResult<Option<Folded>>)
        requires
            m.wf(),
            m.valid_value(value),
            m.valid_type(dest_ty),
        default_ensures
            exists|d: IrResult<Option<Folded>>| #[trigger] call_ensures(Self::fold_cast_dyn, (self, m, opcode, value, dest_ty), d)
                && narrowed(*m, d, |f: Folded| folded_error(*m, f, dest_ty), r),
    {
        let folded = self.fold_cast_dyn(m, opcode, value, dest_ty);
        narrow_folded_cast_fp(m, folded, dest_ty)
    }
}

} // verus!
