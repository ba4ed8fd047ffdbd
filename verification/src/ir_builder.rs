//! IR builder: appends instructions at an insertion point of a module.
//!
//! Every operation first validates its operands, then asks the folder for
//! a folded result. A folded result is checked against the type the
//! instruction would have had and returned (an integer constant is added to
//! the module first); when the folder declines, the instruction is inserted
//! at the insertion point: before the anchor instruction when there is one,
//! else at the end of the insertion block. A rejected operation leaves the
//! module unchanged, apart from constants and types an operation interns
//! before it can fail, which its contract names.

pub mod folder;
pub mod constant_folder;
pub mod no_folder;

use vstd::prelude::*;
use crate::error::{IrError, IrResult, TypeKindLabel};
use crate::bitseq::{splat, nat_of};
use crate::ir::{
    local_name, ValueData, inst_block, phi_incoming, FloatKind, CastOpcode, UnaryOpcode, IntPredicate, FloatPredicate, is_fp_or_fp_vector, module_grew_types,
    const_bits, Module, ValueId, TypeId, BlockId, FunctionId, TypeData, ValueKind, BinaryOpcode, Opcode,
    FastMathFlags, InstFlags, no_flags, kind_label_of, type_mismatch, inst_added, constant_added,
    is_int_or_int_vector, block_is_terminated, inst_shape, ShuffleMaskElem, GepNoWrapFlags, StructBody,
};
use crate::type_text::{type_text, type_string};
use crate::ir_builder::folder::{Folded, IRBuilderFolder, OverflowFlags, CmpPredicate, check_folded, folded_error, folded_bool_error, narrowed};
use crate::ir_builder::constant_folder::{ConstantFolder, const_binop_model, answers_int, select_pick};

verus! {

/// What a builder is: its module, insertion block, anchor instruction and
/// default fast-math flags.
pub struct BuilderState {
    pub module: Module,
    pub block: Option<BlockId>,
    pub before: Option<ValueId>,
    pub fmf: FastMathFlags,
}

/// A saved insertion point.
#[derive(Debug, Clone, Copy, PartialEq, Eq, Structural)]
pub struct InsertPoint {
    pub block_id: Option<BlockId>,
    pub before: Option<ValueId>,
}

/// Builder of instructions over a module it owns, with folder `F`.
pub struct IrBuilder<F> {
    module: Module,
    folder: F,
    insert_block: Option<BlockId>,
    insert_before: Option<ValueId>,
    fmf: FastMathFlags,
}

impl<F> IrBuilder<F> {
    /// What the builder is: its module, insertion point and flags.
    pub closed spec fn state(&self) -> BuilderState {
        BuilderState { module: self.module, block: self.insert_block, before: self.insert_before, fmf: self.fmf }
    }
}

/// A builder state is consistent: its module is well formed, its
/// insertion block exists, and it has an anchor only with a block.
pub open spec fn state_ok(s: BuilderState) -> bool {
    &&& s.module.wf()
    &&& (s.block matches Some(b) ==> s.module.valid_block(b))
    &&& (s.block is None ==> s.before is None)
}

/// Same insertion point and flags.
pub open spec fn same_place(a: BuilderState, b: BuilderState) -> bool {
    a.block == b.block && a.before == b.before && a.fmf == b.fmf
}

/// `s` with its module replaced by `m`.
pub open spec fn with_module(s: BuilderState, m: Module) -> BuilderState {
    BuilderState { module: m, block: s.block, before: s.before, fmf: s.fmf }
}

/// The insertion point of `s`.
pub open spec fn point_of(s: BuilderState) -> InsertPoint {
    InsertPoint { block_id: s.block, before: s.before }
}

/// `s` stands where a builder may insert: before an instruction of its
/// block, or at the end of a block without terminator.
pub open spec fn place_open(s: BuilderState) -> bool {
    &&& s.block is Some
    &&& s.module.valid_block(s.block.unwrap())
    &&& match s.before {
        None => !block_is_terminated(s.module.values(), s.module.blocks()[s.block.unwrap().0 as int]),
        Some(a) => s.module.valid_value(a) && inst_block(s.module, a) == Some(s.block.unwrap()),
    }
}

/// Restoring the point `ip` on `old`: refused (nothing changes) for an
/// empty point, an unknown block or anchor, an anchor outside the block,
/// or the end of a terminated block; else the builder stands at `ip`.
pub open spec fn restore_outcome(old: BuilderState, ip: InsertPoint, r: IrResult<()>, new: BuilderState) -> bool {
    let m = old.module;
    &&& state_ok(new)
    &&& new.module == m
    &&& new.fmf == old.fmf
    &&& if ip.block_id is None {
        r == Err::<(), IrError>(IrError::InvalidOperation { message: "cannot restore an empty insert point" }) && new == old
    } else if !m.valid_block(ip.block_id.unwrap()) {
        r == Err::<(), IrError>(IrError::ForeignValueId) && new == old
    } else if ip.before is None && block_is_terminated(m.values(), m.blocks()[ip.block_id.unwrap().0 as int]) {
        r == Err::<(), IrError>(IrError::InvalidOperation { message: "cannot restore insert point at end of terminated block" })
            && new == old
    } else if ip.before is Some && !m.valid_value(ip.before.unwrap()) {
        r == Err::<(), IrError>(IrError::ForeignValueId) && new == old
    } else if ip.before is Some && inst_block(m, ip.before.unwrap()) != ip.block_id {
        r == Err::<(), IrError>(IrError::InvalidOperation { message: "insert point anchor is not an instruction of its block" })
            && new == old
    } else {
        r == Ok::<(), IrError>(()) && new.block == ip.block_id && new.before == ip.before
    }
}

/// Restoring the point saved from a builder, on any builder whose module
/// still has that place open (the saved block has gained no terminator
/// when the point is its end, or the anchor is still an instruction of
/// the saved block), returns to where the first one stood.
pub proof fn law_restore_saved_point(saved_from: BuilderState, s: BuilderState, r: IrResult<()>, new: BuilderState)
    requires
        place_open(with_module(saved_from, s.module)),
        restore_outcome(s, point_of(saved_from), r, new),
    ensures
        r is Ok,
        new.block == saved_from.block,
        new.before == saved_from.before,
        new.module == s.module,
        new.fmf == s.fmf,
{
}

/// The outcome of an operation given the folder's answer `folded`: an
/// error is passed on; a fold is checked against `expected` and returned,
/// an integer constant being added first; no fold inserts the instruction
/// `op operands` of type `expected` at the insertion point of `s`.
pub open spec fn fold_outcome(s: BuilderState, new: Module, folded: IrResult<Option<Folded>>, r: IrResult<ValueId>,
    expected: TypeId, op: Opcode, operands: Seq<ValueId>, flags: InstFlags, name: Seq<char>) -> bool
{
    match folded {
        Err(e) => r == Err::<ValueId, IrError>(e) && new == s.module,
        Ok(None) => (r matches Ok(v) && inst_added(s.module, new, v, s.block.unwrap(), s.before, expected, op,
            operands, Seq::<BlockId>::empty(), flags, name)),
        Ok(Some(f)) => match folded_error(s.module, f, expected) {
            Some(e) => r == Err::<ValueId, IrError>(e) && new == s.module,
            None => match f {
                Folded::Value(v) => r == Ok::<ValueId, IrError>(v) && new == s.module,
                Folded::Int(a) => (r matches Ok(c) && constant_added(s.module, new, c, expected)
                    && new.values()[c.0 as int].kind == (ValueKind::ConstInt { value: a })),
            },
        },
    }
}

/// What the folder may answer, given the module it sees.
pub type FoldAnswers = spec_fn(Module, IrResult<Option<Folded>>) -> bool;

/// The folder is asked nothing, and the instruction is always emitted.
pub open spec fn not_asked() -> FoldAnswers {
    |m: Module, a: IrResult<Option<Folded>>| a == Ok::<Option<Folded>, IrError>(None)
}

/// `folder` asked for the typed integer operation `op lhs, rhs` with the
/// accepted flags `kept`: through its exact hook when `flagged` and `kept`
/// is `exact`, its no-wrap hook when `flagged` and `op` is `add`, `sub`,
/// `mul` or `shl`, else its plain hook.
pub open spec fn asks_int_binop<F: IRBuilderFolder>(folder: F, op: BinaryOpcode, lhs: ValueId, rhs: ValueId, kept: InstFlags,
    flagged: bool) -> FoldAnswers
{
    |m: Module, a: IrResult<Option<Folded>>|
        if flagged && kept.exact {
            call_ensures(F::fold_int_bin_op_exact, (&folder, &m, op, lhs, rhs), a)
        } else if flagged && (op == BinaryOpcode::Add || op == BinaryOpcode::Sub || op == BinaryOpcode::Mul || op == BinaryOpcode::Shl) {
            call_ensures(F::fold_int_bin_op_no_wrap, (&folder, &m, op, lhs, rhs, OverflowFlags { nuw: kept.nuw, nsw: kept.nsw }), a)
        } else {
            call_ensures(F::fold_int_bin_op, (&folder, &m, op, lhs, rhs), a)
        }
}

/// `folder` asked for `op lhs, rhs` through its erased binary hook.
pub open spec fn asks_bin_op_dyn<F: IRBuilderFolder>(folder: F, op: BinaryOpcode, lhs: ValueId, rhs: ValueId) -> FoldAnswers {
    |m: Module, a: IrResult<Option<Folded>>| call_ensures(F::fold_bin_op_dyn, (&folder, &m, op, lhs, rhs), a)
}

/// `folder` asked for the typed floating-point operation `op lhs, rhs`.
pub open spec fn asks_fp_bin_op<F: IRBuilderFolder>(folder: F, op: BinaryOpcode, lhs: ValueId, rhs: ValueId, fmf: FastMathFlags) -> FoldAnswers {
    |m: Module, a: IrResult<Option<Folded>>| call_ensures(F::fold_fp_bin_op, (&folder, &m, op, lhs, rhs, fmf), a)
}

/// `folder` asked for the typed floating-point operation `op value`.
pub open spec fn asks_fp_un_op<F: IRBuilderFolder>(folder: F, op: UnaryOpcode, value: ValueId, fmf: FastMathFlags) -> FoldAnswers {
    |m: Module, a: IrResult<Option<Folded>>| call_ensures(F::fold_fp_un_op, (&folder, &m, op, value, fmf), a)
}

/// `folder` asked for `op lhs, rhs` through its erased fast-math hook.
pub open spec fn asks_bin_op_fmf_dyn<F: IRBuilderFolder>(folder: F, op: BinaryOpcode, lhs: ValueId, rhs: ValueId, fmf: FastMathFlags) -> FoldAnswers {
    |m: Module, a: IrResult<Option<Folded>>| call_ensures(F::fold_bin_op_fmf_dyn, (&folder, &m, op, lhs, rhs, fmf), a)
}

/// `folder` asked for `op value` through its erased fast-math hook.
pub open spec fn asks_un_op_fmf_dyn<F: IRBuilderFolder>(folder: F, op: UnaryOpcode, value: ValueId, fmf: FastMathFlags) -> FoldAnswers {
    |m: Module, a: IrResult<Option<Folded>>| call_ensures(F::fold_un_op_fmf_dyn, (&folder, &m, op, value, fmf), a)
}

/// `folder` asked for the typed integer comparison `pred lhs, rhs`.
pub open spec fn asks_int_compare<F: IRBuilderFolder>(folder: F, pred: IntPredicate, lhs: ValueId, rhs: ValueId) -> FoldAnswers {
    |m: Module, a: IrResult<Option<Folded>>| call_ensures(F::fold_int_cmp, (&folder, &m, pred, lhs, rhs), a)
}

/// `folder` asked for the pointer comparison `pred lhs, rhs` through its
/// erased comparison hook.
pub open spec fn asks_pointer_compare<F: IRBuilderFolder>(folder: F, pred: IntPredicate, lhs: ValueId, rhs: ValueId) -> FoldAnswers {
    asks_compare_dyn(folder, CmpPredicate::Int(pred), lhs, rhs)
}

/// `folder` asked for the typed floating-point comparison `pred lhs, rhs`.
pub open spec fn asks_fp_compare<F: IRBuilderFolder>(folder: F, pred: FloatPredicate, lhs: ValueId, rhs: ValueId) -> FoldAnswers {
    |m: Module, a: IrResult<Option<Folded>>| call_ensures(F::fold_fp_cmp, (&folder, &m, pred, lhs, rhs), a)
}

/// `folder` asked for `pred lhs, rhs` through its erased comparison hook,
/// whose answer is kept only when it is a one-bit integer.
pub open spec fn asks_compare_dyn<F: IRBuilderFolder>(folder: F, pred: CmpPredicate, lhs: ValueId, rhs: ValueId) -> FoldAnswers {
    |m: Module, a: IrResult<Option<Folded>>| exists|d: IrResult<Option<Folded>>|
        #[trigger] call_ensures(F::fold_cmp_dyn, (&folder, &m, pred, lhs, rhs), d)
        && narrowed(m, d, |f: Folded| folded_bool_error(m, f), a)
}

/// `folder` asked for the cast `op value` to `dst`: through the typed
/// integer or floating-point hook (by the destination's kind) when
/// `typed`, else through the erased hook.
pub open spec fn asks_cast<F: IRBuilderFolder>(folder: F, op: CastOpcode, value: ValueId, dst: TypeId, typed: bool) -> FoldAnswers {
    |m: Module, a: IrResult<Option<Folded>>|
        if !typed {
            call_ensures(F::fold_cast_dyn, (&folder, &m, op, value, dst), a)
        } else if cast_to_int(op) {
            call_ensures(F::fold_cast_to_int, (&folder, &m, op, value, dst), a)
        } else {
            call_ensures(F::fold_cast_to_fp, (&folder, &m, op, value, dst), a)
        }
}

/// `folder` asked for a bitcast of `value` to `dst` through its typed
/// integer hook (`to_int`) or floating-point hook.
pub open spec fn asks_bitcast<F: IRBuilderFolder>(folder: F, value: ValueId, dst: TypeId, to_int: bool) -> FoldAnswers {
    |m: Module, a: IrResult<Option<Folded>>|
        if to_int {
            call_ensures(F::fold_cast_to_int, (&folder, &m, CastOpcode::BitCast, value, dst), a)
        } else {
            call_ensures(F::fold_cast_to_fp, (&folder, &m, CastOpcode::BitCast, value, dst), a)
        }
}

/// The casts whose typed hook is the integer one.
pub open spec fn cast_to_int(op: CastOpcode) -> bool {
    match op {
        CastOpcode::Trunc | CastOpcode::ZExt | CastOpcode::SExt | CastOpcode::FPToUI | CastOpcode::FPToSI => true,
        _ => false,
    }
}

/// `v` is neither an instruction nor an argument.
pub open spec fn is_constant_value(m: Module, v: ValueId) -> bool {
    !(m.values()[v.0 as int].kind is Instruction) && !(m.values()[v.0 as int].kind is Argument)
}

/// `folder` asked for the pointer cast of `value` to `dst`: a constant is
/// first offered to the pointer-cast hook, and when that declines (or the
/// value is no constant) the erased cast hook is asked.
pub open spec fn asks_pointer_cast<F: IRBuilderFolder>(folder: F, value: ValueId, dst: TypeId) -> FoldAnswers {
    |m: Module, a: IrResult<Option<Folded>>| exists|first: IrResult<Option<Folded>>| {
        &&& #[trigger] first_pointer_answer(folder, m, value, dst, first)
        &&& (first == Ok::<Option<Folded>, IrError>(None) ==> call_ensures(F::fold_cast_dyn,
                (&folder, &m, pointer_cast_op(m, value, dst), value, dst), a))
        &&& (first != Ok::<Option<Folded>, IrError>(None) ==> a == first)
    }
}

/// The answer `first` of the pointer-cast hook for a constant `value`;
/// no fold for any other value.
pub open spec fn first_pointer_answer<F: IRBuilderFolder>(folder: F, m: Module, value: ValueId, dst: TypeId,
    first: IrResult<Option<Folded>>) -> bool
{
    if is_constant_value(m, value) {
        call_ensures(F::create_pointer_bitcast_or_addrspace_cast, (&folder, &m, value, dst), first)
    } else {
        first == Ok::<Option<Folded>, IrError>(None)
    }
}

/// `folder` asked for `select cond, t, f`.
pub open spec fn asks_select<F: IRBuilderFolder>(folder: F, cond: ValueId, t: ValueId, f: ValueId) -> FoldAnswers {
    |m: Module, a: IrResult<Option<Folded>>| call_ensures(F::fold_select_dyn, (&folder, &m, cond, t, f), a)
}

/// `folder` asked for `extractelement vector, index`.
pub open spec fn asks_extract_element<F: IRBuilderFolder>(folder: F, vector: ValueId, index: ValueId) -> FoldAnswers {
    |m: Module, a: IrResult<Option<Folded>>| call_ensures(F::fold_extract_element_dyn, (&folder, &m, vector, index), a)
}

/// `folder` asked for `insertelement vector, element, index`.
pub open spec fn asks_insert_element<F: IRBuilderFolder>(folder: F, vector: ValueId, element: ValueId, index: ValueId) -> FoldAnswers {
    |m: Module, a: IrResult<Option<Folded>>| call_ensures(F::fold_insert_element_dyn, (&folder, &m, vector, element, index), a)
}

/// `folder` asked for `shufflevector lhs, rhs` with the lanes `mask`.
pub open spec fn asks_shuffle<F: IRBuilderFolder>(folder: F, lhs: ValueId, rhs: ValueId, mask: Seq<ShuffleMaskElem>) -> FoldAnswers {
    |m: Module, a: IrResult<Option<Folded>>| exists|v: Vec<ShuffleMaskElem>|
        v@ == mask && #[trigger] call_ensures(F::fold_shuffle_vector_dyn, (&folder, &m, lhs, rhs, &v), a)
}

/// `folder` asked for `extractvalue aggregate, indices`.
pub open spec fn asks_extract_value<F: IRBuilderFolder>(folder: F, aggregate: ValueId, indices: Seq<u32>) -> FoldAnswers {
    |m: Module, a: IrResult<Option<Folded>>| exists|v: Vec<u32>|
        v@ == indices && #[trigger] call_ensures(F::fold_extract_value_dyn, (&folder, &m, aggregate, &v), a)
}

/// `folder` asked for `insertvalue aggregate, value, indices`.
pub open spec fn asks_insert_value<F: IRBuilderFolder>(folder: F, aggregate: ValueId, value: ValueId, indices: Seq<u32>) -> FoldAnswers {
    |m: Module, a: IrResult<Option<Folded>>| exists|v: Vec<u32>|
        v@ == indices && #[trigger] call_ensures(F::fold_insert_value_dyn, (&folder, &m, aggregate, value, &v), a)
}

/// `folder` asked for `getelementptr source, ptr, indices` with `flags`.
pub open spec fn asks_gep<F: IRBuilderFolder>(folder: F, source: TypeId, ptr: ValueId, indices: Seq<ValueId>, flags: GepNoWrapFlags) -> FoldAnswers {
    |m: Module, a: IrResult<Option<Folded>>| exists|v: Vec<ValueId>|
        v@ == indices && #[trigger] call_ensures(F::fold_gep_dyn, (&folder, &m, source, ptr, &v, flags), a)
}

/// What an operation does once its operands are accepted: the folder,
/// asked as `answers` says, gave some answer, and the outcome is the one
/// [`fold_outcome`] gives for it. So on failure the module is unchanged;
/// on success the result has type `expected` and is either the new
/// instruction `op operands` at the insertion point of `s`, a value that
/// already existed, or a new integer constant.
pub open spec fn emitted(s: BuilderState, new: Module, r: IrResult<ValueId>, answers: FoldAnswers, expected: TypeId, op: Opcode,
    operands: Seq<ValueId>, flags: InstFlags, name: Seq<char>) -> bool
{
    &&& match r {
        Err(_) => new == s.module,
        Ok(v) => {
            ||| inst_added(s.module, new, v, s.block.unwrap(), s.before, expected, op, operands,
                    Seq::<BlockId>::empty(), flags, name)
            ||| (new == s.module && s.module.valid_value(v) && s.module.ty_of(v) == expected)
            ||| (constant_added(s.module, new, v, expected) && new.values()[v.0 as int].kind is ConstInt)
        },
    }
    &&& exists|a: IrResult<Option<Folded>>| answers(s.module, a)
            && #[trigger] fold_outcome(s, new, a, r, expected, op, operands, flags, name)
}

/// Why two operands cannot feed a scalar integer operation, or `None`.
pub open spec fn int_pair_error(m: Module, lhs: ValueId, rhs: ValueId) -> Option<IrError> {
    if !m.valid_value(lhs) || !m.valid_value(rhs) {
        Some(IrError::ForeignValueId)
    } else if !(m.shape_of(lhs) is Integer) {
        Some(IrError::TypeMismatch { expected: TypeKindLabel::Integer, got: kind_label_of(m.shape_of(lhs)) })
    } else if m.ty_of(lhs) != m.ty_of(rhs) {
        Some(type_mismatch(m.types(), m.ty_of(lhs), m.ty_of(rhs)))
    } else {
        None
    }
}

/// Why a value cannot feed a scalar integer operation, or `None`.
pub open spec fn int_operand_error(m: Module, v: ValueId) -> Option<IrError> {
    if !m.valid_value(v) {
        Some(IrError::ForeignValueId)
    } else if !(m.shape_of(v) is Integer) {
        Some(IrError::TypeMismatch { expected: TypeKindLabel::Integer, got: kind_label_of(m.shape_of(v)) })
    } else {
        None
    }
}

/// Whether two operands cannot feed an erased integer operation (scalar
/// or vector): `Some(true)` for an unknown value, `Some(false)` for a type
/// that does not fit, `None` when they fit.
pub open spec fn int_dyn_pair_error(m: Module, lhs: ValueId, rhs: ValueId) -> Option<bool> {
    if !m.valid_value(lhs) || !m.valid_value(rhs) {
        Some(true)
    } else if m.ty_of(lhs) != m.ty_of(rhs) || !is_int_or_int_vector(m.types(), m.ty_of(lhs)) {
        Some(false)
    } else {
        None
    }
}

/// The flags among `f` that `op` accepts.
pub open spec fn accepted_flags(op: BinaryOpcode, f: InstFlags) -> InstFlags {
    match op {
        BinaryOpcode::Add | BinaryOpcode::Sub | BinaryOpcode::Mul | BinaryOpcode::Shl =>
            InstFlags { nuw: f.nuw, nsw: f.nsw, exact: false, disjoint: false, nneg: false, samesign: false, fmf: FastMathFlags { bits: 0 } },
        BinaryOpcode::UDiv | BinaryOpcode::SDiv | BinaryOpcode::LShr | BinaryOpcode::AShr =>
            InstFlags { nuw: false, nsw: false, exact: f.exact, disjoint: false, nneg: false, samesign: false, fmf: FastMathFlags { bits: 0 } },
        BinaryOpcode::Or =>
            InstFlags { nuw: false, nsw: false, exact: false, disjoint: f.disjoint, nneg: false, samesign: false, fmf: FastMathFlags { bits: 0 } },
        _ => no_flags(),
    }
}

/// True for the integer opcodes.
pub open spec fn is_int_opcode(op: BinaryOpcode) -> bool {
    !(op is FAdd || op is FSub || op is FMul || op is FDiv || op is FRem)
}

/// Growing the types twice is growing them once.
proof fn lemma_grew_trans(a: Module, b: Module, c: Module)
    requires
        module_grew_types(a, b),
        module_grew_types(b, c),
    ensures
        module_grew_types(a, c),
{
    assert(c.types().take(a.types().len() as int) =~= b.types().take(a.types().len() as int)) by {
        assert forall|i: int| 0 <= i < a.types().len() implies c.types()[i] == b.types()[i] by {
            assert(c.types().take(b.types().len() as int)[i] == b.types()[i]);
        }
    }
}

/// A fold outcome meets the weaker statement that holds whatever the
/// folder answered.
proof fn lemma_outcome_emitted(s: BuilderState, new: Module, folded: IrResult<Option<Folded>>, r: IrResult<ValueId>,
    answers: FoldAnswers, expected: TypeId, op: Opcode, operands: Seq<ValueId>, flags: InstFlags, name: Seq<char>)
    requires
        answers(s.module, folded),
        fold_outcome(s, new, folded, r, expected, op, operands, flags, name),
    ensures
        emitted(s, new, r, answers, expected, op, operands, flags, name),
{
}

impl<F> IrBuilder<F> {
    /// The folder.
    pub closed spec fn folder_spec(&self) -> F {
        self.folder
    }

    /// The builder is consistent.
    pub open spec fn wf(&self) -> bool {
        state_ok(self.state())
    }
}

impl IrBuilder<ConstantFolder> {
    /// An unpositioned builder over `module` with the default folder.
    pub fn new(module: Module) -> (r: IrBuilder<ConstantFolder>)
        requires
            module.wf(),
        ensures
            r.wf(),
            r.state().module == module,
            r.state().block is None,
            r.state().before is None,
            r.state().fmf == (FastMathFlags { bits: 0 }),
    {
        IrBuilder { module, folder: ConstantFolder, insert_block: None, insert_before: None, fmf: FastMathFlags::empty() }
    }

    /// A builder with the default folder positioned at the end of `bb`.
    pub fn at_end(module: Module, bb: BlockId) -> (r: IrBuilder<ConstantFolder>)
        requires
            module.wf(),
            module.valid_block(bb),
        ensures
            r.wf(),
            r.state().module == module,
            r.state().block == Some(bb),
            r.state().before is None,
            r.state().fmf == (FastMathFlags { bits: 0 }),
    {
        IrBuilder { module, folder: ConstantFolder, insert_block: Some(bb), insert_before: None, fmf: FastMathFlags::empty() }
    }
}

impl<F: IRBuilderFolder> IrBuilder<F> {
    /// An unpositioned builder over `module` with the folder `folder`.
    pub fn with_folder(module: Module, folder: F) -> (r: IrBuilder<F>)
        requires
            module.wf(),
        ensures
            r.wf(),
            r.state().module == module,
            r.state().block is None,
            r.state().before is None,
            r.state().fmf == (FastMathFlags { bits: 0 }),
            r.folder_spec() == folder,
    {
        IrBuilder { module, folder, insert_block: None, insert_before: None, fmf: FastMathFlags::empty() }
    }

    /// The module being built.
    pub fn module(&self) -> (r: &Module)
        ensures
            *r == self.state().module,
    {
        &self.module
    }

    /// Gives the module back.
    pub fn into_module(self) -> (r: Module)
        ensures
            r == self.state().module,
    {
        self.module
    }

    /// Positions the builder at the end of `bb`.
    pub fn position_at_end(self, bb: BlockId) -> (r: IrBuilder<F>)
        requires
            self.wf(),
            self.state().module.valid_block(bb),
        ensures
            r.wf(),
            r.state().module == self.state().module,
            r.state().block == Some(bb),
            r.state().before is None,
            r.state().fmf == self.state().fmf,
            r.folder_spec() == self.folder_spec(),
    {
        IrBuilder { module: self.module, folder: self.folder, insert_block: Some(bb), insert_before: None, fmf: self.fmf }
    }

    /// Positions the builder at the end of `bb`, which must be a block of
    /// the module that has no terminator yet.
    pub fn position_at_end_dyn(&mut self, bb: BlockId) -> (r: IrResult<()>)
        requires
            old(self).wf(),
        ensures
            final(self).folder_spec() == old(self).folder_spec(),
            final(self).wf(),
            final(self).state().module == old(self).state().module,
            final(self).state().fmf == old(self).state().fmf,
            !old(self).state().module.valid_block(bb) ==> r == Err::<(), IrError>(IrError::ForeignValueId),
            old(self).state().module.valid_block(bb) && block_is_terminated(old(self).state().module.values(), old(self).state().module.blocks()[bb.0 as int])
                ==> r == Err::<(), IrError>(IrError::InvalidOperation { message: "cannot position at end of a terminated block" }),
            r is Err ==> final(self).state() == old(self).state(),
            old(self).state().module.valid_block(bb) && !block_is_terminated(old(self).state().module.values(), old(self).state().module.blocks()[bb.0 as int])
                ==> r is Ok && final(self).state().block == Some(bb) && final(self).state().before is None,
    {
        if bb.0 >= self.module.block_count() {
            return Err(IrError::ForeignValueId);
        }
        if self.module.is_terminated(bb) {
            return Err(IrError::InvalidOperation { message: "cannot position at end of a terminated block" });
        }
        self.insert_block = Some(bb);
        self.insert_before = None;
        Ok(())
    }

    /// Positions the builder before the instruction `anchor`, in its block.
    pub fn position_before(self, anchor: ValueId) -> (r: IrBuilder<F>)
        requires
            self.wf(),
            self.state().module.valid_value(anchor),
            inst_block(self.state().module, anchor) is Some,
        ensures
            r.wf(),
            r.state().module == self.state().module,
            r.state().block == inst_block(self.state().module, anchor),
            r.state().before == Some(anchor),
            r.state().fmf == self.state().fmf,
            r.folder_spec() == self.folder_spec(),
    {
        let b = match &self.module.value(anchor).kind {
            ValueKind::Instruction { block, .. } => *block,
            _ => BlockId(0),
        };
        proof {
            assert(crate::ir::value_refs_ok(self.state().module.values()[anchor.0 as int], self.state().module.types().len(),
                self.state().module.values().len(), self.state().module.blocks().len(), self.state().module.functions().len()));
        }
        IrBuilder { module: self.module, folder: self.folder, insert_block: Some(b), insert_before: Some(anchor), fmf: self.fmf }
    }

    /// Positions the builder in the entry block of `f`, before its first
    /// instruction that is not an `alloca` (at the end when there is none).
    pub fn position_past_allocas(self, f: FunctionId) -> (r: IrBuilder<F>)
        requires
            self.wf(),
            self.state().module.valid_function(f),
            self.state().module.functions()[f.0 as int].blocks@.len() > 0,
        ensures
            r.wf(),
            r.state().module == self.state().module,
            r.state().block == Some(self.state().module.functions()[f.0 as int].blocks@[0]),
            r.state().fmf == self.state().fmf,
            r.folder_spec() == self.folder_spec(),
            ({
                let insts = self.state().module.blocks()[self.state().module.functions()[f.0 as int].blocks@[0].0 as int].insts@;
                match r.state().before {
                    Some(a) => exists|p: int| 0 <= p < insts.len() && insts[p] == a && !is_alloca(self.state().module, a)
                        && forall|j: int| 0 <= j < p ==> is_alloca(self.state().module, #[trigger] insts[j]),
                    None => forall|j: int| 0 <= j < insts.len() ==> is_alloca(self.state().module, #[trigger] insts[j]),
                }
            }),
    {
        let entry = self.module.function_blocks(f)[0];
        proof {
            assert(crate::ir::function_refs_ok(self.state().module.functions()[f.0 as int], self.state().module.types().len(),
                self.state().module.values().len(), self.state().module.blocks().len()));
        }
        let insts = self.module.block_instructions(entry);
        proof {
            assert(crate::ir::block_refs_ok(self.state().module.blocks()[entry.0 as int], self.state().module.values().len(),
                self.state().module.functions().len()));
        }
        let n = insts.len();
        let mut anchor: Option<ValueId> = None;
        let mut i: usize = 0;
        while i < n
            invariant_except_break
                anchor is None,
            invariant
                self.wf(),
                n == insts@.len(),
                insts@ == self.state().module.blocks()[entry.0 as int].insts@,
                forall|k: int| 0 <= k < insts@.len() ==> (#[trigger] insts@[k]).0 < self.state().module.values().len(),
                0 <= i <= n,
                forall|j: int| 0 <= j < i ==> is_alloca(self.state().module, #[trigger] insts@[j]),
            ensures
                anchor matches Some(a) ==> (exists|p: int| 0 <= p < insts@.len() && insts@[p] == a && !is_alloca(self.state().module, a)
                    && forall|j: int| 0 <= j < p ==> is_alloca(self.state().module, #[trigger] insts@[j])),
                anchor is None ==> forall|j: int| 0 <= j < insts@.len() ==> is_alloca(self.state().module, #[trigger] insts@[j]),
            decreases n - i,
        {
            let v = insts[i];
            let alloca = match &self.module.value(v).kind {
                ValueKind::Instruction { op: Opcode::Alloca { .. }, .. } => true,
                _ => false,
            };
            if !alloca {
                anchor = Some(v);
                assert(insts@[i as int] == v);
                break;
            }
            i += 1;
        }
        IrBuilder { module: self.module, folder: self.folder, insert_block: Some(entry), insert_before: anchor, fmf: self.fmf }
    }

    /// The current insertion point.
    pub fn save_insert_point(&self) -> (r: InsertPoint)
        ensures
            r == point_of(self.state()),
    {
        InsertPoint { block_id: self.insert_block, before: self.insert_before }
    }

    /// Returns to a saved insertion point. An empty point, a block that
    /// is not in the module, an anchor that is not an instruction of that
    /// block, or the end of a block that has a terminator is refused.
    pub fn restore_insert_point(&mut self, ip: InsertPoint) -> (r: IrResult<()>)
        requires
            old(self).wf(),
        ensures
            final(self).folder_spec() == old(self).folder_spec(),
            restore_outcome(old(self).state(), ip, r, final(self).state()),
    {
        let b = match ip.block_id {
            Some(b) => b,
            None => {
                return Err(IrError::InvalidOperation { message: "cannot restore an empty insert point" });
            },
        };
        if b.0 >= self.module.block_count() {
            return Err(IrError::ForeignValueId);
        }
        match ip.before {
            None => {
                if self.module.is_terminated(b) {
                    return Err(IrError::InvalidOperation { message: "cannot restore insert point at end of terminated block" });
                }
            },
            Some(a) => {
                if a.0 >= self.module.value_count() {
                    return Err(IrError::ForeignValueId);
                }
                let in_block = match &self.module.value(a).kind {
                    ValueKind::Instruction { block, .. } => *block == b,
                    _ => false,
                };
                if !in_block {
                    return Err(IrError::InvalidOperation { message: "insert point anchor is not an instruction of its block" });
                }
            },
        }
        self.insert_block = Some(b);
        self.insert_before = ip.before;
        Ok(())
    }

    /// Drops the insertion point.
    pub fn unposition(self) -> (r: IrBuilder<F>)
        requires
            self.wf(),
        ensures
            r.wf(),
            r.state().module == self.state().module,
            r.state().block is None,
            r.state().before is None,
            r.state().fmf == self.state().fmf,
            r.folder_spec() == self.folder_spec(),
    {
        IrBuilder { module: self.module, folder: self.folder, insert_block: None, insert_before: None, fmf: self.fmf }
    }

    /// The insertion block, if positioned.
    pub fn insert_block(&self) -> (r: Option<BlockId>)
        ensures
            r == self.state().block,
    {
        self.insert_block
    }

    /// Gives back the insertion block and the module.
    pub fn into_insert_block(self) -> (r: (BlockId, Module))
        requires
            self.state().block is Some,
        ensures
            r.0 == self.state().block.unwrap(),
            r.1 == self.state().module,
    {
        match self.insert_block {
            Some(b) => (b, self.module),
            None => (BlockId(0), self.module),
        }
    }

    /// The default fast-math flags of floating-point operations.
    pub fn fast_math_flags(&self) -> (r: FastMathFlags)
        ensures
            r == self.state().fmf,
    {
        self.fmf
    }

    /// Sets the default fast-math flags.
    pub fn with_fast_math_flags(self, fmf: FastMathFlags) -> (r: IrBuilder<F>)
        requires
            self.wf(),
        ensures
            r.wf(),
            r.state() == (BuilderState { module: self.state().module, block: self.state().block, before: self.state().before, fmf }),
            r.folder_spec() == self.folder_spec(),
    {
        IrBuilder { module: self.module, folder: self.folder, insert_block: self.insert_block, insert_before: self.insert_before, fmf }
    }

    /// Clears the default fast-math flags.
    pub fn clear_fast_math_flags(self) -> (r: IrBuilder<F>)
        requires
            self.wf(),
        ensures
            r.wf(),
            r.state() == (BuilderState { module: self.state().module, block: self.state().block, before: self.state().before, fmf: (FastMathFlags { bits: 0 }) }),
            r.folder_spec() == self.folder_spec(),
    {
        IrBuilder { module: self.module, folder: self.folder, insert_block: self.insert_block, insert_before: self.insert_before, fmf: FastMathFlags::empty() }
    }

    /// Finishes an operation from the folder's answer `folded`: see
    /// [`fold_outcome`].
    pub fn complete_fold(&mut self, folded: IrResult<Option<Folded>>, expected: TypeId, op: Opcode,
        operands: Vec<ValueId>, flags: InstFlags, name: &str) -> (r: IrResult<ValueId>)
        requires
            old(self).wf(),
            old(self).state().block is Some,
            old(self).state().module.valid_type(expected),
            forall|k: int| 0 <= k < operands@.len() ==> old(self).state().module.valid_value(#[trigger] operands@[k]),
        ensures
            final(self).wf(),
            same_place(old(self).state(), final(self).state()),
            final(self).folder_spec() == old(self).folder_spec(),
            fold_outcome(old(self).state(), final(self).state().module, folded, r, expected, op, operands@, flags, name@),
    {
        match folded {
            Err(e) => Err(e),
            Ok(None) => {
                let b = match self.insert_block {
                    Some(b) => b,
                    None => BlockId(0),
                };
                let v = self.module.insert_instruction(b, self.insert_before, expected, op, operands, Vec::new(), flags, name);
                Ok(v)
            },
            Ok(Some(f)) => {
                match check_folded(&self.module, &f, expected) {
                    Some(e) => Err(e),
                    None => match f {
                        Folded::Value(v) => Ok(v),
                        Folded::Int(a) => self.module.const_int_ap(expected, a),
                    },
                }
            },
        }
    }

    /// Validates two operands of a scalar integer operation.
    fn check_int_pair(&self, lhs: ValueId, rhs: ValueId) -> (r: Option<IrError>)
        requires
            self.wf(),
        ensures
            r == int_pair_error(self.state().module, lhs, rhs),
    {
        if lhs.0 >= self.module.value_count() || rhs.0 >= self.module.value_count() {
            return Some(IrError::ForeignValueId);
        }
        let lt = self.module.value_type(lhs);
        let rt = self.module.value_type(rhs);
        match self.module.type_data(lt) {
            TypeData::Integer { .. } => {},
            _ => {
                return Some(IrError::TypeMismatch { expected: TypeKindLabel::Integer, got: self.module.kind_label(lt) });
            },
        }
        match self.module.require_match(lt, rt) {
            Ok(()) => None,
            Err(e) => Some(e),
        }
    }

    /// Validates the operand of a scalar integer operation.
    fn check_int_operand(&self, v: ValueId) -> (r: Option<IrError>)
        requires
            self.wf(),
        ensures
            r == int_operand_error(self.state().module, v),
    {
        if v.0 >= self.module.value_count() {
            return Some(IrError::ForeignValueId);
        }
        let t = self.module.value_type(v);
        match self.module.type_data(t) {
            TypeData::Integer { .. } => None,
            _ => Some(IrError::TypeMismatch { expected: TypeKindLabel::Integer, got: self.module.kind_label(t) }),
        }
    }

    /// `ty` is an integer or a vector of integers.
    fn int_or_int_vector(&self, ty: TypeId) -> (r: bool)
        requires
            self.wf(),
            self.state().module.valid_type(ty),
        ensures
            r == is_int_or_int_vector(self.state().module.types(), ty),
    {
        match self.module.type_data(ty) {
            TypeData::Integer { .. } => true,
            TypeData::FixedVector { elem, .. } => {
                proof {
                    assert(crate::ir::type_refs_below(self.state().module.types()[ty.0 as int], ty.0 as int));
                }
                match self.module.type_data(elem) {
                    TypeData::Integer { .. } => true,
                    _ => false,
                }
            },
            _ => false,
        }
    }

    /// Typed integer binary operation: validates, asks the folder (the
    /// exact hook for `exact`, the no-wrap hook for flagged `add`, `sub`,
    /// `mul` and `shl`), then completes.
    fn int_binop_core(&mut self, op: BinaryOpcode, lhs: ValueId, rhs: ValueId, flags: InstFlags, flagged: bool, name: &str) -> (r: IrResult<ValueId>)
        requires
            old(self).wf(),
            old(self).state().block is Some,
        ensures
            final(self).folder_spec() == old(self).folder_spec(),
            final(self).wf(),
            same_place(old(self).state(), final(self).state()),
            int_pair_error(old(self).state().module, lhs, rhs) matches Some(e) ==> r == Err::<ValueId, IrError>(e) && final(self).state() == old(self).state(),
            int_pair_error(old(self).state().module, lhs, rhs) is None ==> emitted(old(self).state(), final(self).state().module, r, asks_int_binop(old(self).folder_spec(), op, lhs, rhs, accepted_flags(op, flags), flagged),
                old(self).state().module.ty_of(lhs), Opcode::Binary(op), seq![lhs, rhs], accepted_flags(op, flags), name@),
    {
        if let Some(e) = self.check_int_pair(lhs, rhs) {
            return Err(e);
        }
        let kept = keep_flags(op, flags);
        let folded = if flagged && kept.exact {
            self.folder.fold_int_bin_op_exact(&self.module, op, lhs, rhs)
        } else if flagged && (op == BinaryOpcode::Add || op == BinaryOpcode::Sub || op == BinaryOpcode::Mul || op == BinaryOpcode::Shl) {
            self.folder.fold_int_bin_op_no_wrap(&self.module, op, lhs, rhs, OverflowFlags { nuw: kept.nuw, nsw: kept.nsw })
        } else {
            self.folder.fold_int_bin_op(&self.module, op, lhs, rhs)
        };
        let ty = self.module.value_type(lhs);
        let ghost s = self.state();
        let r = self.complete_fold(folded, ty, Opcode::Binary(op), vec![lhs, rhs], kept, name);
        proof {
            lemma_outcome_emitted(s, self.state().module, folded, r, asks_int_binop(old(self).folder_spec(), op, lhs, rhs, accepted_flags(op, flags), flagged), ty, Opcode::Binary(op), seq![lhs, rhs], kept, name@);
        }
        r
    }

    /// Erased integer binary operation on scalars or integer vectors.
    fn int_binop_dyn_core(&mut self, op: BinaryOpcode, lhs: ValueId, rhs: ValueId, flags: InstFlags, name: &str) -> (r: IrResult<ValueId>)
        requires
            old(self).wf(),
            old(self).state().block is Some,
        ensures
            final(self).folder_spec() == old(self).folder_spec(),
            final(self).wf(),
            same_place(old(self).state(), final(self).state()),
            int_dyn_pair_error(old(self).state().module, lhs, rhs) == Some(true) ==> r == Err::<ValueId, IrError>(IrError::ForeignValueId) && final(self).state() == old(self).state(),
            int_dyn_pair_error(old(self).state().module, lhs, rhs) == Some(false) ==> (r matches Err(IrError::InvalidOperation { .. })) && final(self).state() == old(self).state(),
            int_dyn_pair_error(old(self).state().module, lhs, rhs) is None ==> emitted(old(self).state(), final(self).state().module, r, asks_bin_op_dyn(old(self).folder_spec(), op, lhs, rhs),
                old(self).state().module.ty_of(lhs), Opcode::Binary(op), seq![lhs, rhs], accepted_flags(op, flags), name@),
    {
        if lhs.0 >= self.module.value_count() || rhs.0 >= self.module.value_count() {
            return Err(IrError::ForeignValueId);
        }
        let lt = self.module.value_type(lhs);
        let rt = self.module.value_type(rhs);
        if lt != rt {
            return Err(IrError::InvalidOperation { message: "integer binop operands must have the same type" });
        }
        if !self.int_or_int_vector(lt) {
            return Err(IrError::InvalidOperation { message: "integer binop operand is neither an integer nor an integer vector" });
        }
        let folded = self.folder.fold_bin_op_dyn(&self.module, op, lhs, rhs);
        let kept = keep_flags(op, flags);
        let ghost s = self.state();
        let r = self.complete_fold(folded, lt, Opcode::Binary(op), vec![lhs, rhs], kept, name);
        proof {
            lemma_outcome_emitted(s, self.state().module, folded, r, asks_bin_op_dyn(old(self).folder_spec(), op, lhs, rhs), lt, Opcode::Binary(op), seq![lhs, rhs], kept, name@);
        }
        r
    }
}

/// What a typed integer binary operation does: operands that do not fit
/// are refused with [`int_pair_error`] and nothing changes; otherwise see
/// [`emitted`], the result having the operands' type.
pub open spec fn int_binop_done(old: BuilderState, new: BuilderState, r: IrResult<ValueId>, answers: FoldAnswers, op: BinaryOpcode,
    lhs: ValueId, rhs: ValueId, flags: InstFlags, name: Seq<char>) -> bool
{
    &&& state_ok(new)
    &&& same_place(old, new)
    &&& (int_pair_error(old.module, lhs, rhs) matches Some(e) ==> r == Err::<ValueId, IrError>(e) && new == old)
    &&& (int_pair_error(old.module, lhs, rhs) is None ==> emitted(old, new.module, r, answers, old.module.ty_of(lhs),
            Opcode::Binary(op), seq![lhs, rhs], accepted_flags(op, flags), name))
}

/// What an erased integer binary operation does: an unknown operand is
/// refused with `ForeignValueId`, operands of different types or not
/// integers (or integer vectors) with `InvalidOperation`, and nothing
/// changes; otherwise see [`emitted`].
pub open spec fn int_binop_dyn_done(old: BuilderState, new: BuilderState, r: IrResult<ValueId>, answers: FoldAnswers, op: BinaryOpcode,
    lhs: ValueId, rhs: ValueId, flags: InstFlags, name: Seq<char>) -> bool
{
    &&& state_ok(new)
    &&& same_place(old, new)
    &&& (int_dyn_pair_error(old.module, lhs, rhs) == Some(true) ==> r == Err::<ValueId, IrError>(IrError::ForeignValueId) && new == old)
    &&& (int_dyn_pair_error(old.module, lhs, rhs) == Some(false) ==> (r matches Err(IrError::InvalidOperation { .. })) && new == old)
    &&& (int_dyn_pair_error(old.module, lhs, rhs) is None ==> emitted(old, new.module, r, answers, old.module.ty_of(lhs),
            Opcode::Binary(op), seq![lhs, rhs], accepted_flags(op, flags), name))
}

/// What an operation `op constant, value` (or `op value, constant` when
/// `constant_first` is false) built from a fresh constant does: a value
/// that does not fit is refused with [`int_operand_error`] and nothing
/// changes; otherwise the constant with bits `bits` is added to the module
/// and the operation is emitted over it (see [`emitted`]).
pub open spec fn with_constant_done<F: IRBuilderFolder>(old: BuilderState, new: BuilderState, r: IrResult<ValueId>, folder: F, flagged: bool, op: BinaryOpcode,
    value: ValueId, bits: spec_fn(nat) -> Seq<bool>, constant_first: bool, flags: InstFlags, name: Seq<char>) -> bool
{
    &&& state_ok(new)
    &&& same_place(old, new)
    &&& (int_operand_error(old.module, value) matches Some(e) ==> r == Err::<ValueId, IrError>(e) && new == old)
    &&& (int_operand_error(old.module, value) is None ==> {
        let ty = old.module.ty_of(value);
        let c = ValueId(old.module.values().len() as usize);
        exists|mid: Module| {
            &&& constant_added(old.module, mid, c, ty)
            &&& #[trigger] const_bits(mid, c) == Some(bits(old.module.types()[ty.0 as int]->bits as nat))
            &&& emitted(with_module(old, mid), new.module, r,
                    if constant_first { asks_int_binop(folder, op, c, value, flags, flagged) } else { asks_int_binop(folder, op, value, c, flags, flagged) },
                    ty, Opcode::Binary(op), if constant_first { seq![c, value] } else { seq![value, c] }, flags, name)
        }
    })
}

/// Flags carrying only the fast-math flags `fmf`.
pub open spec fn fmf_flags(fmf: FastMathFlags) -> InstFlags {
    InstFlags { nuw: false, nsw: false, exact: false, disjoint: false, nneg: false, samesign: false, fmf }
}

/// Why two operands cannot feed a scalar floating-point operation, or `None`.
pub open spec fn fp_pair_error(m: Module, lhs: ValueId, rhs: ValueId) -> Option<IrError> {
    if !m.valid_value(lhs) || !m.valid_value(rhs) {
        Some(IrError::ForeignValueId)
    } else if !(m.shape_of(lhs) is Float) {
        Some(IrError::TypeMismatch { expected: TypeKindLabel::Float, got: kind_label_of(m.shape_of(lhs)) })
    } else if m.ty_of(lhs) != m.ty_of(rhs) {
        Some(type_mismatch(m.types(), m.ty_of(lhs), m.ty_of(rhs)))
    } else {
        None
    }
}

/// Why a value cannot feed a scalar floating-point operation, or `None`.
pub open spec fn fp_operand_error(m: Module, v: ValueId) -> Option<IrError> {
    if !m.valid_value(v) {
        Some(IrError::ForeignValueId)
    } else if !(m.shape_of(v) is Float) {
        Some(IrError::TypeMismatch { expected: TypeKindLabel::Float, got: kind_label_of(m.shape_of(v)) })
    } else {
        None
    }
}

/// Whether two operands cannot feed an erased floating-point operation:
/// `Some(true)` for an unknown value, `Some(false)` for types that differ
/// or are not floating-point (or vectors of it), `None` when they fit.
pub open spec fn fp_dyn_pair_error(m: Module, lhs: ValueId, rhs: ValueId) -> Option<bool> {
    if !m.valid_value(lhs) || !m.valid_value(rhs) {
        Some(true)
    } else if m.ty_of(lhs) != m.ty_of(rhs) || !is_fp_or_fp_vector(m.types(), m.ty_of(lhs)) {
        Some(false)
    } else {
        None
    }
}

/// An operation that is refused with `err` (leaving everything unchanged)
/// or else behaves as [`emitted`] with a result of type `expected`.
pub open spec fn checked_emit(old: BuilderState, new: BuilderState, r: IrResult<ValueId>, answers: FoldAnswers, err: Option<IrError>,
    expected: TypeId, op: Opcode, operands: Seq<ValueId>, flags: InstFlags, name: Seq<char>) -> bool
{
    &&& state_ok(new)
    &&& same_place(old, new)
    &&& (err matches Some(e) ==> r == Err::<ValueId, IrError>(e) && new == old)
    &&& (err is None ==> emitted(old, new.module, r, answers, expected, op, operands, flags, name))
}

/// Like [`checked_emit`] for operations over erased operands: `unknown`
/// is refused with `ForeignValueId`, `unfit` with `InvalidOperation`.
pub open spec fn checked_emit_dyn(old: BuilderState, new: BuilderState, r: IrResult<ValueId>, answers: FoldAnswers, err: Option<bool>,
    expected: TypeId, op: Opcode, operands: Seq<ValueId>, flags: InstFlags, name: Seq<char>) -> bool
{
    &&& state_ok(new)
    &&& same_place(old, new)
    &&& (err == Some(true) ==> r == Err::<ValueId, IrError>(IrError::ForeignValueId) && new == old)
    &&& (err == Some(false) ==> (r matches Err(IrError::InvalidOperation { .. })) && new == old)
    &&& (err is None ==> emitted(old, new.module, r, answers, expected, op, operands, flags, name))
}

/// A comparison: refused with `err`, or the one-bit integer type is
/// interned and the comparison behaves as [`emitted`] with that result type.
pub open spec fn compare_emit(old: BuilderState, new: BuilderState, r: IrResult<ValueId>, answers: FoldAnswers, err: Option<IrError>,
    op: Opcode, lhs: ValueId, rhs: ValueId, flags: InstFlags, name: Seq<char>) -> bool
{
    &&& state_ok(new)
    &&& same_place(old, new)
    &&& (err matches Some(e) ==> r == Err::<ValueId, IrError>(e) && new == old)
    &&& (err is None ==> exists|mid: Module, t: TypeId| {
        &&& module_grew_types(old.module, mid)
        &&& mid.valid_type(t)
        &&& #[trigger] mid.types()[t.0 as int] == (TypeData::Integer { bits: 1 })
        &&& emitted(with_module(old, mid), new.module, r, answers, t, op, seq![lhs, rhs], flags, name)
    })
}

/// `t` is the result type of a comparison of operands of type
/// `operand`: `i1`, or a vector of `i1` as long as a vector operand.
pub open spec fn compare_result_type_ok(types: Seq<TypeData>, operand: TypeId, t: TypeId) -> bool {
    match types[operand.0 as int] {
        TypeData::FixedVector { n, .. } => types[t.0 as int] is FixedVector && types[t.0 as int]->FixedVector_n == n
            && types[types[t.0 as int]->FixedVector_elem.0 as int] == (TypeData::Integer { bits: 1 }),
        _ => types[t.0 as int] == (TypeData::Integer { bits: 1 }),
    }
}

/// A comparison over erased operands, emitted without folding: refused
/// (`ForeignValueId` for an unknown operand, `InvalidOperation` for types
/// that differ or do not fit `fits`) or inserted with its result type.
pub open spec fn compare_erased_emit(old: BuilderState, new: BuilderState, r: IrResult<ValueId>, fits: bool,
    op: Opcode, lhs: ValueId, rhs: ValueId, flags: InstFlags, name: Seq<char>) -> bool
{
    &&& state_ok(new)
    &&& same_place(old, new)
    &&& (!old.module.valid_value(lhs) || !old.module.valid_value(rhs)
            ==> r == Err::<ValueId, IrError>(IrError::ForeignValueId) && new == old)
    &&& (old.module.valid_value(lhs) && old.module.valid_value(rhs) && (old.module.ty_of(lhs) != old.module.ty_of(rhs) || !fits)
            ==> (r matches Err(IrError::InvalidOperation { .. })) && new == old)
    &&& (old.module.valid_value(lhs) && old.module.valid_value(rhs) && old.module.ty_of(lhs) == old.module.ty_of(rhs) && fits
            ==> (r matches Ok(v) && exists|mid: Module, t: TypeId| {
                &&& module_grew_types(old.module, mid)
                &&& mid.valid_type(t)
                &&& #[trigger] compare_result_type_ok(mid.types(), old.module.ty_of(lhs), t)
                &&& inst_added(mid, new.module, v, old.block.unwrap(), old.before, t, op, seq![lhs, rhs],
                        Seq::<BlockId>::empty(), flags, name)
            }))
}

/// Width in bits of a floating-point format.
pub open spec fn float_bits(k: FloatKind) -> nat {
    match k {
        FloatKind::Half | FloatKind::BFloat => 16,
        FloatKind::Float => 32,
        FloatKind::Double => 64,
        FloatKind::X86Fp80 => 80,
        FloatKind::Fp128 | FloatKind::PpcFp128 => 128,
    }
}

/// The kind of operand a cast takes and the kind of type it produces.
pub open spec fn cast_kinds(op: CastOpcode) -> Option<(TypeKindLabel, TypeKindLabel)> {
    match op {
        CastOpcode::Trunc | CastOpcode::ZExt | CastOpcode::SExt => Some((TypeKindLabel::Integer, TypeKindLabel::Integer)),
        CastOpcode::FPTrunc | CastOpcode::FPExt => Some((TypeKindLabel::Float, TypeKindLabel::Float)),
        CastOpcode::FPToUI | CastOpcode::FPToSI => Some((TypeKindLabel::Float, TypeKindLabel::Integer)),
        CastOpcode::UIToFP | CastOpcode::SIToFP => Some((TypeKindLabel::Integer, TypeKindLabel::Float)),
        CastOpcode::PtrToInt => Some((TypeKindLabel::Pointer, TypeKindLabel::Integer)),
        CastOpcode::IntToPtr => Some((TypeKindLabel::Integer, TypeKindLabel::Pointer)),
        CastOpcode::AddrSpaceCast => Some((TypeKindLabel::Pointer, TypeKindLabel::Pointer)),
        _ => None,
    }
}

/// `t` is a type of the kind `k` names (integer, float or pointer).
pub open spec fn kind_fits(t: TypeData, k: TypeKindLabel) -> bool {
    match k {
        TypeKindLabel::Integer => t is Integer,
        TypeKindLabel::Pointer => t is Pointer,
        _ => t is Float,
    }
}

/// Why `op src to dst` is refused, or `None`. With `ordered`, `fptrunc`
/// must narrow and `fpext` must widen.
pub open spec fn cast_error(m: Module, op: CastOpcode, src: ValueId, dst: TypeId, ordered: bool) -> Option<IrError> {
    if !m.valid_value(src) || !m.valid_type(dst) {
        Some(IrError::ForeignValueId)
    } else {
        let s = m.shape_of(src);
        let d = m.types()[dst.0 as int];
        match cast_kinds(op) {
            None => Some(IrError::InvalidOperation { message: "unsupported cast" }),
            Some((sk, dk)) => if !kind_fits(s, sk) {
                Some(IrError::TypeMismatch { expected: sk, got: kind_label_of(s) })
            } else if !kind_fits(d, dk) {
                Some(IrError::TypeMismatch { expected: dk, got: kind_label_of(d) })
            } else if (op is Trunc && d->bits >= s->bits) || ((op is ZExt || op is SExt) && d->bits <= s->bits) {
                Some(IrError::OperandWidthMismatch { lhs: s->bits, rhs: d->bits })
            } else if ordered && op is FPTrunc && float_bits(d->kind) >= float_bits(s->kind) {
                Some(IrError::InvalidOperation { message: "fptrunc destination must be narrower" })
            } else if ordered && op is FPExt && float_bits(d->kind) <= float_bits(s->kind) {
                Some(IrError::InvalidOperation { message: "fpext destination must be wider" })
            } else {
                None
            },
        }
    }
}

/// Width in bits of an integer or floating-point type (zero otherwise).
pub open spec fn scalar_bits(t: TypeData) -> nat {
    match t {
        TypeData::Integer { bits } => bits as nat,
        TypeData::Float { kind } => float_bits(kind),
        _ => 0,
    }
}

/// Why `bitcast src to dst` between a `sk` and a `dk` type (integer or
/// float) is refused, or `None`: the widths must be equal.
pub open spec fn bitcast_error(m: Module, src: ValueId, dst: TypeId, sk: TypeKindLabel, dk: TypeKindLabel) -> Option<IrError> {
    if !m.valid_value(src) || !m.valid_type(dst) {
        Some(IrError::ForeignValueId)
    } else if !kind_fits(m.shape_of(src), sk) {
        Some(IrError::TypeMismatch { expected: sk, got: kind_label_of(m.shape_of(src)) })
    } else if !kind_fits(m.types()[dst.0 as int], dk) {
        Some(IrError::TypeMismatch { expected: dk, got: kind_label_of(m.types()[dst.0 as int]) })
    } else if scalar_bits(m.shape_of(src)) != scalar_bits(m.types()[dst.0 as int]) {
        Some(IrError::OperandWidthMismatch { lhs: scalar_bits(m.shape_of(src)) as u32, rhs: scalar_bits(m.types()[dst.0 as int]) as u32 })
    } else {
        None
    }
}

/// Why `v` cannot be a branch condition (a one-bit integer), or `None`.
pub open spec fn bool_operand_error(m: Module, v: ValueId) -> Option<IrError> {
    if !m.valid_value(v) {
        Some(IrError::ForeignValueId)
    } else {
        match m.shape_of(v) {
            TypeData::Integer { bits } => if bits == 1 { None } else { Some(IrError::OperandWidthMismatch { lhs: 1, rhs: bits }) },
            t => Some(IrError::TypeMismatch { expected: TypeKindLabel::Integer, got: kind_label_of(t) }),
        }
    }
}

/// A terminator: refused with `err` (everything unchanged), or the `void`
/// type is interned, the terminator `op operands targets` is inserted at
/// the insertion point, and the builder is left without insertion point;
/// the result names the terminated block and the terminator.
pub open spec fn term_emit(old: BuilderState, new: BuilderState, r: IrResult<(BlockId, ValueId)>, err: Option<IrError>,
    op: Opcode, operands: Seq<ValueId>, targets: Seq<BlockId>) -> bool
{
    &&& state_ok(new)
    &&& (err matches Some(e) ==> r == Err::<(BlockId, ValueId), IrError>(e) && new == old)
    &&& (err is None ==> {
        &&& r is Ok
        &&& r->Ok_0.0 == old.block.unwrap()
        &&& new.block is None
        &&& new.before is None
        &&& new.fmf == old.fmf
        &&& exists|mid: Module, t: TypeId| {
            &&& module_grew_types(old.module, mid)
            &&& mid.valid_type(t)
            &&& #[trigger] mid.types()[t.0 as int] == TypeData::Void
            &&& inst_added(mid, new.module, r->Ok_0.1, old.block.unwrap(), old.before, t, op, operands, targets,
                    no_flags(), Seq::<char>::empty())
        }
    })
}

/// Function owning the insertion block.
pub open spec fn parent_function(s: BuilderState) -> FunctionId {
    s.module.blocks()[s.block.unwrap().0 as int].function
}

/// Whether a value cannot feed an erased floating-point operation:
/// `Some(true)` when unknown, `Some(false)` when not floating-point (or a
/// vector of it), `None` when it fits.
pub open spec fn fp_dyn_operand_error(m: Module, v: ValueId) -> Option<bool> {
    if !m.valid_value(v) {
        Some(true)
    } else if !is_fp_or_fp_vector(m.types(), m.ty_of(v)) {
        Some(false)
    } else {
        None
    }
}

/// The flags among `f` that the cast `op` accepts.
pub open spec fn cast_flags(op: CastOpcode, f: InstFlags) -> InstFlags {
    match op {
        CastOpcode::Trunc => InstFlags { nuw: f.nuw, nsw: f.nsw, exact: false, disjoint: false, nneg: false, samesign: false, fmf: FastMathFlags { bits: 0 } },
        CastOpcode::ZExt | CastOpcode::UIToFP => InstFlags { nuw: false, nsw: false, exact: false, disjoint: false, nneg: f.nneg, samesign: false, fmf: FastMathFlags { bits: 0 } },
        CastOpcode::FPTrunc | CastOpcode::FPExt => fmf_flags(f.fmf),
        _ => no_flags(),
    }
}

/// Why `select cond, t, f` with a one-bit `cond` is refused, or `None`.
pub open spec fn select_error(m: Module, cond: ValueId, t: ValueId, f: ValueId) -> Option<IrError> {
    if bool_operand_error(m, cond) is Some {
        bool_operand_error(m, cond)
    } else if !m.valid_value(t) || !m.valid_value(f) {
        Some(IrError::ForeignValueId)
    } else if m.ty_of(t) != m.ty_of(f) {
        Some(IrError::TypeMismatch { expected: kind_label_of(m.shape_of(t)), got: kind_label_of(m.shape_of(f)) })
    } else if m.shape_of(t) == TypeData::Token {
        Some(IrError::InvalidOperation { message: "select values cannot have token type" })
    } else {
        None
    }
}

/// Why `select cond, t, f` over erased operands (a one-bit or vector
/// condition) carrying `fmf` is refused, or `None`.
pub open spec fn select_erased_error(m: Module, cond: ValueId, t: ValueId, f: ValueId, fmf: FastMathFlags) -> Option<IrError> {
    if !m.valid_value(cond) || !m.valid_value(t) || !m.valid_value(f) {
        Some(IrError::ForeignValueId)
    } else if m.ty_of(t) != m.ty_of(f) {
        Some(IrError::TypeMismatch { expected: kind_label_of(m.shape_of(t)), got: kind_label_of(m.shape_of(f)) })
    } else if m.shape_of(t) == TypeData::Token {
        Some(IrError::InvalidOperation { message: "select values cannot have token type" })
    } else if m.shape_of(cond) is FixedVector && m.types()[m.shape_of(cond)->FixedVector_elem.0 as int] != (TypeData::Integer { bits: 1 }) {
        Some(IrError::InvalidOperation { message: "vector select condition element type must be i1" })
    } else if m.shape_of(cond) is FixedVector && !(m.shape_of(t) is FixedVector && m.shape_of(t)->FixedVector_n == m.shape_of(cond)->FixedVector_n) {
        Some(IrError::InvalidOperation { message: "vector select requires selected vectors to have the same vector length as select condition" })
    } else if !(m.shape_of(cond) is FixedVector) && m.shape_of(cond) != (TypeData::Integer { bits: 1 }) {
        Some(IrError::InvalidOperation { message: "select condition must be i1 or <n x i1>" })
    } else if fmf.bits != 0 && !is_fp_or_fp_vector(m.types(), m.ty_of(t)) {
        Some(IrError::InvalidOperation { message: "fast-math flags require a floating-point select result" })
    } else {
        None
    }
}

/// Why `ret value` is refused, or `None`.
pub open spec fn ret_error(s: BuilderState, value: ValueId) -> Option<IrError> {
    let ret = s.module.functions()[parent_function(s).0 as int].ret;
    if !s.module.valid_value(value) {
        Some(IrError::ForeignValueId)
    } else if s.module.ty_of(value) != ret {
        Some(IrError::ReturnTypeMismatch { expected: kind_label_of(s.module.types()[ret.0 as int]), got: kind_label_of(s.module.shape_of(value)) })
    } else {
        None
    }
}

/// Why `ret void` is refused, or `None`.
pub open spec fn ret_void_error(s: BuilderState) -> Option<IrError> {
    let ret = s.module.functions()[parent_function(s).0 as int].ret;
    if s.module.types()[ret.0 as int] != TypeData::Void {
        Some(IrError::ReturnTypeMismatch { expected: kind_label_of(s.module.types()[ret.0 as int]), got: TypeKindLabel::Void })
    } else {
        None
    }
}

/// Why a conditional branch carrying no argument is refused, or `None`.
pub open spec fn cond_br_error(m: Module, cond: ValueId, then_bb: BlockId, else_bb: BlockId) -> Option<IrError> {
    if plain_edge_error(m, then_bb) is Some {
        plain_edge_error(m, then_bb)
    } else if plain_edge_error(m, else_bb) is Some {
        plain_edge_error(m, else_bb)
    } else {
        bool_operand_error(m, cond)
    }
}

/// Number of phis that begin `insts`, counting at most `cap`.
pub open spec fn leading_phis(m: Module, insts: Seq<ValueId>, cap: nat) -> nat
    decreases cap,
{
    if cap == 0 || insts.len() == 0 || !is_phi(m, insts[0]) {
        0
    } else {
        1 + leading_phis(m, insts.drop_first(), (cap - 1) as nat)
    }
}

/// The parameters of block `b`: the phis that begin it, at most as many
/// as it declares.
pub open spec fn block_param_phis(m: Module, b: BlockId) -> Seq<ValueId> {
    let insts = m.blocks()[b.0 as int].insts@;
    insts.take(leading_phis(m, insts, m.blocks()[b.0 as int].params as nat) as int)
}

/// Why an edge that carries no argument cannot go to `target`, or `None`.
pub open spec fn plain_edge_error(m: Module, target: BlockId) -> Option<IrError> {
    if !m.valid_block(target) {
        Some(IrError::ForeignValueId)
    } else if block_param_phis(m, target).len() != 0 {
        Some(IrError::PhiArgArityMismatch { expected: block_param_phis(m, target).len() as usize, got: 0 })
    } else {
        None
    }
}

/// Why `args[i..]` cannot feed the parameters `phis[i..]`, or `None`: the
/// first argument that is unknown or of another type than its parameter.
pub open spec fn arg_error(m: Module, phis: Seq<ValueId>, args: Seq<ValueId>, i: nat) -> Option<IrError>
    decreases args.len() - i,
{
    if i >= args.len() {
        None
    } else if !m.valid_value(args[i as int]) {
        Some(IrError::ForeignValueId)
    } else if m.ty_of(args[i as int]) != m.ty_of(phis[i as int]) {
        Some(IrError::TypeMismatch { expected: kind_label_of(m.shape_of(phis[i as int])), got: kind_label_of(m.shape_of(args[i as int])) })
    } else {
        arg_error(m, phis, args, i + 1)
    }
}

/// Why the arguments `args` cannot go down an edge to `target`, or `None`.
pub open spec fn edge_error(m: Module, target: BlockId, args: Seq<ValueId>) -> Option<IrError> {
    let phis = block_param_phis(m, target);
    if phis.len() != args.len() {
        Some(IrError::PhiArgArityMismatch { expected: phis.len() as usize, got: args.len() as usize })
    } else {
        arg_error(m, phis, args, 0)
    }
}

/// Why a conditional branch carrying arguments is refused before any
/// edge is seeded, or `None`.
pub open spec fn cond_args_error(m: Module, cond: ValueId, then_bb: BlockId, then_args: Seq<ValueId>, else_bb: BlockId) -> Option<IrError> {
    if !m.valid_block(then_bb) || !m.valid_block(else_bb) {
        Some(IrError::ForeignValueId)
    } else if bool_operand_error(m, cond) is Some {
        bool_operand_error(m, cond)
    } else {
        edge_error(m, then_bb, then_args)
    }
}

/// Incoming pairs of the phi `p` once the first `k` pairs (`args[j]`,
/// `pred`) have been added to `phis[j]`, in order.
pub open spec fn seeded(m: Module, phis: Seq<ValueId>, args: Seq<ValueId>, pred: BlockId, p: ValueId, k: nat)
    -> (Seq<ValueId>, Seq<BlockId>)
    decreases k,
{
    if k == 0 {
        phi_incoming(m, p).unwrap()
    } else {
        let prev = seeded(m, phis, args, pred, p, (k - 1) as nat);
        if phis[k - 1] == p {
            (prev.0.push(args[k - 1]), prev.1.push(pred))
        } else {
            prev
        }
    }
}

/// The pair (`args[j]`, `pred`) is refused once the first `j` are added:
/// `phis[j]` already has another value for `pred`.
pub open spec fn seed_conflict(m: Module, phis: Seq<ValueId>, args: Seq<ValueId>, pred: BlockId, j: nat) -> bool {
    let inc = seeded(m, phis, args, pred, phis[j as int], j);
    exists|i: int| 0 <= i < inc.1.len() && i < inc.0.len() && #[trigger] inc.1[i] == pred && inc.0[i] != args[j as int]
}

/// Index of the first refused pair among `lo..hi`, or `hi` when none is.
pub open spec fn seed_stop(m: Module, phis: Seq<ValueId>, args: Seq<ValueId>, pred: BlockId, lo: nat, hi: nat) -> nat
    decreases hi - lo,
{
    if lo >= hi {
        hi
    } else if seed_conflict(m, phis, args, pred, lo) {
        lo
    } else {
        seed_stop(m, phis, args, pred, lo + 1, hi)
    }
}

/// `new` is `old` once the first `k` pairs (`args[j]`, `pred`) are added
/// to the phis `phis[j]`, each phi becoming a user of its value and of
/// `pred`: nothing else changes.
pub open spec fn seeded_state(old: Module, new: Module, phis: Seq<ValueId>, args: Seq<ValueId>, pred: BlockId, k: nat) -> bool {
    &&& new.wf()
    &&& new.types() == old.types()
    &&& new.blocks() == old.blocks()
    &&& new.functions() == old.functions()
    &&& new.name_spec() == old.name_spec()
    &&& new.values().len() == old.values().len()
    &&& new.uses() == old.uses() + Seq::new(k, |j: int| (args[j], phis[j]))
    &&& new.block_uses() == old.block_uses() + Seq::new(k, |j: int| (pred, phis[j]))
    &&& forall|v: ValueId| v.0 < old.values().len() && !phis.contains(v)
            ==> #[trigger] new.values()[v.0 as int] == old.values()[v.0 as int]
    &&& forall|j: int| 0 <= j < phis.len() ==> {
            &&& new.values()[(#[trigger] phis[j]).0 as int].ty == old.values()[phis[j].0 as int].ty
            &&& new.values()[phis[j].0 as int].name == old.values()[phis[j].0 as int].name
            &&& inst_block(new, phis[j]) == inst_block(old, phis[j])
            &&& phi_incoming(new, phis[j]) == Some(seeded(old, phis, args, pred, phis[j], k))
        }
}

/// A branch whose edges carry arguments: refused with `err` (everything
/// unchanged); or the pairs (`args[j]`, insertion block) are added to the
/// parameter phis `phis[j]` in order: the first `split` of them, then,
/// unless `mid_err` refuses the remaining edge, the others; a pair refused
/// for a different value already present stops there with
/// `AmbiguousPhiIncoming`, keeping the pairs added before it. When all
/// are added, the terminator `op operands targets` ends the block as
/// `term_emit` says.
pub open spec fn seeded_branch(old: BuilderState, new: BuilderState, r: IrResult<(BlockId, ValueId)>,
    err: Option<IrError>, phis: Seq<ValueId>, args: Seq<ValueId>, split: nat, mid_err: Option<IrError>,
    op: Opcode, operands: Seq<ValueId>, targets: Seq<BlockId>) -> bool
{
    let m = old.module;
    let pred = old.block.unwrap();
    let first = seed_stop(m, phis, args, pred, 0, split);
    let rest = seed_stop(m, phis, args, pred, split, phis.len());
    &&& state_ok(new)
    &&& (err matches Some(e) ==> r == Err::<(BlockId, ValueId), IrError>(e) && new == old)
    &&& (err is None ==> {
        if first < split {
            &&& r == Err::<(BlockId, ValueId), IrError>(ambiguous_incoming(m, pred))
            &&& same_place(old, new)
            &&& seeded_state(m, new.module, phis, args, pred, first)
        } else if mid_err is Some {
            &&& r == Err::<(BlockId, ValueId), IrError>(mid_err.unwrap())
            &&& same_place(old, new)
            &&& seeded_state(m, new.module, phis, args, pred, split)
        } else if rest < phis.len() {
            &&& r == Err::<(BlockId, ValueId), IrError>(ambiguous_incoming(m, pred))
            &&& same_place(old, new)
            &&& seeded_state(m, new.module, phis, args, pred, rest)
        } else {
            exists|mid: Module| #[trigger] seeded_state(m, mid, phis, args, pred, phis.len())
                && term_emit(with_module(old, mid), new, r, None, op, operands, targets)
        }
    })
}

/// `new` is `old` with block `b` appended to the function `f`, named
/// `name`, holding as its parameters one phi without incoming value per
/// entry of `tys` (of that type and named by `names`), in order; `vs`
/// are those phis.
pub open spec fn params_block_added(old: Module, new: Module, f: FunctionId, name: Seq<char>, tys: Seq<TypeId>,
    names: Seq<Seq<char>>, b: BlockId, vs: Seq<ValueId>) -> bool
{
    &&& new.wf()
    &&& b.0 == old.blocks().len()
    &&& new.blocks().len() == old.blocks().len() + 1
    &&& new.blocks().take(old.blocks().len() as int) == old.blocks()
    &&& new.blocks()[b.0 as int].name@ == name
    &&& new.blocks()[b.0 as int].function == f
    &&& new.blocks()[b.0 as int].insts@ == vs
    &&& new.blocks()[b.0 as int].params == tys.len()
    &&& vs.len() == tys.len()
    &&& new.values().len() == old.values().len() + tys.len()
    &&& new.values().take(old.values().len() as int) == old.values()
    &&& forall|k: int| 0 <= k < tys.len() ==> {
            &&& (#[trigger] vs[k]).0 == old.values().len() + k
            &&& new.values()[vs[k].0 as int].ty == tys[k]
            &&& new.values()[vs[k].0 as int].name@ == local_name(old, tys[k], names[k])
            &&& inst_shape(new.values()[vs[k].0 as int].kind, Opcode::Phi, Seq::<ValueId>::empty(), Seq::<BlockId>::empty(), b, no_flags())
        }
    &&& new.types() == old.types()
    &&& new.name_spec() == old.name_spec()
    &&& new.functions().len() == old.functions().len()
    &&& new.functions()[f.0 as int].blocks@ == old.functions()[f.0 as int].blocks@.push(b)
    &&& new.functions()[f.0 as int].name == old.functions()[f.0 as int].name
    &&& new.functions()[f.0 as int].ret == old.functions()[f.0 as int].ret
    &&& new.functions()[f.0 as int].params == old.functions()[f.0 as int].params
    &&& forall|g: int| 0 <= g < old.functions().len() && g != f.0 ==> #[trigger] new.functions()[g] == old.functions()[g]
}

/// Why a block with parameters of the types `tys` cannot be appended to
/// the function `f`, or `None`.
pub open spec fn params_block_error(m: Module, f: FunctionId, tys: Seq<TypeId>) -> Option<IrError> {
    if !m.valid_function(f) || exists|k: int| 0 <= k < tys.len() && !m.valid_type(#[trigger] tys[k]) {
        Some(IrError::ForeignValueId)
    } else {
        None
    }
}

/// `v` is a phi.
pub open spec fn is_phi(m: Module, v: ValueId) -> bool {
    m.values()[v.0 as int].kind matches ValueKind::Instruction { op: Opcode::Phi, .. }
}

/// `a` is where a new phi goes in `insts`: before the first instruction
/// that is not a phi, or at the end when there is none.
pub open spec fn phi_head_anchor(m: Module, insts: Seq<ValueId>, a: Option<ValueId>) -> bool {
    match a {
        Some(x) => exists|p: int| 0 <= p < insts.len() && insts[p] == x && !is_phi(m, x)
            && forall|j: int| 0 <= j < p ==> is_phi(m, #[trigger] insts[j]),
        None => forall|j: int| 0 <= j < insts.len() ==> is_phi(m, #[trigger] insts[j]),
    }
}

/// Why `ty` is not a type of the kind `expected` names, or `None`
/// (`expected` other than integer, float or pointer accepts any type).
pub open spec fn type_shape_error(m: Module, ty: TypeId, expected: TypeKindLabel) -> Option<IrError> {
    if !m.valid_type(ty) {
        Some(IrError::ForeignValueId)
    } else if (expected is Integer && !(m.types()[ty.0 as int] is Integer))
        || (expected is Float && !(m.types()[ty.0 as int] is Float))
        || (expected is Pointer && !(m.types()[ty.0 as int] is Pointer)) {
        Some(IrError::TypeMismatch { expected, got: kind_label_of(m.types()[ty.0 as int]) })
    } else {
        None
    }
}

/// A phi of type `ty` with no incoming value: refused with `err`, or
/// inserted after the phis that begin the insertion block.
pub open spec fn phi_emit(old: BuilderState, new: BuilderState, r: IrResult<ValueId>, err: Option<IrError>, ty: TypeId, name: Seq<char>) -> bool {
    &&& state_ok(new)
    &&& same_place(old, new)
    &&& (err matches Some(e) ==> r == Err::<ValueId, IrError>(e) && new == old)
    &&& (err is None ==> (r matches Ok(v) && exists|a: Option<ValueId>|
            #[trigger] phi_head_anchor(old.module, old.module.blocks()[old.block.unwrap().0 as int].insts@, a)
            && inst_added(old.module, new.module, v, old.block.unwrap(), a, ty, Opcode::Phi, Seq::<ValueId>::empty(),
                Seq::<BlockId>::empty(), no_flags(), name)))
}

/// The refusal of a second, different incoming value from the block `b`,
/// which names that block.
pub open spec fn ambiguous_incoming(m: Module, b: BlockId) -> IrError {
    IrError::AmbiguousPhiIncoming { block: m.blocks()[b.0 as int].name }
}

/// Why the pair (`val`, `block`) cannot be added to the phi `phi`, or `None`.
pub open spec fn phi_incoming_error(m: Module, phi: ValueId, val: ValueId, block: BlockId) -> Option<IrError> {
    if !m.valid_value(phi) || !m.valid_value(val) || !m.valid_block(block) {
        Some(IrError::ForeignValueId)
    } else if !(m.values()[phi.0 as int].kind is Instruction) {
        Some(IrError::InvalidOperation { message: "phi_add_incoming_from_value: target is not an instruction" })
    } else if phi_incoming(m, phi) is None {
        Some(IrError::InvalidOperation { message: "phi_add_incoming_from_value: instruction is not a phi" })
    } else if m.ty_of(val) != m.ty_of(phi) {
        Some(IrError::TypeMismatch { expected: kind_label_of(m.shape_of(phi)), got: kind_label_of(m.shape_of(val)) })
    } else if exists|k: int| 0 <= k < phi_incoming(m, phi).unwrap().1.len() && k < phi_incoming(m, phi).unwrap().0.len()
        && #[trigger] phi_incoming(m, phi).unwrap().1[k] == block && phi_incoming(m, phi).unwrap().0[k] != val {
        Some(ambiguous_incoming(m, block))
    } else {
        None
    }
}

/// Width of the integer `ty` or of the elements of the integer vector `ty`.
pub open spec fn scalar_int_bits(types: Seq<TypeData>, ty: TypeId) -> Option<u32> {
    match types[ty.0 as int] {
        TypeData::Integer { bits } => Some(bits),
        TypeData::FixedVector { elem, .. } => match types[elem.0 as int] {
            TypeData::Integer { bits } => Some(bits),
            _ => None,
        },
        _ => None,
    }
}

/// Element count of the vector `ty`, `None` for a scalar.
pub open spec fn vector_len(types: Seq<TypeData>, ty: TypeId) -> Option<u32> {
    match types[ty.0 as int] {
        TypeData::FixedVector { n, .. } => Some(n),
        _ => None,
    }
}

/// Why the erased integer cast `op src to dst` is refused, or `None`.
pub open spec fn int_cast_erased_error(m: Module, op: CastOpcode, src: ValueId, dst: TypeId) -> Option<IrError> {
    if !(op is Trunc || op is ZExt || op is SExt) {
        Some(IrError::InvalidOperation { message: "opcode is not trunc, zext or sext" })
    } else if !m.valid_value(src) || !m.valid_type(dst) {
        Some(IrError::ForeignValueId)
    } else if scalar_int_bits(m.types(), m.ty_of(src)) is None || scalar_int_bits(m.types(), dst) is None {
        Some(IrError::InvalidOperation { message: "trunc/zext/sext operand is neither an integer nor an integer vector" })
    } else if vector_len(m.types(), m.ty_of(src)) != vector_len(m.types(), dst) {
        Some(IrError::InvalidOperation { message: "trunc/zext/sext changes the vector element count" })
    } else if (op is Trunc && scalar_int_bits(m.types(), dst).unwrap() >= scalar_int_bits(m.types(), m.ty_of(src)).unwrap())
        || (!(op is Trunc) && scalar_int_bits(m.types(), dst).unwrap() <= scalar_int_bits(m.types(), m.ty_of(src)).unwrap()) {
        Some(IrError::OperandWidthMismatch { lhs: scalar_int_bits(m.types(), m.ty_of(src)).unwrap(), rhs: scalar_int_bits(m.types(), dst).unwrap() })
    } else {
        None
    }
}

/// The `nneg`, `nuw` and `nsw` flags of `f`.
pub open spec fn int_cast_erased_flags(f: InstFlags) -> InstFlags {
    InstFlags { nuw: f.nuw, nsw: f.nsw, exact: false, disjoint: false, nneg: f.nneg, samesign: false, fmf: FastMathFlags { bits: 0 } }
}

/// Why `v` cannot be used as a pointer operand, or `None`.
pub open spec fn pointer_operand_error(m: Module, v: ValueId) -> Option<IrError> {
    if !m.valid_value(v) {
        Some(IrError::ForeignValueId)
    } else if !(m.shape_of(v) is Pointer) {
        Some(IrError::TypeMismatch { expected: TypeKindLabel::Pointer, got: kind_label_of(m.shape_of(v)) })
    } else {
        None
    }
}

/// An instruction inserted without folding: refused with `err`
/// (everything unchanged), or inserted with result type `ty`.
pub open spec fn plain_emit(old: BuilderState, new: BuilderState, r: IrResult<ValueId>, err: Option<IrError>,
    ty: TypeId, op: Opcode, operands: Seq<ValueId>, name: Seq<char>) -> bool
{
    &&& state_ok(new)
    &&& same_place(old, new)
    &&& (err matches Some(e) ==> r == Err::<ValueId, IrError>(e) && new == old)
    &&& (err is None ==> (r matches Ok(v) && inst_added(old.module, new.module, v, old.block.unwrap(), old.before, ty, op,
            operands, Seq::<BlockId>::empty(), no_flags(), name)))
}

/// Like [`plain_emit`] for an instruction whose result type, of shape
/// `shape`, is interned first.
pub open spec fn interned_emit(old: BuilderState, new: BuilderState, r: IrResult<ValueId>, err: Option<IrError>,
    shape: TypeData, op: Opcode, operands: Seq<ValueId>, name: Seq<char>) -> bool
{
    &&& state_ok(new)
    &&& same_place(old, new)
    &&& (err matches Some(e) ==> r == Err::<ValueId, IrError>(e) && new == old)
    &&& (err is None ==> (r matches Ok(v) && exists|mid: Module, t: TypeId| {
        &&& module_grew_types(old.module, mid)
        &&& mid.valid_type(t)
        &&& #[trigger] mid.types()[t.0 as int] == shape
        &&& inst_added(mid, new.module, v, old.block.unwrap(), old.before, t, op, operands, Seq::<BlockId>::empty(), no_flags(), name)
    }))
}

/// Why `load ty, ptr` is refused, or `None`: `ty` must be a type of the
/// kind `expected` names (any type for other labels) and `ptr` a pointer.
pub open spec fn load_error(m: Module, ty: TypeId, ptr: ValueId, expected: TypeKindLabel) -> Option<IrError> {
    if type_shape_error(m, ty, expected) is Some {
        type_shape_error(m, ty, expected)
    } else {
        pointer_operand_error(m, ptr)
    }
}

/// `ForeignValueId` when one of `vs` is not a value of the module.
pub open spec fn values_error(m: Module, vs: Seq<ValueId>) -> Option<IrError> {
    if exists|k: int| 0 <= k < vs.len() && !m.valid_value(#[trigger] vs[k]) {
        Some(IrError::ForeignValueId)
    } else {
        None
    }
}

/// Why an exception-handling return or switch is refused, or `None`: its
/// pad operands must be values and its destinations blocks of the module.
pub open spec fn pad_term_error(m: Module, vs: Seq<ValueId>, targets: Seq<BlockId>) -> Option<IrError> {
    if values_error(m, vs) is Some || exists|k: int| 0 <= k < targets.len() && !m.valid_block(#[trigger] targets[k]) {
        Some(IrError::ForeignValueId)
    } else {
        None
    }
}

/// Like [`term_emit`] for a terminator of type `token` named `name`.
pub open spec fn token_term_emit(old: BuilderState, new: BuilderState, r: IrResult<(BlockId, ValueId)>, err: Option<IrError>,
    op: Opcode, operands: Seq<ValueId>, targets: Seq<BlockId>, name: Seq<char>) -> bool
{
    &&& state_ok(new)
    &&& (err matches Some(e) ==> r == Err::<(BlockId, ValueId), IrError>(e) && new == old)
    &&& (err is None ==> {
        &&& r is Ok
        &&& r->Ok_0.0 == old.block.unwrap()
        &&& new.block is None
        &&& new.before is None
        &&& new.fmf == old.fmf
        &&& exists|mid: Module, t: TypeId| {
            &&& module_grew_types(old.module, mid)
            &&& mid.valid_type(t)
            &&& #[trigger] mid.types()[t.0 as int] == TypeData::Token
            &&& inst_added(mid, new.module, r->Ok_0.1, old.block.unwrap(), old.before, t, op, operands, targets, no_flags(), name)
        }
    })
}

/// Why `va_arg list, ty` is refused, or `None`: the list must be a
/// pointer and the type one of the module's.
pub open spec fn va_arg_error(m: Module, list: ValueId, ty: TypeId) -> Option<IrError> {
    if pointer_operand_error(m, list) is Some {
        pointer_operand_error(m, list)
    } else {
        type_shape_error(m, ty, TypeKindLabel::Void)
    }
}

/// Why two values cannot be compared as pointers, or `None`.
pub open spec fn pointer_pair_error(m: Module, lhs: ValueId, rhs: ValueId) -> Option<IrError> {
    if pointer_operand_error(m, lhs) is Some {
        pointer_operand_error(m, lhs)
    } else {
        pointer_operand_error(m, rhs)
    }
}

/// Compares `ptr` with the null pointer of its type: refused when `ptr`
/// is not a pointer, or the null constant is added and the comparison
/// behaves as [`compare_emit`].
pub open spec fn null_compare_emit<F: IRBuilderFolder>(old: BuilderState, new: BuilderState, r: IrResult<ValueId>, folder: F, pred: IntPredicate,
    ptr: ValueId, name: Seq<char>) -> bool
{
    &&& state_ok(new)
    &&& same_place(old, new)
    &&& (pointer_operand_error(old.module, ptr) matches Some(e) ==> r == Err::<ValueId, IrError>(e) && new == old)
    &&& (pointer_operand_error(old.module, ptr) is None ==> {
        let null = ValueId(old.module.values().len() as usize);
        exists|mid: Module| {
            &&& #[trigger] constant_added(old.module, mid, null, old.module.ty_of(ptr))
            &&& mid.values()[null.0 as int].kind == ValueKind::ConstNull
            &&& compare_emit(with_module(old, mid), new, r, asks_pointer_compare(folder, pred, ptr, null), None,
                    Opcode::ICmp(pred), ptr, null, no_flags(), name)
        }
    })
}

/// Why `ptr` cannot be cast to the pointer type `dst`, or `None`.
pub open spec fn pointer_cast_error(m: Module, ptr: ValueId, dst: TypeId) -> Option<IrError> {
    if !m.valid_value(ptr) || !m.valid_type(dst) {
        Some(IrError::ForeignValueId)
    } else if !(m.shape_of(ptr) is Pointer) {
        Some(IrError::TypeMismatch { expected: TypeKindLabel::Pointer, got: kind_label_of(m.shape_of(ptr)) })
    } else if !(m.types()[dst.0 as int] is Pointer) {
        Some(IrError::TypeMismatch { expected: TypeKindLabel::Pointer, got: kind_label_of(m.types()[dst.0 as int]) })
    } else {
        None
    }
}

/// `bitcast` between pointers of one address space, else `addrspacecast`.
pub open spec fn pointer_cast_op(m: Module, ptr: ValueId, dst: TypeId) -> CastOpcode {
    if m.shape_of(ptr)->addr_space == m.types()[dst.0 as int]->addr_space { CastOpcode::BitCast } else { CastOpcode::AddrSpaceCast }
}

/// Why `extractelement vector, index` is refused, or `None`.
pub open spec fn extract_element_error(m: Module, vector: ValueId, index: ValueId) -> Option<IrError> {
    if !m.valid_value(vector) {
        Some(IrError::ForeignValueId)
    } else if int_operand_error(m, index) is Some {
        int_operand_error(m, index)
    } else if !(m.shape_of(vector) is FixedVector) {
        Some(IrError::TypeMismatch { expected: TypeKindLabel::FixedVector, got: kind_label_of(m.shape_of(vector)) })
    } else {
        None
    }
}

/// Why `insertelement vector, element, index` is refused, or `None`.
pub open spec fn insert_element_error(m: Module, vector: ValueId, element: ValueId, index: ValueId) -> Option<IrError> {
    if !m.valid_value(vector) || !m.valid_value(element) {
        Some(IrError::ForeignValueId)
    } else {
        int_operand_error(m, index)
    }
}

/// Why `shufflevector lhs, rhs` with a mask of `n` lanes is refused, or `None`.
pub open spec fn shuffle_error(m: Module, lhs: ValueId, rhs: ValueId, n: nat) -> Option<IrError> {
    if !m.valid_value(lhs) || !m.valid_value(rhs) {
        Some(IrError::ForeignValueId)
    } else if m.ty_of(lhs) != m.ty_of(rhs) {
        Some(IrError::TypeMismatch { expected: kind_label_of(m.shape_of(lhs)), got: kind_label_of(m.shape_of(rhs)) })
    } else if !(m.shape_of(lhs) is FixedVector) {
        Some(IrError::TypeMismatch { expected: TypeKindLabel::FixedVector, got: kind_label_of(m.shape_of(lhs)) })
    } else if n > u32::MAX {
        Some(IrError::InvalidOperation { message: "shufflevector mask too large" })
    } else {
        None
    }
}

/// A shuffle: refused with `err`; or the vector type of the elements of
/// `lhs` with one lane per entry of `mask` is interned, and the result is
/// the folder's or the new `shufflevector lhs, rhs` as [`emitted`] says;
/// a new instruction carries `mask`.
pub open spec fn shuffle_emit<F: IRBuilderFolder>(old: BuilderState, new: BuilderState, r: IrResult<ValueId>, folder: F, err: Option<IrError>,
    lhs: ValueId, rhs: ValueId, mask: Seq<ShuffleMaskElem>, name: Seq<char>) -> bool
{
    &&& state_ok(new)
    &&& same_place(old, new)
    &&& (err matches Some(e) ==> r == Err::<ValueId, IrError>(e) && new == old)
    &&& (err is None ==> exists|mid: Module, t: TypeId| {
        &&& module_grew_types(old.module, mid)
        &&& mid.valid_type(t)
        &&& #[trigger] mid.types()[t.0 as int] == (TypeData::FixedVector { elem: old.module.shape_of(lhs)->FixedVector_elem, n: mask.len() as u32 })
        &&& emitted(with_module(old, mid), new.module, r, asks_shuffle(folder, lhs, rhs, mask), t, Opcode::ShuffleVector, seq![lhs, rhs], no_flags(), name)
        &&& (r is Ok ==> (r->Ok_0.0 == mid.values().len() && new.module.values()[r->Ok_0.0 as int].kind is Instruction
                ==> new.module.values()[r->Ok_0.0 as int].kind->mask@ == mask))
    })
}

/// Why `v` cannot stand where a vector is required, or `None` (an
/// unknown value is left to the checks that follow).
pub open spec fn vector_kind_error(m: Module, v: ValueId) -> Option<IrError> {
    if m.valid_value(v) && !(m.shape_of(v) is FixedVector) {
        Some(IrError::TypeMismatch { expected: TypeKindLabel::FixedVector, got: kind_label_of(m.shape_of(v)) })
    } else {
        None
    }
}

/// Why `element` cannot go into a lane of the vector `vector`, or `None`.
pub open spec fn lane_error(m: Module, vector: ValueId, element: ValueId) -> Option<IrError> {
    if vector_kind_error(m, vector) is Some {
        vector_kind_error(m, vector)
    } else if m.valid_value(vector) && m.valid_value(element) && m.ty_of(element) != m.shape_of(vector)->FixedVector_elem {
        Some(IrError::TypeMismatch { expected: kind_label_of(m.types()[m.shape_of(vector)->FixedVector_elem.0 as int]),
            got: kind_label_of(m.shape_of(element)) })
    } else {
        None
    }
}

/// Why the cases `cases[i..]` (value and target) of a switch on `cond`
/// are refused, or `None`: an unknown case value, one of another type
/// than `cond`, or a target that is unknown or has parameters.
pub open spec fn case_error(m: Module, cond: ValueId, cases: Seq<(ValueId, BlockId)>, i: nat) -> Option<IrError>
    decreases cases.len() - i,
{
    if i >= cases.len() {
        None
    } else if !m.valid_value(cases[i as int].0) {
        Some(IrError::ForeignValueId)
    } else if m.ty_of(cases[i as int].0) != m.ty_of(cond) {
        Some(IrError::TypeMismatch { expected: kind_label_of(m.shape_of(cond)), got: kind_label_of(m.shape_of(cases[i as int].0)) })
    } else if plain_edge_error(m, cases[i as int].1) is Some {
        plain_edge_error(m, cases[i as int].1)
    } else {
        case_error(m, cond, cases, i + 1)
    }
}

/// Why a switch on `cond` to `default` with `cases` and no argument is
/// refused, or `None`; `typed` asks `cond` to be an integer.
pub open spec fn switch_error(m: Module, cond: ValueId, default: BlockId, cases: Seq<(ValueId, BlockId)>, typed: bool) -> Option<IrError> {
    if typed && !m.valid_value(cond) {
        Some(IrError::ForeignValueId)
    } else if typed && !(m.shape_of(cond) is Integer) {
        Some(IrError::TypeMismatch { expected: TypeKindLabel::Integer, got: kind_label_of(m.shape_of(cond)) })
    } else if plain_edge_error(m, default) is Some {
        plain_edge_error(m, default)
    } else if !m.valid_value(cond) {
        Some(IrError::ForeignValueId)
    } else {
        case_error(m, cond, cases, 0)
    }
}

/// The value operands of a switch: the condition, then the case values.
pub open spec fn switch_operands(cond: ValueId, cases: Seq<(ValueId, BlockId)>) -> Seq<ValueId> {
    seq![cond] + cases.map_values(|c: (ValueId, BlockId)| c.0)
}

/// The successors of a switch: the default, then the case targets.
pub open spec fn switch_targets(default: BlockId, cases: Seq<(ValueId, BlockId)>) -> Seq<BlockId> {
    seq![default] + cases.map_values(|c: (ValueId, BlockId)| c.1)
}

/// The first case value among `cases[i..]` of another type than `cond`,
/// as an error, or `None`.
pub open spec fn case_type_error(m: Module, cond: ValueId, cases: Seq<(ValueId, BlockId)>, i: nat) -> Option<IrError>
    decreases cases.len() - i,
{
    if i >= cases.len() {
        None
    } else if m.ty_of(cases[i as int].0) != m.ty_of(cond) {
        Some(IrError::TypeMismatch { expected: kind_label_of(m.shape_of(cond)), got: kind_label_of(m.shape_of(cases[i as int].0)) })
    } else {
        case_type_error(m, cond, cases, i + 1)
    }
}

/// Why a switch whose edges carry arguments is refused before any edge
/// is checked, or `None`: something unknown, a condition that is not an
/// integer (when `typed`), or a case value of another type than `cond`.
pub open spec fn switch_args_error(m: Module, cond: ValueId, default: BlockId, cases: Seq<(ValueId, BlockId)>, typed: bool) -> Option<IrError> {
    if !m.valid_value(cond) {
        Some(IrError::ForeignValueId)
    } else if typed && !(m.shape_of(cond) is Integer) {
        Some(IrError::TypeMismatch { expected: TypeKindLabel::Integer, got: kind_label_of(m.shape_of(cond)) })
    } else if exists|k: int| 0 <= k < cases.len() && (!m.valid_value(#[trigger] cases[k].0) || !m.valid_block(cases[k].1)) {
        Some(IrError::ForeignValueId)
    } else if !m.valid_block(default) {
        Some(IrError::ForeignValueId)
    } else {
        case_type_error(m, cond, cases, 0)
    }
}

/// The parameters of the targets of `edges`, one edge after another.
pub open spec fn edges_phis(m: Module, edges: Seq<(BlockId, Seq<ValueId>)>) -> Seq<ValueId>
    decreases edges.len(),
{
    if edges.len() == 0 {
        Seq::<ValueId>::empty()
    } else {
        edges_phis(m, edges.drop_last()) + block_param_phis(m, edges.last().0)
    }
}

/// The arguments of `edges`, one edge after another.
pub open spec fn edges_args(edges: Seq<(BlockId, Seq<ValueId>)>) -> Seq<ValueId>
    decreases edges.len(),
{
    if edges.len() == 0 {
        Seq::<ValueId>::empty()
    } else {
        edges_args(edges.drop_last()) + edges.last().1
    }
}

/// Index of the first of `edges[i..]` refused by [`edge_error`], or the
/// number of edges.
pub open spec fn first_bad_edge(m: Module, edges: Seq<(BlockId, Seq<ValueId>)>, i: nat) -> nat
    decreases edges.len() - i,
{
    if i >= edges.len() {
        edges.len()
    } else if edge_error(m, edges[i as int].0, edges[i as int].1) is Some {
        i
    } else {
        first_bad_edge(m, edges, i + 1)
    }
}

/// A branch over `edges`, each a target and the arguments it carries:
/// refused with `err` (everything unchanged); or each edge in turn is
/// checked as [`edge_error`] says, and its pairs (argument, insertion
/// block) added to its target's parameters. The first refused edge stops
/// there with its error, keeping the pairs of the edges before it; a pair
/// refused for a different value already present stops there with
/// `AmbiguousPhiIncoming`. When every edge is seeded, the terminator
/// `op operands targets` ends the block as `term_emit` says.
pub open spec fn edges_branch(old: BuilderState, new: BuilderState, r: IrResult<(BlockId, ValueId)>,
    err: Option<IrError>, edges: Seq<(BlockId, Seq<ValueId>)>, op: Opcode, operands: Seq<ValueId>, targets: Seq<BlockId>) -> bool
{
    let m = old.module;
    let pred = old.block.unwrap();
    let bad = first_bad_edge(m, edges, 0);
    let phis = edges_phis(m, edges.take(bad as int));
    let args = edges_args(edges.take(bad as int));
    let stop = seed_stop(m, phis, args, pred, 0, phis.len());
    &&& state_ok(new)
    &&& (err matches Some(e) ==> r == Err::<(BlockId, ValueId), IrError>(e) && new == old)
    &&& (err is None ==> {
        if stop < phis.len() {
            &&& r == Err::<(BlockId, ValueId), IrError>(ambiguous_incoming(m, pred))
            &&& same_place(old, new)
            &&& seeded_state(m, new.module, phis, args, pred, stop)
        } else if bad < edges.len() {
            &&& r == Err::<(BlockId, ValueId), IrError>(edge_error(m, edges[bad as int].0, edges[bad as int].1).unwrap())
            &&& same_place(old, new)
            &&& seeded_state(m, new.module, phis, args, pred, phis.len())
        } else {
            exists|mid: Module| #[trigger] seeded_state(m, mid, phis, args, pred, phis.len())
                && term_emit(with_module(old, mid), new, r, None, op, operands, targets)
        }
    })
}

/// The edges of a switch with arguments: the default, then the cases.
pub open spec fn switch_edges(default: (BlockId, Seq<ValueId>), cases: Seq<(ValueId, BlockId, Vec<ValueId>)>) -> Seq<(BlockId, Seq<ValueId>)> {
    seq![default] + cases.map_values(|c: (ValueId, BlockId, Vec<ValueId>)| (c.1, c.2@))
}

/// The value and target of each case of a switch with arguments.
pub open spec fn case_pairs(cases: Seq<(ValueId, BlockId, Vec<ValueId>)>) -> Seq<(ValueId, BlockId)> {
    cases.map_values(|c: (ValueId, BlockId, Vec<ValueId>)| (c.0, c.1))
}

/// The type reached from `t` by the aggregate indices `idx[i..]`, or the
/// error of the first index that does not apply: one past the end of an
/// array, or one into a type that is not an aggregate.
pub open spec fn walk_aggregate(types: Seq<TypeData>, structs: Seq<StructBody>, t: TypeId, idx: Seq<u32>, i: nat) -> Result<TypeId, IrError>
    decreases idx.len() - i,
{
    if i >= idx.len() {
        Ok(t)
    } else {
        match types[t.0 as int] {
            TypeData::Array { elem, n } => if idx[i as int] >= n {
                Err(IrError::AggregateIndexOutOfRange { index: idx[i as int], count: n })
            } else {
                walk_aggregate(types, structs, elem, idx, i + 1)
            },
            TypeData::Struct { body } => match structs[body as int].fields {
                Some(fs) => if idx[i as int] as nat >= fs@.len() {
                    Err(IrError::AggregateIndexOutOfRange { index: idx[i as int], count: fs@.len() as u64 })
                } else {
                    walk_aggregate(types, structs, fs@[idx[i as int] as int], idx, i + 1)
                },
                None => Err(IrError::TypeMismatch { expected: TypeKindLabel::Struct, got: TypeKindLabel::Struct }),
            },
            d => Err(IrError::TypeMismatch { expected: TypeKindLabel::Struct, got: kind_label_of(d) }),
        }
    }
}

/// Why `extractvalue agg, idx...` is refused, or `None`.
pub open spec fn extract_value_error(m: Module, agg: ValueId, idx: Seq<u32>) -> Option<IrError> {
    if !m.valid_value(agg) {
        Some(IrError::ForeignValueId)
    } else if idx.len() == 0 {
        Some(IrError::InvalidOperation { message: "extractvalue indices must not be empty" })
    } else {
        match walk_aggregate(m.types(), m.structs(), m.ty_of(agg), idx, 0) {
            Err(e) => Some(e),
            Ok(_) => None,
        }
    }
}

/// Why `insertvalue agg, val, idx...` is refused, or `None`.
pub open spec fn insert_value_error(m: Module, agg: ValueId, val: ValueId, idx: Seq<u32>) -> Option<IrError> {
    if !m.valid_value(agg) || !m.valid_value(val) {
        Some(IrError::ForeignValueId)
    } else if idx.len() == 0 {
        Some(IrError::InvalidOperation { message: "insertvalue indices must not be empty" })
    } else {
        match walk_aggregate(m.types(), m.structs(), m.ty_of(agg), idx, 0) {
            Err(e) => Some(e),
            Ok(leaf) => if m.ty_of(val) != leaf {
                Some(IrError::TypeMismatch { expected: kind_label_of(m.types()[leaf.0 as int]), got: kind_label_of(m.shape_of(val)) })
            } else {
                None
            },
        }
    }
}

/// Like [`checked_emit`] for an instruction carrying the aggregate
/// indices `idx`: a new instruction carries them.
pub open spec fn indexed_emit(old: BuilderState, new: BuilderState, r: IrResult<ValueId>, answers: FoldAnswers, err: Option<IrError>,
    ty: TypeId, op: Opcode, operands: Seq<ValueId>, idx: Seq<u32>, name: Seq<char>) -> bool
{
    &&& checked_emit(old, new, r, answers, err, ty, op, operands, no_flags(), name)
    &&& (err is None && r is Ok ==> (r->Ok_0.0 == old.module.values().len() && new.module.values()[r->Ok_0.0 as int].kind is Instruction
            ==> new.module.values()[r->Ok_0.0 as int].kind->indices@ == idx))
}

/// Why `v` cannot stand where an array is required, or `None` (an
/// unknown value is left to the checks that follow).
pub open spec fn array_kind_error(m: Module, v: ValueId) -> Option<IrError> {
    if m.valid_value(v) && !(m.shape_of(v) is Array) {
        Some(IrError::TypeMismatch { expected: TypeKindLabel::Array, got: kind_label_of(m.shape_of(v)) })
    } else {
        None
    }
}

/// Why `element` cannot be an element of the array `array`, or `None`.
pub open spec fn array_element_error(m: Module, array: ValueId, element: ValueId) -> Option<IrError> {
    if array_kind_error(m, array) is Some {
        array_kind_error(m, array)
    } else if m.valid_value(array) && m.valid_value(element) && m.ty_of(element) != m.shape_of(array)->Array_elem {
        Some(IrError::TypeMismatch { expected: kind_label_of(m.types()[m.shape_of(array)->Array_elem.0 as int]),
            got: kind_label_of(m.shape_of(element)) })
    } else {
        None
    }
}

/// The type the indices `indices[i..]` reach from `t`, or `None` when
/// they do not index into it: an array or vector steps to its element; a
/// struct with a body steps to the field an `i32` constant index names.
pub open spec fn gep_indexed(m: Module, t: TypeId, indices: Seq<ValueId>, i: nat) -> Option<TypeId>
    decreases indices.len() - i,
{
    if i >= indices.len() {
        Some(t)
    } else {
        match m.types()[t.0 as int] {
            TypeData::Array { elem, .. } => gep_indexed(m, elem, indices, i + 1),
            TypeData::FixedVector { elem, .. } => gep_indexed(m, elem, indices, i + 1),
            TypeData::Struct { body } => match m.structs()[body as int].fields {
                Some(fs) => match const_bits(m, indices[i as int]) {
                    Some(b) => if b.len() == 32 && nat_of(b) < fs@.len() {
                        gep_indexed(m, fs@[nat_of(b) as int], indices, i + 1)
                    } else {
                        None
                    },
                    None => None,
                },
                None => None,
            },
            _ => None,
        }
    }
}

/// The first of `indices[i..]` that is not an integer, as an error.
pub open spec fn gep_index_error(m: Module, indices: Seq<ValueId>, i: nat) -> Option<IrError>
    decreases indices.len() - i,
{
    if i >= indices.len() {
        None
    } else if int_operand_error(m, indices[i as int]) is Some {
        int_operand_error(m, indices[i as int])
    } else {
        gep_index_error(m, indices, i + 1)
    }
}

/// Why `getelementptr source, ptr, indices...` is refused, or `None`.
pub open spec fn gep_error(m: Module, source: TypeId, ptr: ValueId, indices: Seq<ValueId>) -> Option<IrError> {
    if !m.valid_type(source) {
        Some(IrError::ForeignValueId)
    } else if pointer_operand_error(m, ptr) is Some {
        pointer_operand_error(m, ptr)
    } else if gep_index_error(m, indices, 0) is Some {
        gep_index_error(m, indices, 0)
    } else if gep_indexed(m, source, indices, 1) is None {
        Some(IrError::GepInvalidIndices)
    } else {
        None
    }
}

/// A `getelementptr`: refused with `err`; or the pointer type of the
/// address space of `ptr` is interned and the result is the folder's or
/// the new `getelementptr source, ptr, indices` with `flags`, as
/// [`emitted`] says.
pub open spec fn gep_emit<F: IRBuilderFolder>(old: BuilderState, new: BuilderState, r: IrResult<ValueId>, folder: F, err: Option<IrError>,
    source: TypeId, ptr: ValueId, indices: Seq<ValueId>, flags: GepNoWrapFlags, name: Seq<char>) -> bool
{
    &&& state_ok(new)
    &&& same_place(old, new)
    &&& (err matches Some(e) ==> r == Err::<ValueId, IrError>(e) && new == old)
    &&& (err is None ==> exists|mid: Module, t: TypeId| {
        &&& module_grew_types(old.module, mid)
        &&& mid.valid_type(t)
        &&& #[trigger] mid.types()[t.0 as int] == (TypeData::Pointer { addr_space: old.module.shape_of(ptr)->addr_space })
        &&& emitted(with_module(old, mid), new.module, r, asks_gep(folder, source, ptr, indices, flags), t, Opcode::GetElementPtr { source, flags }, seq![ptr] + indices,
                no_flags(), name)
    })
}

/// A byte-offset `getelementptr` of `ptr` by `offset`: the 8-bit integer
/// type is interned, then the `getelementptr` over it as [`gep_emit`] says.
pub open spec fn ptr_add_emit<F: IRBuilderFolder>(old: BuilderState, new: BuilderState, r: IrResult<ValueId>, folder: F, ptr: ValueId, offset: ValueId,
    flags: GepNoWrapFlags, name: Seq<char>) -> bool
{
    exists|mid: Module, t8: TypeId| {
        &&& module_grew_types(old.module, mid)
        &&& mid.valid_type(t8)
        &&& #[trigger] mid.types()[t8.0 as int] == (TypeData::Integer { bits: 8 })
        &&& gep_emit(with_module(old, mid), new, r, folder, gep_error(mid, t8, ptr, seq![offset]), t8, ptr, seq![offset], flags, name)
    }
}

/// The parameter types of the function `f`.
pub open spec fn param_types(m: Module, f: FunctionId) -> Seq<TypeId> {
    m.functions()[f.0 as int].params@.map_values(|v: ValueId| m.ty_of(v))
}

/// The return type of the function `f`.
pub open spec fn return_type(m: Module, f: FunctionId) -> TypeId {
    m.functions()[f.0 as int].ret
}

/// Index of the first of `args[i..]` whose type is not that of its
/// parameter, or the number of arguments.
pub open spec fn first_bad_arg(m: Module, params: Seq<TypeId>, args: Seq<ValueId>, i: nat) -> nat
    decreases args.len() - i,
{
    if i >= args.len() || i >= params.len() {
        args.len()
    } else if m.ty_of(args[i as int]) != params[i as int] {
        i
    } else {
        first_bad_arg(m, params, args, i + 1)
    }
}

/// The number of arguments fits `f`: one per parameter, or at least that
/// many when `f` takes further arguments.
pub open spec fn arity_ok(m: Module, f: FunctionId, n: nat) -> bool {
    if m.functions()[f.0 as int].var_arg { n >= param_types(m, f).len() } else { n == param_types(m, f).len() }
}

/// `f` can be called with `args`: it exists, every argument exists, their
/// number fits (see [`arity_ok`]), and each argument given for a parameter
/// has the parameter's type (further arguments may have any type).
pub open spec fn call_args_ok(m: Module, f: FunctionId, args: Seq<ValueId>) -> bool {
    &&& m.valid_function(f)
    &&& forall|k: int| 0 <= k < args.len() ==> m.valid_value(#[trigger] args[k])
    &&& arity_ok(m, f, args.len())
    &&& first_bad_arg(m, param_types(m, f), args, 0) == args.len()
}

/// `e` is what calling `f` with `args` is refused with: something unknown,
/// a wrong number of arguments, or the first argument of another type
/// than its parameter (both types in their textual form).
pub open spec fn call_args_refusal(m: Module, f: FunctionId, args: Seq<ValueId>, e: IrError) -> bool {
    if !m.valid_function(f) || exists|k: int| 0 <= k < args.len() && !m.valid_value(#[trigger] args[k]) {
        e == IrError::ForeignValueId
    } else if !arity_ok(m, f, args.len()) {
        e == IrError::CallArgumentCountMismatch { expected: param_types(m, f).len() as u32, got: args.len() as u32 }
    } else {
        let i = first_bad_arg(m, param_types(m, f), args, 0);
        &&& e matches IrError::CallArgumentTypeMismatch { index, expected, got }
        &&& index == i as u32
        &&& expected@ == type_text(m.types(), m.structs(), param_types(m, f)[i as int])
        &&& got@ == type_text(m.types(), m.structs(), m.ty_of(args[i as int]))
    }
}

/// The name a result of type `ty` gets: none for `void`.
pub open spec fn result_name(m: Module, ty: TypeId, name: Seq<char>) -> Seq<char> {
    if m.types()[ty.0 as int] == TypeData::Void { Seq::<char>::empty() } else { name }
}

/// A call of `callee` with `args`: refused as [`call_args_refusal`]
/// says (nothing changes), or the call is inserted at the insertion
/// point with the callee's return type.
pub open spec fn call_emit(old: BuilderState, new: BuilderState, r: IrResult<ValueId>, callee: FunctionId, args: Seq<ValueId>,
    name: Seq<char>) -> bool
{
    let m = old.module;
    &&& state_ok(new)
    &&& same_place(old, new)
    &&& (!call_args_ok(m, callee, args) ==> r is Err && call_args_refusal(m, callee, args, r->Err_0) && new == old)
    &&& (call_args_ok(m, callee, args) ==> (r matches Ok(v) && inst_added(m, new.module, v, old.block.unwrap(), old.before,
            return_type(m, callee), Opcode::Call { callee }, args, Seq::<BlockId>::empty(), no_flags(),
            result_name(m, return_type(m, callee), name))))
}

/// The first of `dests[i..]` refused as the target of an edge that
/// carries no argument, as an error.
pub open spec fn dests_error(m: Module, dests: Seq<BlockId>, i: nat) -> Option<IrError>
    decreases dests.len() - i,
{
    if i >= dests.len() {
        None
    } else if plain_edge_error(m, dests[i as int]) is Some {
        plain_edge_error(m, dests[i as int])
    } else {
        dests_error(m, dests, i + 1)
    }
}

/// A terminator that calls `callee` with `args`: refused with `pre`, or
/// as [`call_args_refusal`] says, or with `post` (nothing changes); or the
/// terminator `op args targets`, of the callee's return type, ends the
/// block and the builder is left without insertion point.
pub open spec fn call_term_emit(old: BuilderState, new: BuilderState, r: IrResult<(BlockId, ValueId)>, pre: Option<IrError>,
    callee: FunctionId, args: Seq<ValueId>, post: Option<IrError>, op: Opcode, targets: Seq<BlockId>, name: Seq<char>) -> bool
{
    let m = old.module;
    &&& state_ok(new)
    &&& (pre matches Some(e) ==> r == Err::<(BlockId, ValueId), IrError>(e) && new == old)
    &&& (pre is None && !call_args_ok(m, callee, args) ==> r is Err && call_args_refusal(m, callee, args, r->Err_0) && new == old)
    &&& (pre is None && call_args_ok(m, callee, args) && post is Some ==> r == Err::<(BlockId, ValueId), IrError>(post.unwrap())
            && new == old)
    &&& (pre is None && call_args_ok(m, callee, args) && post is None ==> {
        &&& r is Ok
        &&& r->Ok_0.0 == old.block.unwrap()
        &&& new.block is None
        &&& new.before is None
        &&& new.fmf == old.fmf
        &&& inst_added(m, new.module, r->Ok_0.1, old.block.unwrap(), old.before, return_type(m, callee), op, args, targets,
                no_flags(), result_name(m, return_type(m, callee), name))
    })
}

/// An `invoke` whose normal and unwind edges carry block arguments:
/// refused, everything unchanged, for an unknown destination, a refused
/// call, or a refused normal edge; otherwise the normal edge's pairs are
/// added to its destination's parameter phis, then (unless the unwind
/// edge is refused) the unwind edge's, stopping with
/// `AmbiguousPhiIncoming` at a pair refused for a different value already
/// present; when all are added the call ends the block as `invoke`.
pub open spec fn seeded_invoke(old: BuilderState, new: BuilderState, r: IrResult<(BlockId, ValueId)>, callee: FunctionId,
    call_args: Seq<ValueId>, normal: BlockId, normal_args: Seq<ValueId>, unwind: BlockId, unwind_args: Seq<ValueId>,
    name: Seq<char>) -> bool
{
    let m = old.module;
    let pred = old.block.unwrap();
    let phis = block_param_phis(m, normal) + block_param_phis(m, unwind);
    let args = normal_args + unwind_args;
    let split = block_param_phis(m, normal).len();
    let first = seed_stop(m, phis, args, pred, 0, split);
    let rest = seed_stop(m, phis, args, pred, split, phis.len());
    let ret = return_type(m, callee);
    &&& state_ok(new)
    &&& (!m.valid_block(normal) || !m.valid_block(unwind) ==> r == Err::<(BlockId, ValueId), IrError>(IrError::ForeignValueId) && new == old)
    &&& (m.valid_block(normal) && m.valid_block(unwind) ==> {
        if !call_args_ok(m, callee, call_args) {
            r is Err && call_args_refusal(m, callee, call_args, r->Err_0) && new == old
        } else if edge_error(m, normal, normal_args) is Some {
            r == Err::<(BlockId, ValueId), IrError>(edge_error(m, normal, normal_args).unwrap()) && new == old
        } else if first < split {
            &&& r == Err::<(BlockId, ValueId), IrError>(ambiguous_incoming(m, pred))
            &&& same_place(old, new)
            &&& seeded_state(m, new.module, phis, args, pred, first)
        } else if edge_error(m, unwind, unwind_args) is Some {
            &&& r == Err::<(BlockId, ValueId), IrError>(edge_error(m, unwind, unwind_args).unwrap())
            &&& same_place(old, new)
            &&& seeded_state(m, new.module, phis, args, pred, split)
        } else if rest < phis.len() {
            &&& r == Err::<(BlockId, ValueId), IrError>(ambiguous_incoming(m, pred))
            &&& same_place(old, new)
            &&& seeded_state(m, new.module, phis, args, pred, rest)
        } else {
            &&& r is Ok
            &&& r->Ok_0.0 == pred
            &&& new.block is None
            &&& new.before is None
            &&& new.fmf == old.fmf
            &&& exists|mid: Module| #[trigger] seeded_state(m, mid, phis, args, pred, phis.len())
                && inst_added(mid, new.module, r->Ok_0.1, pred, old.before, ret, Opcode::Invoke { callee }, call_args,
                    seq![normal, unwind], no_flags(), result_name(m, ret, name))
        }
    })
}

/// `name` followed by `dotted`, or `bare` when `name` is empty.
pub open spec fn suffixed(name: Seq<char>, dotted: Seq<char>, bare: Seq<char>) -> Seq<char> {
    if name.len() == 0 {
        bare
    } else {
        name + dotted
    }
}

/// Why a splat of `count` lanes of `scalar` is refused, or `None`.
pub open spec fn splat_error(m: Module, count: u32, scalar: ValueId) -> Option<IrError> {
    if count == 0 {
        Some(IrError::InvalidOperation { message: "vector_splat_dyn requires at least one lane" })
    } else if !m.valid_value(scalar) {
        Some(IrError::ForeignValueId)
    } else {
        None
    }
}

/// `new` is `old` with types and values appended and nothing else changed.
pub open spec fn module_extended(old: Module, new: Module) -> bool {
    &&& new.wf()
    &&& new.types().len() >= old.types().len()
    &&& new.types().take(old.types().len() as int) == old.types()
    &&& new.values().len() >= old.values().len()
    &&& new.values().take(old.values().len() as int) == old.values()
    &&& new.blocks() == old.blocks()
    &&& new.functions() == old.functions()
    &&& new.name_spec() == old.name_spec()
}

/// What a splat adds before its instructions: the vector type `t` of
/// `count` lanes of type `elem`, a `poison` `p` of that type and the
/// 64-bit integer constant `z` equal to 0, the two values last.
pub open spec fn splat_operands(old: Module, new: Module, t: TypeId, p: ValueId, z: ValueId, count: u32, elem: TypeId) -> bool {
    &&& module_extended(old, new)
    &&& new.values().len() == old.values().len() + 2
    &&& new.valid_type(t)
    &&& new.types()[t.0 as int] == (TypeData::FixedVector { elem, n: count })
    &&& p.0 == old.values().len()
    &&& new.values()[p.0 as int].ty == t
    &&& new.values()[p.0 as int].kind == ValueKind::Poison
    &&& z.0 == old.values().len() + 1
    &&& new.types()[new.ty_of(z).0 as int] == (TypeData::Integer { bits: 64 })
    &&& const_bits(new, z) == Some(crate::bitseq::from_nat(64, 0))
}

/// The insertion step of a splat: `insertelement p, scalar, z` of type
/// `t`, named `name.splatinsert`, as `insert_element` does it.
pub open spec fn splat_insert<F: IRBuilderFolder>(old: BuilderState, new: BuilderState, r: IrResult<ValueId>, folder: F, t: TypeId, p: ValueId,
    scalar: ValueId, z: ValueId, name: Seq<char>) -> bool
{
    checked_emit(old, new, r, asks_insert_element(folder, p, scalar, z), None, t, Opcode::InsertElement, seq![p, scalar, z], no_flags(),
        suffixed(name, ".splatinsert"@, "splatinsert"@))
}

/// A splat of `count` lanes of `scalar`: refused with `err`; or, once the
/// operands of [`splat_operands`] exist, `insertelement p, scalar, z`
/// named `name.splatinsert` behaves as `insert_element` does, and unless
/// it fails, `shufflevector` of its result and `p` with `count` lanes all
/// taken from lane 0, named `name.splat`, as `shuffle_vector` does.
pub open spec fn splat_emit<F: IRBuilderFolder>(old: BuilderState, new: BuilderState, r: IrResult<ValueId>, folder: F, err: Option<IrError>,
    count: u32, scalar: ValueId, name: Seq<char>) -> bool
{
    &&& state_ok(new)
    &&& same_place(old, new)
    &&& (err matches Some(e) ==> r == Err::<ValueId, IrError>(e) && new == old)
    &&& (err is None ==> exists|m1: Module, t: TypeId, p: ValueId, z: ValueId, s2: BuilderState, ins: IrResult<ValueId>| {
        &&& #[trigger] splat_operands(old.module, m1, t, p, z, count, old.module.ty_of(scalar))
        &&& #[trigger] splat_insert(with_module(old, m1), s2, ins, folder, t, p, scalar, z, name)
        &&& (ins matches Err(e) ==> r == Err::<ValueId, IrError>(e) && new == s2)
        &&& (ins matches Ok(iv) ==> shuffle_emit(s2, new, r, folder, None, iv, p, Seq::new(count as nat, |k: int| ShuffleMaskElem::Lane(0)),
                suffixed(name, ".splat"@, "splat"@)))
    })
}

/// Why two operands cannot feed a typed integer-vector operation:
/// `Some(Some(e))` for an error `e` found before the erased checks.
pub open spec fn vector_operand_error(m: Module, lhs: ValueId, rhs: ValueId) -> Option<IrError> {
    if !m.valid_value(lhs) || !m.valid_value(rhs) {
        Some(IrError::ForeignValueId)
    } else if !(m.shape_of(lhs) is FixedVector) {
        Some(IrError::TypeMismatch { expected: TypeKindLabel::FixedVector, got: kind_label_of(m.shape_of(lhs)) })
    } else {
        None
    }
}

/// The flags among `f` that `op` accepts.
fn keep_flags(op: BinaryOpcode, f: InstFlags) -> (r: InstFlags)
    ensures
        r == accepted_flags(op, f),
{
    match op {
        BinaryOpcode::Add | BinaryOpcode::Sub | BinaryOpcode::Mul | BinaryOpcode::Shl =>
            InstFlags { nuw: f.nuw, nsw: f.nsw, exact: false, disjoint: false, nneg: false, samesign: false, fmf: FastMathFlags { bits: 0 } },
        BinaryOpcode::UDiv | BinaryOpcode::SDiv | BinaryOpcode::LShr | BinaryOpcode::AShr =>
            InstFlags { nuw: false, nsw: false, exact: f.exact, disjoint: false, nneg: false, samesign: false, fmf: FastMathFlags { bits: 0 } },
        BinaryOpcode::Or =>
            InstFlags { nuw: false, nsw: false, exact: false, disjoint: f.disjoint, nneg: false, samesign: false, fmf: FastMathFlags { bits: 0 } },
        _ => InstFlags::none(),
    }
}

/// `v` is an `alloca` instruction.
pub open spec fn is_alloca(m: Module, v: ValueId) -> bool {
    m.values()[v.0 as int].kind matches ValueKind::Instruction { op: Opcode::Alloca { .. }, .. }
}

impl<F: IRBuilderFolder> IrBuilder<F> {
    /// `add lhs, rhs` on two integers of one type.
    pub fn int_add(&mut self, lhs: ValueId, rhs: ValueId, name: &str) -> (r: IrResult<ValueId>)
        requires
            old(self).wf(),
            old(self).state().block is Some,
        ensures
            final(self).folder_spec() == old(self).folder_spec(),
            int_binop_done(old(self).state(), final(self).state(), r, asks_int_binop(old(self).folder_spec(), BinaryOpcode::Add, lhs, rhs, accepted_flags(BinaryOpcode::Add, no_flags()), false), BinaryOpcode::Add, lhs, rhs, no_flags(), name@),
    {
        self.int_binop_core(BinaryOpcode::Add, lhs, rhs, InstFlags::none(), false, name)
    }

    /// `sub lhs, rhs` on two integers of one type.
    pub fn int_sub(&mut self, lhs: ValueId, rhs: ValueId, name: &str) -> (r: IrResult<ValueId>)
        requires
            old(self).wf(),
            old(self).state().block is Some,
        ensures
            final(self).folder_spec() == old(self).folder_spec(),
            int_binop_done(old(self).state(), final(self).state(), r, asks_int_binop(old(self).folder_spec(), BinaryOpcode::Sub, lhs, rhs, accepted_flags(BinaryOpcode::Sub, no_flags()), false), BinaryOpcode::Sub, lhs, rhs, no_flags(), name@),
    {
        self.int_binop_core(BinaryOpcode::Sub, lhs, rhs, InstFlags::none(), false, name)
    }

    /// `mul lhs, rhs` on two integers of one type.
    pub fn int_mul(&mut self, lhs: ValueId, rhs: ValueId, name: &str) -> (r: IrResult<ValueId>)
        requires
            old(self).wf(),
            old(self).state().block is Some,
        ensures
            final(self).folder_spec() == old(self).folder_spec(),
            int_binop_done(old(self).state(), final(self).state(), r, asks_int_binop(old(self).folder_spec(), BinaryOpcode::Mul, lhs, rhs, accepted_flags(BinaryOpcode::Mul, no_flags()), true), BinaryOpcode::Mul, lhs, rhs, no_flags(), name@),
    {
        self.int_binop_core(BinaryOpcode::Mul, lhs, rhs, InstFlags::none(), true, name)
    }

    /// `udiv lhs, rhs` on two integers of one type.
    pub fn int_udiv(&mut self, lhs: ValueId, rhs: ValueId, name: &str) -> (r: IrResult<ValueId>)
        requires
            old(self).wf(),
            old(self).state().block is Some,
        ensures
            final(self).folder_spec() == old(self).folder_spec(),
            int_binop_done(old(self).state(), final(self).state(), r, asks_int_binop(old(self).folder_spec(), BinaryOpcode::UDiv, lhs, rhs, accepted_flags(BinaryOpcode::UDiv, no_flags()), false), BinaryOpcode::UDiv, lhs, rhs, no_flags(), name@),
    {
        self.int_binop_core(BinaryOpcode::UDiv, lhs, rhs, InstFlags::none(), false, name)
    }

    /// `sdiv lhs, rhs` on two integers of one type.
    pub fn int_sdiv(&mut self, lhs: ValueId, rhs: ValueId, name: &str) -> (r: IrResult<ValueId>)
        requires
            old(self).wf(),
            old(self).state().block is Some,
        ensures
            final(self).folder_spec() == old(self).folder_spec(),
            int_binop_done(old(self).state(), final(self).state(), r, asks_int_binop(old(self).folder_spec(), BinaryOpcode::SDiv, lhs, rhs, accepted_flags(BinaryOpcode::SDiv, no_flags()), false), BinaryOpcode::SDiv, lhs, rhs, no_flags(), name@),
    {
        self.int_binop_core(BinaryOpcode::SDiv, lhs, rhs, InstFlags::none(), false, name)
    }

    /// `urem lhs, rhs` on two integers of one type.
    pub fn int_urem(&mut self, lhs: ValueId, rhs: ValueId, name: &str) -> (r: IrResult<ValueId>)
        requires
            old(self).wf(),
            old(self).state().block is Some,
        ensures
            final(self).folder_spec() == old(self).folder_spec(),
            int_binop_done(old(self).state(), final(self).state(), r, asks_int_binop(old(self).folder_spec(), BinaryOpcode::URem, lhs, rhs, accepted_flags(BinaryOpcode::URem, no_flags()), false), BinaryOpcode::URem, lhs, rhs, no_flags(), name@),
    {
        self.int_binop_core(BinaryOpcode::URem, lhs, rhs, InstFlags::none(), false, name)
    }

    /// `srem lhs, rhs` on two integers of one type.
    pub fn int_srem(&mut self, lhs: ValueId, rhs: ValueId, name: &str) -> (r: IrResult<ValueId>)
        requires
            old(self).wf(),
            old(self).state().block is Some,
        ensures
            final(self).folder_spec() == old(self).folder_spec(),
            int_binop_done(old(self).state(), final(self).state(), r, asks_int_binop(old(self).folder_spec(), BinaryOpcode::SRem, lhs, rhs, accepted_flags(BinaryOpcode::SRem, no_flags()), false), BinaryOpcode::SRem, lhs, rhs, no_flags(), name@),
    {
        self.int_binop_core(BinaryOpcode::SRem, lhs, rhs, InstFlags::none(), false, name)
    }

    /// `shl lhs, rhs` on two integers of one type.
    pub fn int_shl(&mut self, lhs: ValueId, rhs: ValueId, name: &str) -> (r: IrResult<ValueId>)
        requires
            old(self).wf(),
            old(self).state().block is Some,
        ensures
            final(self).folder_spec() == old(self).folder_spec(),
            int_binop_done(old(self).state(), final(self).state(), r, asks_int_binop(old(self).folder_spec(), BinaryOpcode::Shl, lhs, rhs, accepted_flags(BinaryOpcode::Shl, no_flags()), true), BinaryOpcode::Shl, lhs, rhs, no_flags(), name@),
    {
        self.int_binop_core(BinaryOpcode::Shl, lhs, rhs, InstFlags::none(), true, name)
    }

    /// `lshr lhs, rhs` on two integers of one type.
    pub fn int_lshr(&mut self, lhs: ValueId, rhs: ValueId, name: &str) -> (r: IrResult<ValueId>)
        requires
            old(self).wf(),
            old(self).state().block is Some,
        ensures
            final(self).folder_spec() == old(self).folder_spec(),
            int_binop_done(old(self).state(), final(self).state(), r, asks_int_binop(old(self).folder_spec(), BinaryOpcode::LShr, lhs, rhs, accepted_flags(BinaryOpcode::LShr, no_flags()), false), BinaryOpcode::LShr, lhs, rhs, no_flags(), name@),
    {
        self.int_binop_core(BinaryOpcode::LShr, lhs, rhs, InstFlags::none(), false, name)
    }

    /// `ashr lhs, rhs` on two integers of one type.
    pub fn int_ashr(&mut self, lhs: ValueId, rhs: ValueId, name: &str) -> (r: IrResult<ValueId>)
        requires
            old(self).wf(),
            old(self).state().block is Some,
        ensures
            final(self).folder_spec() == old(self).folder_spec(),
            int_binop_done(old(self).state(), final(self).state(), r, asks_int_binop(old(self).folder_spec(), BinaryOpcode::AShr, lhs, rhs, accepted_flags(BinaryOpcode::AShr, no_flags()), false), BinaryOpcode::AShr, lhs, rhs, no_flags(), name@),
    {
        self.int_binop_core(BinaryOpcode::AShr, lhs, rhs, InstFlags::none(), false, name)
    }

    /// `and lhs, rhs` on two integers of one type.
    pub fn int_and(&mut self, lhs: ValueId, rhs: ValueId, name: &str) -> (r: IrResult<ValueId>)
        requires
            old(self).wf(),
            old(self).state().block is Some,
        ensures
            final(self).folder_spec() == old(self).folder_spec(),
            int_binop_done(old(self).state(), final(self).state(), r, asks_int_binop(old(self).folder_spec(), BinaryOpcode::And, lhs, rhs, accepted_flags(BinaryOpcode::And, no_flags()), false), BinaryOpcode::And, lhs, rhs, no_flags(), name@),
    {
        self.int_binop_core(BinaryOpcode::And, lhs, rhs, InstFlags::none(), false, name)
    }

    /// `or lhs, rhs` on two integers of one type.
    pub fn int_or(&mut self, lhs: ValueId, rhs: ValueId, name: &str) -> (r: IrResult<ValueId>)
        requires
            old(self).wf(),
            old(self).state().block is Some,
        ensures
            final(self).folder_spec() == old(self).folder_spec(),
            int_binop_done(old(self).state(), final(self).state(), r, asks_int_binop(old(self).folder_spec(), BinaryOpcode::Or, lhs, rhs, accepted_flags(BinaryOpcode::Or, no_flags()), false), BinaryOpcode::Or, lhs, rhs, no_flags(), name@),
    {
        self.int_binop_core(BinaryOpcode::Or, lhs, rhs, InstFlags::none(), false, name)
    }

    /// `xor lhs, rhs` on two integers of one type.
    pub fn int_xor(&mut self, lhs: ValueId, rhs: ValueId, name: &str) -> (r: IrResult<ValueId>)
        requires
            old(self).wf(),
            old(self).state().block is Some,
        ensures
            final(self).folder_spec() == old(self).folder_spec(),
            int_binop_done(old(self).state(), final(self).state(), r, asks_int_binop(old(self).folder_spec(), BinaryOpcode::Xor, lhs, rhs, accepted_flags(BinaryOpcode::Xor, no_flags()), false), BinaryOpcode::Xor, lhs, rhs, no_flags(), name@),
    {
        self.int_binop_core(BinaryOpcode::Xor, lhs, rhs, InstFlags::none(), false, name)
    }

    /// `or lhs, rhs` carrying the flags of `flags` that `or` accepts.
    pub fn int_or_with_flags(&mut self, lhs: ValueId, rhs: ValueId, flags: InstFlags, name: &str) -> (r: IrResult<ValueId>)
        requires
            old(self).wf(),
            old(self).state().block is Some,
        ensures
            final(self).folder_spec() == old(self).folder_spec(),
            int_binop_done(old(self).state(), final(self).state(), r, asks_int_binop(old(self).folder_spec(), BinaryOpcode::Or, lhs, rhs, accepted_flags(BinaryOpcode::Or, flags), true), BinaryOpcode::Or, lhs, rhs, flags, name@),
    {
        self.int_binop_core(BinaryOpcode::Or, lhs, rhs, flags, true, name)
    }

    /// `add lhs, rhs` carrying the flags of `flags` that `add` accepts.
    pub fn int_add_with_flags(&mut self, lhs: ValueId, rhs: ValueId, flags: InstFlags, name: &str) -> (r: IrResult<ValueId>)
        requires
            old(self).wf(),
            old(self).state().block is Some,
        ensures
            final(self).folder_spec() == old(self).folder_spec(),
            int_binop_done(old(self).state(), final(self).state(), r, asks_int_binop(old(self).folder_spec(), BinaryOpcode::Add, lhs, rhs, accepted_flags(BinaryOpcode::Add, flags), true), BinaryOpcode::Add, lhs, rhs, flags, name@),
    {
        self.int_binop_core(BinaryOpcode::Add, lhs, rhs, flags, true, name)
    }

    /// `sub lhs, rhs` carrying the flags of `flags` that `sub` accepts.
    pub fn int_sub_with_flags(&mut self, lhs: ValueId, rhs: ValueId, flags: InstFlags, name: &str) -> (r: IrResult<ValueId>)
        requires
            old(self).wf(),
            old(self).state().block is Some,
        ensures
            final(self).folder_spec() == old(self).folder_spec(),
            int_binop_done(old(self).state(), final(self).state(), r, asks_int_binop(old(self).folder_spec(), BinaryOpcode::Sub, lhs, rhs, accepted_flags(BinaryOpcode::Sub, flags), true), BinaryOpcode::Sub, lhs, rhs, flags, name@),
    {
        self.int_binop_core(BinaryOpcode::Sub, lhs, rhs, flags, true, name)
    }

    /// `mul lhs, rhs` carrying the flags of `flags` that `mul` accepts.
    pub fn int_mul_with_flags(&mut self, lhs: ValueId, rhs: ValueId, flags: InstFlags, name: &str) -> (r: IrResult<ValueId>)
        requires
            old(self).wf(),
            old(self).state().block is Some,
        ensures
            final(self).folder_spec() == old(self).folder_spec(),
            int_binop_done(old(self).state(), final(self).state(), r, asks_int_binop(old(self).folder_spec(), BinaryOpcode::Mul, lhs, rhs, accepted_flags(BinaryOpcode::Mul, flags), true), BinaryOpcode::Mul, lhs, rhs, flags, name@),
    {
        self.int_binop_core(BinaryOpcode::Mul, lhs, rhs, flags, true, name)
    }

    /// `shl lhs, rhs` carrying the flags of `flags` that `shl` accepts.
    pub fn int_shl_with_flags(&mut self, lhs: ValueId, rhs: ValueId, flags: InstFlags, name: &str) -> (r: IrResult<ValueId>)
        requires
            old(self).wf(),
            old(self).state().block is Some,
        ensures
            final(self).folder_spec() == old(self).folder_spec(),
            int_binop_done(old(self).state(), final(self).state(), r, asks_int_binop(old(self).folder_spec(), BinaryOpcode::Shl, lhs, rhs, accepted_flags(BinaryOpcode::Shl, flags), true), BinaryOpcode::Shl, lhs, rhs, flags, name@),
    {
        self.int_binop_core(BinaryOpcode::Shl, lhs, rhs, flags, true, name)
    }

    /// `udiv lhs, rhs` carrying the flags of `flags` that `udiv` accepts.
    pub fn int_udiv_with_flags(&mut self, lhs: ValueId, rhs: ValueId, flags: InstFlags, name: &str) -> (r: IrResult<ValueId>)
        requires
            old(self).wf(),
            old(self).state().block is Some,
        ensures
            final(self).folder_spec() == old(self).folder_spec(),
            int_binop_done(old(self).state(), final(self).state(), r, asks_int_binop(old(self).folder_spec(), BinaryOpcode::UDiv, lhs, rhs, accepted_flags(BinaryOpcode::UDiv, flags), true), BinaryOpcode::UDiv, lhs, rhs, flags, name@),
    {
        self.int_binop_core(BinaryOpcode::UDiv, lhs, rhs, flags, true, name)
    }

    /// `sdiv lhs, rhs` carrying the flags of `flags` that `sdiv` accepts.
    pub fn int_sdiv_with_flags(&mut self, lhs: ValueId, rhs: ValueId, flags: InstFlags, name: &str) -> (r: IrResult<ValueId>)
        requires
            old(self).wf(),
            old(self).state().block is Some,
        ensures
            final(self).folder_spec() == old(self).folder_spec(),
            int_binop_done(old(self).state(), final(self).state(), r, asks_int_binop(old(self).folder_spec(), BinaryOpcode::SDiv, lhs, rhs, accepted_flags(BinaryOpcode::SDiv, flags), true), BinaryOpcode::SDiv, lhs, rhs, flags, name@),
    {
        self.int_binop_core(BinaryOpcode::SDiv, lhs, rhs, flags, true, name)
    }

    /// `lshr lhs, rhs` carrying the flags of `flags` that `lshr` accepts.
    pub fn int_lshr_with_flags(&mut self, lhs: ValueId, rhs: ValueId, flags: InstFlags, name: &str) -> (r: IrResult<ValueId>)
        requires
            old(self).wf(),
            old(self).state().block is Some,
        ensures
            final(self).folder_spec() == old(self).folder_spec(),
            int_binop_done(old(self).state(), final(self).state(), r, asks_int_binop(old(self).folder_spec(), BinaryOpcode::LShr, lhs, rhs, accepted_flags(BinaryOpcode::LShr, flags), true), BinaryOpcode::LShr, lhs, rhs, flags, name@),
    {
        self.int_binop_core(BinaryOpcode::LShr, lhs, rhs, flags, true, name)
    }

    /// `ashr lhs, rhs` carrying the flags of `flags` that `ashr` accepts.
    pub fn int_ashr_with_flags(&mut self, lhs: ValueId, rhs: ValueId, flags: InstFlags, name: &str) -> (r: IrResult<ValueId>)
        requires
            old(self).wf(),
            old(self).state().block is Some,
        ensures
            final(self).folder_spec() == old(self).folder_spec(),
            int_binop_done(old(self).state(), final(self).state(), r, asks_int_binop(old(self).folder_spec(), BinaryOpcode::AShr, lhs, rhs, accepted_flags(BinaryOpcode::AShr, flags), true), BinaryOpcode::AShr, lhs, rhs, flags, name@),
    {
        self.int_binop_core(BinaryOpcode::AShr, lhs, rhs, flags, true, name)
    }

    /// `add lhs, rhs` on integers or integer vectors of one type.
    pub fn int_add_dyn(&mut self, lhs: ValueId, rhs: ValueId, name: &str) -> (r: IrResult<ValueId>)
        requires
            old(self).wf(),
            old(self).state().block is Some,
        ensures
            final(self).folder_spec() == old(self).folder_spec(),
            int_binop_dyn_done(old(self).state(), final(self).state(), r, asks_bin_op_dyn(old(self).folder_spec(), BinaryOpcode::Add, lhs, rhs), BinaryOpcode::Add, lhs, rhs, no_flags(), name@),
    {
        self.int_binop_dyn_core(BinaryOpcode::Add, lhs, rhs, InstFlags::none(), name)
    }

    /// `sub lhs, rhs` on integers or integer vectors of one type.
    pub fn int_sub_dyn(&mut self, lhs: ValueId, rhs: ValueId, name: &str) -> (r: IrResult<ValueId>)
        requires
            old(self).wf(),
            old(self).state().block is Some,
        ensures
            final(self).folder_spec() == old(self).folder_spec(),
            int_binop_dyn_done(old(self).state(), final(self).state(), r, asks_bin_op_dyn(old(self).folder_spec(), BinaryOpcode::Sub, lhs, rhs), BinaryOpcode::Sub, lhs, rhs, no_flags(), name@),
    {
        self.int_binop_dyn_core(BinaryOpcode::Sub, lhs, rhs, InstFlags::none(), name)
    }

    /// `mul lhs, rhs` on integers or integer vectors of one type.
    pub fn int_mul_dyn(&mut self, lhs: ValueId, rhs: ValueId, name: &str) -> (r: IrResult<ValueId>)
        requires
            old(self).wf(),
            old(self).state().block is Some,
        ensures
            final(self).folder_spec() == old(self).folder_spec(),
            int_binop_dyn_done(old(self).state(), final(self).state(), r, asks_bin_op_dyn(old(self).folder_spec(), BinaryOpcode::Mul, lhs, rhs), BinaryOpcode::Mul, lhs, rhs, no_flags(), name@),
    {
        self.int_binop_dyn_core(BinaryOpcode::Mul, lhs, rhs, InstFlags::none(), name)
    }

    /// `udiv lhs, rhs` on integers or integer vectors of one type.
    pub fn int_udiv_dyn(&mut self, lhs: ValueId, rhs: ValueId, name: &str) -> (r: IrResult<ValueId>)
        requires
            old(self).wf(),
            old(self).state().block is Some,
        ensures
            final(self).folder_spec() == old(self).folder_spec(),
            int_binop_dyn_done(old(self).state(), final(self).state(), r, asks_bin_op_dyn(old(self).folder_spec(), BinaryOpcode::UDiv, lhs, rhs), BinaryOpcode::UDiv, lhs, rhs, no_flags(), name@),
    {
        self.int_binop_dyn_core(BinaryOpcode::UDiv, lhs, rhs, InstFlags::none(), name)
    }

    /// `sdiv lhs, rhs` on integers or integer vectors of one type.
    pub fn int_sdiv_dyn(&mut self, lhs: ValueId, rhs: ValueId, name: &str) -> (r: IrResult<ValueId>)
        requires
            old(self).wf(),
            old(self).state().block is Some,
        ensures
            final(self).folder_spec() == old(self).folder_spec(),
            int_binop_dyn_done(old(self).state(), final(self).state(), r, asks_bin_op_dyn(old(self).folder_spec(), BinaryOpcode::SDiv, lhs, rhs), BinaryOpcode::SDiv, lhs, rhs, no_flags(), name@),
    {
        self.int_binop_dyn_core(BinaryOpcode::SDiv, lhs, rhs, InstFlags::none(), name)
    }

    /// `urem lhs, rhs` on integers or integer vectors of one type.
    pub fn int_urem_dyn(&mut self, lhs: ValueId, rhs: ValueId, name: &str) -> (r: IrResult<ValueId>)
        requires
            old(self).wf(),
            old(self).state().block is Some,
        ensures
            final(self).folder_spec() == old(self).folder_spec(),
            int_binop_dyn_done(old(self).state(), final(self).state(), r, asks_bin_op_dyn(old(self).folder_spec(), BinaryOpcode::URem, lhs, rhs), BinaryOpcode::URem, lhs, rhs, no_flags(), name@),
    {
        self.int_binop_dyn_core(BinaryOpcode::URem, lhs, rhs, InstFlags::none(), name)
    }

    /// `srem lhs, rhs` on integers or integer vectors of one type.
    pub fn int_srem_dyn(&mut self, lhs: ValueId, rhs: ValueId, name: &str) -> (r: IrResult<ValueId>)
        requires
            old(self).wf(),
            old(self).state().block is Some,
        ensures
            final(self).folder_spec() == old(self).folder_spec(),
            int_binop_dyn_done(old(self).state(), final(self).state(), r, asks_bin_op_dyn(old(self).folder_spec(), BinaryOpcode::SRem, lhs, rhs), BinaryOpcode::SRem, lhs, rhs, no_flags(), name@),
    {
        self.int_binop_dyn_core(BinaryOpcode::SRem, lhs, rhs, InstFlags::none(), name)
    }

    /// `shl lhs, rhs` on integers or integer vectors of one type.
    pub fn int_shl_dyn(&mut self, lhs: ValueId, rhs: ValueId, name: &str) -> (r: IrResult<ValueId>)
        requires
            old(self).wf(),
            old(self).state().block is Some,
        ensures
            final(self).folder_spec() == old(self).folder_spec(),
            int_binop_dyn_done(old(self).state(), final(self).state(), r, asks_bin_op_dyn(old(self).folder_spec(), BinaryOpcode::Shl, lhs, rhs), BinaryOpcode::Shl, lhs, rhs, no_flags(), name@),
    {
        self.int_binop_dyn_core(BinaryOpcode::Shl, lhs, rhs, InstFlags::none(), name)
    }

    /// `lshr lhs, rhs` on integers or integer vectors of one type.
    pub fn int_lshr_dyn(&mut self, lhs: ValueId, rhs: ValueId, name: &str) -> (r: IrResult<ValueId>)
        requires
            old(self).wf(),
            old(self).state().block is Some,
        ensures
            final(self).folder_spec() == old(self).folder_spec(),
            int_binop_dyn_done(old(self).state(), final(self).state(), r, asks_bin_op_dyn(old(self).folder_spec(), BinaryOpcode::LShr, lhs, rhs), BinaryOpcode::LShr, lhs, rhs, no_flags(), name@),
    {
        self.int_binop_dyn_core(BinaryOpcode::LShr, lhs, rhs, InstFlags::none(), name)
    }

    /// `ashr lhs, rhs` on integers or integer vectors of one type.
    pub fn int_ashr_dyn(&mut self, lhs: ValueId, rhs: ValueId, name: &str) -> (r: IrResult<ValueId>)
        requires
            old(self).wf(),
            old(self).state().block is Some,
        ensures
            final(self).folder_spec() == old(self).folder_spec(),
            int_binop_dyn_done(old(self).state(), final(self).state(), r, asks_bin_op_dyn(old(self).folder_spec(), BinaryOpcode::AShr, lhs, rhs), BinaryOpcode::AShr, lhs, rhs, no_flags(), name@),
    {
        self.int_binop_dyn_core(BinaryOpcode::AShr, lhs, rhs, InstFlags::none(), name)
    }

    /// `and lhs, rhs` on integers or integer vectors of one type.
    pub fn int_and_dyn(&mut self, lhs: ValueId, rhs: ValueId, name: &str) -> (r: IrResult<ValueId>)
        requires
            old(self).wf(),
            old(self).state().block is Some,
        ensures
            final(self).folder_spec() == old(self).folder_spec(),
            int_binop_dyn_done(old(self).state(), final(self).state(), r, asks_bin_op_dyn(old(self).folder_spec(), BinaryOpcode::And, lhs, rhs), BinaryOpcode::And, lhs, rhs, no_flags(), name@),
    {
        self.int_binop_dyn_core(BinaryOpcode::And, lhs, rhs, InstFlags::none(), name)
    }

    /// `or lhs, rhs` on integers or integer vectors of one type.
    pub fn int_or_dyn(&mut self, lhs: ValueId, rhs: ValueId, name: &str) -> (r: IrResult<ValueId>)
        requires
            old(self).wf(),
            old(self).state().block is Some,
        ensures
            final(self).folder_spec() == old(self).folder_spec(),
            int_binop_dyn_done(old(self).state(), final(self).state(), r, asks_bin_op_dyn(old(self).folder_spec(), BinaryOpcode::Or, lhs, rhs), BinaryOpcode::Or, lhs, rhs, no_flags(), name@),
    {
        self.int_binop_dyn_core(BinaryOpcode::Or, lhs, rhs, InstFlags::none(), name)
    }

    /// `xor lhs, rhs` on integers or integer vectors of one type.
    pub fn int_xor_dyn(&mut self, lhs: ValueId, rhs: ValueId, name: &str) -> (r: IrResult<ValueId>)
        requires
            old(self).wf(),
            old(self).state().block is Some,
        ensures
            final(self).folder_spec() == old(self).folder_spec(),
            int_binop_dyn_done(old(self).state(), final(self).state(), r, asks_bin_op_dyn(old(self).folder_spec(), BinaryOpcode::Xor, lhs, rhs), BinaryOpcode::Xor, lhs, rhs, no_flags(), name@),
    {
        self.int_binop_dyn_core(BinaryOpcode::Xor, lhs, rhs, InstFlags::none(), name)
    }

    /// `opcode lhs, rhs` on integers or integer vectors of one type, for an
    /// opcode known only at run time; a floating-point opcode is refused.
    pub fn int_binop_erased(&mut self, opcode: BinaryOpcode, lhs: ValueId, rhs: ValueId, flags: InstFlags, name: &str) -> (r: IrResult<ValueId>)
        requires
            old(self).wf(),
            old(self).state().block is Some,
        ensures
            final(self).folder_spec() == old(self).folder_spec(),
            !old(self).state().module.valid_value(lhs) || !old(self).state().module.valid_value(rhs)
                ==> r == Err::<ValueId, IrError>(IrError::ForeignValueId) && final(self).state() == old(self).state(),
            old(self).state().module.valid_value(lhs) && old(self).state().module.valid_value(rhs) && !is_int_opcode(opcode)
                ==> r == Err::<ValueId, IrError>(IrError::InvalidOperation { message: "opcode is not an integer binary operator" })
                    && final(self).state() == old(self).state(),
            is_int_opcode(opcode) ==> int_binop_dyn_done(old(self).state(), final(self).state(), r, asks_bin_op_dyn(old(self).folder_spec(), opcode, lhs, rhs), opcode, lhs, rhs, flags, name@),
            final(self).wf(),
    {
        if lhs.0 >= self.module.value_count() || rhs.0 >= self.module.value_count() {
            return Err(IrError::ForeignValueId);
        }
        match opcode {
            BinaryOpcode::FAdd | BinaryOpcode::FSub | BinaryOpcode::FMul | BinaryOpcode::FDiv | BinaryOpcode::FRem => {
                return Err(IrError::InvalidOperation { message: "opcode is not an integer binary operator" });
            },
            _ => {},
        }
        self.int_binop_dyn_core(opcode, lhs, rhs, flags, name)
    }

    /// Integer negation, `sub 0, value`.
    pub fn int_neg(&mut self, value: ValueId, name: &str) -> (r: IrResult<ValueId>)
        requires
            old(self).wf(),
            old(self).state().block is Some,
        ensures
            final(self).folder_spec() == old(self).folder_spec(),
            with_constant_done(old(self).state(), final(self).state(), r, old(self).folder_spec(), false, BinaryOpcode::Sub, value, |w: nat| splat(w, false), true, no_flags(), name@),
    {
        self.neg_core(value, false, name)
    }

    /// Integer negation without signed wrap, `sub nsw 0, value`.
    pub fn int_neg_nsw(&mut self, value: ValueId, name: &str) -> (r: IrResult<ValueId>)
        requires
            old(self).wf(),
            old(self).state().block is Some,
        ensures
            final(self).folder_spec() == old(self).folder_spec(),
            with_constant_done(old(self).state(), final(self).state(), r, old(self).folder_spec(), true, BinaryOpcode::Sub, value, |w: nat| splat(w, false), true,
                accepted_flags(BinaryOpcode::Sub, InstFlags { nuw: false, nsw: true, exact: false, disjoint: false, nneg: false, samesign: false, fmf: FastMathFlags { bits: 0 } }), name@),
    {
        self.neg_core(value, true, name)
    }

    /// Bitwise complement, `xor value, -1`.
    pub fn int_not(&mut self, value: ValueId, name: &str) -> (r: IrResult<ValueId>)
        requires
            old(self).wf(),
            old(self).state().block is Some,
        ensures
            final(self).folder_spec() == old(self).folder_spec(),
            with_constant_done(old(self).state(), final(self).state(), r, old(self).folder_spec(), false, BinaryOpcode::Xor, value, |w: nat| splat(w, true), false, no_flags(), name@),
    {
        if let Some(e) = self.check_int_operand(value) {
            return Err(e);
        }
        let ty = self.module.value_type(value);
        let ghost s = self.state();
        let ones = match self.module.const_all_ones(ty) {
            Ok(c) => c,
            Err(e) => { return Err(e); },
        };
        let ghost mid = self.state().module;
        let r = self.int_binop_core(BinaryOpcode::Xor, value, ones, InstFlags::none(), false, name);
        proof {
            assert(int_pair_error(mid, value, ones) is None);
            assert(const_bits(mid, ones) == Some(splat(s.module.types()[ty.0 as int]->bits as nat, true)));
        }
        r
    }

    fn neg_core(&mut self, value: ValueId, nsw: bool, name: &str) -> (r: IrResult<ValueId>)
        requires
            old(self).wf(),
            old(self).state().block is Some,
        ensures
            final(self).folder_spec() == old(self).folder_spec(),
            with_constant_done(old(self).state(), final(self).state(), r, old(self).folder_spec(), nsw, BinaryOpcode::Sub, value, |w: nat| splat(w, false), true,
                accepted_flags(BinaryOpcode::Sub, InstFlags { nuw: false, nsw: nsw, exact: false, disjoint: false, nneg: false, samesign: false, fmf: FastMathFlags { bits: 0 } }), name@),
    {
        if let Some(e) = self.check_int_operand(value) {
            return Err(e);
        }
        let ty = self.module.value_type(value);
        let zero = match self.module.const_zero(ty) {
            Ok(c) => c,
            Err(e) => { return Err(e); },
        };
        let ghost mid = self.state().module;
        let flags = InstFlags { nuw: false, nsw, exact: false, disjoint: false, nneg: false, samesign: false, fmf: FastMathFlags { bits: 0 } };
        let r = self.int_binop_core(BinaryOpcode::Sub, zero, value, flags, nsw, name);
        proof {
            assert(int_pair_error(mid, zero, value) is None);
            assert(const_bits(mid, zero) == Some(splat(old(self).state().module.types()[ty.0 as int]->bits as nat, false)));
        }
        r
    }
}

impl<F: IRBuilderFolder> IrBuilder<F> {
    /// Validates two operands of a scalar floating-point operation.
    fn check_fp_pair(&self, lhs: ValueId, rhs: ValueId) -> (r: Option<IrError>)
        requires
            self.wf(),
        ensures
            r == fp_pair_error(self.state().module, lhs, rhs),
    {
        if lhs.0 >= self.module.value_count() || rhs.0 >= self.module.value_count() {
            return Some(IrError::ForeignValueId);
        }
        let lt = self.module.value_type(lhs);
        let rt = self.module.value_type(rhs);
        match self.module.type_data(lt) {
            TypeData::Float { .. } => {},
            _ => {
                return Some(IrError::TypeMismatch { expected: TypeKindLabel::Float, got: self.module.kind_label(lt) });
            },
        }
        match self.module.require_match(lt, rt) {
            Ok(()) => None,
            Err(e) => Some(e),
        }
    }

    /// Validates the operand of a scalar floating-point operation.
    fn check_fp_operand(&self, v: ValueId) -> (r: Option<IrError>)
        requires
            self.wf(),
        ensures
            r == fp_operand_error(self.state().module, v),
    {
        if v.0 >= self.module.value_count() {
            return Some(IrError::ForeignValueId);
        }
        let t = self.module.value_type(v);
        match self.module.type_data(t) {
            TypeData::Float { .. } => None,
            _ => Some(IrError::TypeMismatch { expected: TypeKindLabel::Float, got: self.module.kind_label(t) }),
        }
    }

    /// `ty` is a floating-point type or a vector of one.
    fn fp_or_fp_vector(&self, ty: TypeId) -> (r: bool)
        requires
            self.wf(),
            self.state().module.valid_type(ty),
        ensures
            r == is_fp_or_fp_vector(self.state().module.types(), ty),
    {
        match self.module.type_data(ty) {
            TypeData::Float { .. } => true,
            TypeData::FixedVector { elem, .. } => {
                proof {
                    assert(crate::ir::type_refs_below(self.state().module.types()[ty.0 as int], ty.0 as int));
                }
                match self.module.type_data(elem) {
                    TypeData::Float { .. } => true,
                    _ => false,
                }
            },
            _ => false,
        }
    }

    /// `ty` is a pointer or a vector of pointers.
    fn ptr_or_ptr_vector(&self, ty: TypeId) -> (r: bool)
        requires
            self.wf(),
            self.state().module.valid_type(ty),
        ensures
            r == is_ptr_or_ptr_vector(self.state().module.types(), ty),
    {
        match self.module.type_data(ty) {
            TypeData::Pointer { .. } => true,
            TypeData::FixedVector { elem, .. } => {
                proof {
                    assert(crate::ir::type_refs_below(self.state().module.types()[ty.0 as int], ty.0 as int));
                }
                match self.module.type_data(elem) {
                    TypeData::Pointer { .. } => true,
                    _ => false,
                }
            },
            _ => false,
        }
    }

    /// Validates `op src to dst`.
    fn check_cast(&self, op: CastOpcode, src: ValueId, dst: TypeId, ordered: bool) -> (r: Option<IrError>)
        requires
            self.wf(),
        ensures
            r == cast_error(self.state().module, op, src, dst, ordered),
    {
        if src.0 >= self.module.value_count() || dst.0 >= self.module.type_count() {
            return Some(IrError::ForeignValueId);
        }
        let st = self.module.value_type(src);
        let s = self.module.type_data(st);
        let d = self.module.type_data(dst);
        let (sk, dk) = match cast_kinds_exec(op) {
            Some(k) => k,
            None => {
                return Some(IrError::InvalidOperation { message: "unsupported cast" });
            },
        };
        if !fits_kind(s, sk) {
            return Some(IrError::TypeMismatch { expected: sk, got: self.module.kind_label(st) });
        }
        if !fits_kind(d, dk) {
            return Some(IrError::TypeMismatch { expected: dk, got: self.module.kind_label(dst) });
        }
        match (s, d) {
            (TypeData::Integer { bits: sb }, TypeData::Integer { bits: db }) => {
                let narrows = match op { CastOpcode::Trunc => true, _ => false };
                let extends = match op { CastOpcode::ZExt | CastOpcode::SExt => true, _ => false };
                if (narrows && db >= sb) || (extends && db <= sb) {
                    return Some(IrError::OperandWidthMismatch { lhs: sb, rhs: db });
                }
                None
            },
            (TypeData::Float { kind: sk }, TypeData::Float { kind: dk }) => {
                if ordered {
                    let sw = float_width(sk);
                    let dw = float_width(dk);
                    match op {
                        CastOpcode::FPTrunc => if dw >= sw {
                            return Some(IrError::InvalidOperation { message: "fptrunc destination must be narrower" });
                        },
                        _ => if dw <= sw {
                            return Some(IrError::InvalidOperation { message: "fpext destination must be wider" });
                        },
                    }
                }
                None
            },
            _ => None,
        }
    }

    /// Validates `bitcast src to dst`.
    fn check_bitcast(&self, src: ValueId, dst: TypeId, sk: TypeKindLabel, dk: TypeKindLabel) -> (r: Option<IrError>)
        requires
            self.wf(),
        ensures
            r == bitcast_error(self.state().module, src, dst, sk, dk),
    {
        if src.0 >= self.module.value_count() || dst.0 >= self.module.type_count() {
            return Some(IrError::ForeignValueId);
        }
        let st = self.module.value_type(src);
        let s = self.module.type_data(st);
        let d = self.module.type_data(dst);
        if !fits_kind(s, sk) {
            return Some(IrError::TypeMismatch { expected: sk, got: self.module.kind_label(st) });
        }
        if !fits_kind(d, dk) {
            return Some(IrError::TypeMismatch { expected: dk, got: self.module.kind_label(dst) });
        }
        let sw = scalar_width(s);
        let dw = scalar_width(d);
        if sw != dw {
            return Some(IrError::OperandWidthMismatch { lhs: sw, rhs: dw });
        }
        None
    }

    /// Validates the condition of a branch or select.
    fn check_bool_operand(&self, v: ValueId) -> (r: Option<IrError>)
        requires
            self.wf(),
        ensures
            r == bool_operand_error(self.state().module, v),
    {
        if v.0 >= self.module.value_count() {
            return Some(IrError::ForeignValueId);
        }
        let t = self.module.value_type(v);
        match self.module.type_data(t) {
            TypeData::Integer { bits } => if bits == 1 { None } else { Some(IrError::OperandWidthMismatch { lhs: 1, rhs: bits }) },
            _ => Some(IrError::TypeMismatch { expected: TypeKindLabel::Integer, got: self.module.kind_label(t) }),
        }
    }

    /// Typed floating-point binary operation carrying `fmf`.
    fn fp_binop_core(&mut self, op: BinaryOpcode, lhs: ValueId, rhs: ValueId, fmf: FastMathFlags, name: &str) -> (r: IrResult<ValueId>)
        requires
            old(self).wf(),
            old(self).state().block is Some,
        ensures
            final(self).folder_spec() == old(self).folder_spec(),
            checked_emit(old(self).state(), final(self).state(), r, asks_fp_bin_op(old(self).folder_spec(), op, lhs, rhs, fmf), fp_pair_error(old(self).state().module, lhs, rhs),
                old(self).state().module.ty_of(lhs), Opcode::Binary(op), seq![lhs, rhs], fmf_flags(fmf), name@),
    {
        if let Some(e) = self.check_fp_pair(lhs, rhs) {
            return Err(e);
        }
        let folded = self.folder.fold_fp_bin_op(&self.module, op, lhs, rhs, fmf);
        let ty = self.module.value_type(lhs);
        let flags = InstFlags { nuw: false, nsw: false, exact: false, disjoint: false, nneg: false, samesign: false, fmf };
        let ghost s = self.state();
        let r = self.complete_fold(folded, ty, Opcode::Binary(op), vec![lhs, rhs], flags, name);
        proof { lemma_outcome_emitted(s, self.state().module, folded, r, asks_fp_bin_op(old(self).folder_spec(), op, lhs, rhs, fmf), ty, Opcode::Binary(op), seq![lhs, rhs], flags, name@); }
        r
    }

    /// Typed `fneg` carrying `fmf`.
    fn fp_neg_core(&mut self, value: ValueId, fmf: FastMathFlags, name: &str) -> (r: IrResult<ValueId>)
        requires
            old(self).wf(),
            old(self).state().block is Some,
        ensures
            final(self).folder_spec() == old(self).folder_spec(),
            checked_emit(old(self).state(), final(self).state(), r, asks_fp_un_op(old(self).folder_spec(), UnaryOpcode::FNeg, value, fmf), fp_operand_error(old(self).state().module, value),
                old(self).state().module.ty_of(value), Opcode::Unary(UnaryOpcode::FNeg), seq![value], fmf_flags(fmf), name@),
    {
        if let Some(e) = self.check_fp_operand(value) {
            return Err(e);
        }
        let folded = self.folder.fold_fp_un_op(&self.module, UnaryOpcode::FNeg, value, fmf);
        let ty = self.module.value_type(value);
        let flags = InstFlags { nuw: false, nsw: false, exact: false, disjoint: false, nneg: false, samesign: false, fmf };
        let ghost s = self.state();
        let ops = vec![value];
        assert(ops@ =~= seq![value]);
        let r = self.complete_fold(folded, ty, Opcode::Unary(UnaryOpcode::FNeg), ops, flags, name);
        proof { lemma_outcome_emitted(s, self.state().module, folded, r, asks_fp_un_op(old(self).folder_spec(), UnaryOpcode::FNeg, value, fmf), ty, Opcode::Unary(UnaryOpcode::FNeg), seq![value], flags, name@); }
        r
    }

    /// Typed integer comparison.
    fn int_compare_core(&mut self, pred: IntPredicate, lhs: ValueId, rhs: ValueId, samesign: bool, name: &str) -> (r: IrResult<ValueId>)
        requires
            old(self).wf(),
            old(self).state().block is Some,
        ensures
            final(self).folder_spec() == old(self).folder_spec(),
            compare_emit(old(self).state(), final(self).state(), r, asks_int_compare(old(self).folder_spec(), pred, lhs, rhs), int_pair_error(old(self).state().module, lhs, rhs), Opcode::ICmp(pred), lhs, rhs,
                InstFlags { nuw: false, nsw: false, exact: false, disjoint: false, nneg: false, samesign, fmf: FastMathFlags { bits: 0 } }, name@),
    {
        if let Some(e) = self.check_int_pair(lhs, rhs) {
            return Err(e);
        }
        let i1 = self.module.bool_type();
        let ghost mid = self.state();
        let folded = self.folder.fold_int_cmp(&self.module, pred, lhs, rhs);
        let flags = InstFlags { nuw: false, nsw: false, exact: false, disjoint: false, nneg: false, samesign, fmf: FastMathFlags { bits: 0 } };
        let r = self.complete_fold(folded, i1, Opcode::ICmp(pred), vec![lhs, rhs], flags, name);
        proof {
            lemma_outcome_emitted(mid, self.state().module, folded, r, asks_int_compare(old(self).folder_spec(), pred, lhs, rhs), i1, Opcode::ICmp(pred), seq![lhs, rhs], flags, name@);
            assert(with_module(old(self).state(), mid.module) == mid);
        }
        r
    }

    /// Typed floating-point comparison carrying `fmf`.
    fn fp_compare_core(&mut self, pred: FloatPredicate, lhs: ValueId, rhs: ValueId, fmf: FastMathFlags, name: &str) -> (r: IrResult<ValueId>)
        requires
            old(self).wf(),
            old(self).state().block is Some,
        ensures
            final(self).folder_spec() == old(self).folder_spec(),
            compare_emit(old(self).state(), final(self).state(), r, asks_fp_compare(old(self).folder_spec(), pred, lhs, rhs), fp_pair_error(old(self).state().module, lhs, rhs), Opcode::FCmp(pred), lhs, rhs,
                fmf_flags(fmf), name@),
    {
        if let Some(e) = self.check_fp_pair(lhs, rhs) {
            return Err(e);
        }
        let i1 = self.module.bool_type();
        let ghost mid = self.state();
        let folded = self.folder.fold_fp_cmp(&self.module, pred, lhs, rhs);
        let flags = InstFlags { nuw: false, nsw: false, exact: false, disjoint: false, nneg: false, samesign: false, fmf };
        let r = self.complete_fold(folded, i1, Opcode::FCmp(pred), vec![lhs, rhs], flags, name);
        proof {
            lemma_outcome_emitted(mid, self.state().module, folded, r, asks_fp_compare(old(self).folder_spec(), pred, lhs, rhs), i1, Opcode::FCmp(pred), seq![lhs, rhs], flags, name@);
            assert(with_module(old(self).state(), mid.module) == mid);
        }
        r
    }

    /// Result type of a comparison over operands of type `ty`.
    fn compare_result_type(&mut self, ty: TypeId) -> (t: TypeId)
        requires
            old(self).wf(),
            old(self).state().module.valid_type(ty),
        ensures
            final(self).folder_spec() == old(self).folder_spec(),
            final(self).wf(),
            same_place(old(self).state(), final(self).state()),
            module_grew_types(old(self).state().module, final(self).state().module),
            final(self).state().module.valid_type(t),
            compare_result_type_ok(final(self).state().module.types(), ty, t),
    {
        let shape = self.module.type_data(ty);
        let i1 = self.module.bool_type();
        match shape {
            TypeData::FixedVector { n, .. } => {
                let ghost m1 = self.state().module;
                let t = self.module.fixed_vector_type(i1, n);
                proof {
                    lemma_grew_trans(old(self).state().module, m1, self.state().module);
                    assert(self.state().module.types()[ty.0 as int] == m1.types()[ty.0 as int]);
                    assert(self.state().module.types()[i1.0 as int] == m1.types()[i1.0 as int]);
                }
                t
            },
            _ => i1,
        }
    }

    /// Comparison over erased operands, inserted without folding.
    fn compare_erased_core(&mut self, op: Opcode, lhs: ValueId, rhs: ValueId, int_like: bool, flags: InstFlags, name: &str) -> (r: IrResult<ValueId>)
        requires
            old(self).wf(),
            old(self).state().block is Some,
        ensures
            final(self).folder_spec() == old(self).folder_spec(),
            compare_erased_emit(old(self).state(), final(self).state(), r,
                if int_like {
                    is_int_or_int_vector(old(self).state().module.types(), old(self).state().module.ty_of(lhs))
                        || is_ptr_or_ptr_vector(old(self).state().module.types(), old(self).state().module.ty_of(lhs))
                } else {
                    is_fp_or_fp_vector(old(self).state().module.types(), old(self).state().module.ty_of(lhs))
                },
                op, lhs, rhs, flags, name@),
    {
        if lhs.0 >= self.module.value_count() || rhs.0 >= self.module.value_count() {
            return Err(IrError::ForeignValueId);
        }
        let lt = self.module.value_type(lhs);
        let rt = self.module.value_type(rhs);
        if lt != rt {
            return Err(IrError::InvalidOperation { message: "comparison operands must have the same type" });
        }
        let fits = if int_like {
            self.int_or_int_vector(lt) || self.ptr_or_ptr_vector(lt)
        } else {
            self.fp_or_fp_vector(lt)
        };
        if !fits {
            return Err(IrError::InvalidOperation { message: "comparison operand type does not fit the predicate" });
        }
        let ghost s0 = self.state();
        let t = self.compare_result_type(lt);
        let ghost mid = self.state().module;
        let b = match self.insert_block { Some(b) => b, None => BlockId(0) };
        let v = self.module.insert_instruction(b, self.insert_before, t, op, vec![lhs, rhs], Vec::new(), flags, name);
        proof {
            assert(mid.types()[lt.0 as int] == s0.module.types()[lt.0 as int]);
            assert(compare_result_type_ok(mid.types(), s0.module.ty_of(lhs), t));
        }
        Ok(v)
    }

    /// A cast, folded through the typed hooks when `typed`, else through
    /// the erased hook.
    fn cast_core(&mut self, op: CastOpcode, src: ValueId, dst: TypeId, flags: InstFlags, typed: bool, ordered: bool, name: &str) -> (r: IrResult<ValueId>)
        requires
            old(self).wf(),
            old(self).state().block is Some,
        ensures
            final(self).folder_spec() == old(self).folder_spec(),
            checked_emit(old(self).state(), final(self).state(), r, asks_cast(old(self).folder_spec(), op, src, dst, typed), cast_error(old(self).state().module, op, src, dst, ordered),
                dst, Opcode::Cast(op), seq![src], flags, name@),
    {
        if let Some(e) = self.check_cast(op, src, dst, ordered) {
            return Err(e);
        }
        let to_int = match op {
            CastOpcode::Trunc | CastOpcode::ZExt | CastOpcode::SExt | CastOpcode::FPToUI | CastOpcode::FPToSI => true,
            _ => false,
        };
        let folded = if !typed {
            self.folder.fold_cast_dyn(&self.module, op, src, dst)
        } else if to_int {
            self.folder.fold_cast_to_int(&self.module, op, src, dst)
        } else {
            self.folder.fold_cast_to_fp(&self.module, op, src, dst)
        };
        let ghost s = self.state();
        let ops = vec![src];
        assert(ops@ =~= seq![src]);
        let r = self.complete_fold(folded, dst, Opcode::Cast(op), ops, flags, name);
        proof { lemma_outcome_emitted(s, self.state().module, folded, r, asks_cast(old(self).folder_spec(), op, src, dst, typed), dst, Opcode::Cast(op), seq![src], flags, name@); }
        r
    }

    /// Inserts the terminator `op operands targets` and drops the
    /// insertion point.
    fn terminate(&mut self, op: Opcode, operands: Vec<ValueId>, targets: Vec<BlockId>) -> (r: (BlockId, ValueId))
        requires
            old(self).wf(),
            old(self).state().block is Some,
            forall|k: int| 0 <= k < operands@.len() ==> old(self).state().module.valid_value(#[trigger] operands@[k]),
            forall|k: int| 0 <= k < targets@.len() ==> old(self).state().module.valid_block(#[trigger] targets@[k]),
        ensures
            final(self).folder_spec() == old(self).folder_spec(),
            term_emit(old(self).state(), final(self).state(), Ok::<(BlockId, ValueId), IrError>(r), None, op, operands@, targets@),
    {
        let b = match self.insert_block { Some(b) => b, None => BlockId(0) };
        let void_ty = self.module.void_type();
        let ghost mid = self.state().module;
        let v = self.module.insert_instruction(b, self.insert_before, void_ty, op, operands, targets, InstFlags::none(), "");
        proof {
            assert(mid.types()[void_ty.0 as int] == TypeData::Void);
            assert(""@ == Seq::<char>::empty()) by { reveal_strlit(""); }
        }
        self.insert_block = None;
        self.insert_before = None;
        (b, v)
    }
}

impl<F: IRBuilderFolder> IrBuilder<F> {
    /// `ForeignValueId` when one of `vs` is not a value of the module.
    fn check_values(&self, vs: &Vec<ValueId>) -> (r: Option<IrError>)
        requires
            self.wf(),
        ensures
            r == values_error(self.state().module, vs@),
    {
        let n = vs.len();
        for i in 0..n
            invariant
                self.wf(),
                n == vs@.len(),
                forall|k: int| 0 <= k < i ==> self.state().module.valid_value(#[trigger] vs@[k]),
        {
            if vs[i].0 >= self.module.value_count() {
                return Some(IrError::ForeignValueId);
            }
        }
        None
    }

    /// Inserts the pad `op operands` of type `token`.
    fn insert_pad(&mut self, op: Opcode, operands: Vec<ValueId>, name: &str) -> (r: IrResult<ValueId>)
        requires
            old(self).wf(),
            old(self).state().block is Some,
        ensures
            final(self).folder_spec() == old(self).folder_spec(),
            interned_emit(old(self).state(), final(self).state(), r, values_error(old(self).state().module, operands@),
                TypeData::Token, op, operands@, name@),
    {
        if let Some(e) = self.check_values(&operands) {
            return Err(e);
        }
        let t = self.module.token_type();
        let ghost mid = self.state().module;
        let v = self.insert_plain(t, op, operands, name);
        proof {
            assert(mid.types()[t.0 as int] == TypeData::Token);
        }
        Ok(v)
    }

    /// Ends the block with the terminator `op operands targets` of type
    /// `token` named `name`.
    fn terminate_token(&mut self, op: Opcode, operands: Vec<ValueId>, targets: Vec<BlockId>, name: &str)
        -> (r: IrResult<(BlockId, ValueId)>)
        requires
            old(self).wf(),
            old(self).state().block is Some,
        ensures
            final(self).folder_spec() == old(self).folder_spec(),
            token_term_emit(old(self).state(), final(self).state(), r, pad_term_error(old(self).state().module, operands@, targets@),
                op, operands@, targets@, name@),
    {
        let ghost m = self.state().module;
        if let Some(e) = self.check_values(&operands) {
            return Err(e);
        }
        let n = targets.len();
        for i in 0..n
            invariant
                self.wf(),
                self.state().module == m,
                n == targets@.len(),
                values_error(m, operands@) is None,
                forall|k: int| 0 <= k < i ==> m.valid_block(#[trigger] targets@[k]),
        {
            if targets[i].0 >= self.module.block_count() {
                return Err(IrError::ForeignValueId);
            }
        }
        let b = match self.insert_block { Some(b) => b, None => BlockId(0) };
        let t = self.module.token_type();
        let ghost mid = self.state().module;
        let v = self.module.insert_instruction(b, self.insert_before, t, op, operands, targets, InstFlags::none(), name);
        proof {
            assert(mid.types()[t.0 as int] == TypeData::Token);
        }
        self.insert_block = None;
        self.insert_before = None;
        Ok((b, v))
    }

    /// Ends the block with the `void` terminator `op operands targets`
    /// once its operands and destinations are known to the module.
    fn terminate_checked(&mut self, op: Opcode, operands: Vec<ValueId>, targets: Vec<BlockId>)
        -> (r: IrResult<(BlockId, ValueId)>)
        requires
            old(self).wf(),
            old(self).state().block is Some,
        ensures
            final(self).folder_spec() == old(self).folder_spec(),
            term_emit(old(self).state(), final(self).state(), r, pad_term_error(old(self).state().module, operands@, targets@),
                op, operands@, targets@),
    {
        let ghost m = self.state().module;
        if let Some(e) = self.check_values(&operands) {
            return Err(e);
        }
        let n = targets.len();
        for i in 0..n
            invariant
                self.wf(),
                self.state().module == m,
                n == targets@.len(),
                values_error(m, operands@) is None,
                forall|k: int| 0 <= k < i ==> m.valid_block(#[trigger] targets@[k]),
        {
            if targets[i].0 >= self.module.block_count() {
                return Err(IrError::ForeignValueId);
            }
        }
        Ok(self.terminate(op, operands, targets))
    }

    /// `cleanuppad within parent [args...]`, of type `token`.
    pub fn cleanup_pad(&mut self, parent: ValueId, args: &Vec<ValueId>, name: &str) -> (r: IrResult<ValueId>)
        requires
            old(self).wf(),
            old(self).state().block is Some,
        ensures
            final(self).folder_spec() == old(self).folder_spec(),
            interned_emit(old(self).state(), final(self).state(), r, values_error(old(self).state().module, seq![parent] + args@),
                TypeData::Token, Opcode::CleanupPad { within: true }, seq![parent] + args@, name@),
    {
        let head = vec![parent];
        let ops = concat_ids(&head, args);
        assert(head@ =~= seq![parent]);
        self.insert_pad(Opcode::CleanupPad { within: true }, ops, name)
    }

    /// `cleanuppad within none [args...]`, of type `token`.
    pub fn cleanup_pad_within_none(&mut self, args: &Vec<ValueId>, name: &str) -> (r: IrResult<ValueId>)
        requires
            old(self).wf(),
            old(self).state().block is Some,
        ensures
            final(self).folder_spec() == old(self).folder_spec(),
            interned_emit(old(self).state(), final(self).state(), r, values_error(old(self).state().module, args@),
                TypeData::Token, Opcode::CleanupPad { within: false }, args@, name@),
    {
        let empty: Vec<ValueId> = Vec::new();
        let ops = concat_ids(&empty, args);
        assert(ops@ =~= args@);
        self.insert_pad(Opcode::CleanupPad { within: false }, ops, name)
    }

    /// `catchpad within catch_switch [args...]`, of type `token`.
    pub fn catch_pad(&mut self, catch_switch: ValueId, args: &Vec<ValueId>, name: &str) -> (r: IrResult<ValueId>)
        requires
            old(self).wf(),
            old(self).state().block is Some,
        ensures
            final(self).folder_spec() == old(self).folder_spec(),
            interned_emit(old(self).state(), final(self).state(), r, values_error(old(self).state().module, seq![catch_switch] + args@),
                TypeData::Token, Opcode::CatchPad, seq![catch_switch] + args@, name@),
    {
        let head = vec![catch_switch];
        let ops = concat_ids(&head, args);
        assert(head@ =~= seq![catch_switch]);
        self.insert_pad(Opcode::CatchPad, ops, name)
    }

    /// `catchret from pad to label target`; ends the block. An
    /// instruction of type `void` carries no name, so `name` is not
    /// recorded.
    pub fn catch_ret(&mut self, pad: ValueId, target: BlockId, name: &str) -> (r: IrResult<(BlockId, ValueId)>)
        requires
            old(self).wf(),
            old(self).state().block is Some,
        ensures
            final(self).folder_spec() == old(self).folder_spec(),
            term_emit(old(self).state(), final(self).state(), r, pad_term_error(old(self).state().module, seq![pad], seq![target]),
                Opcode::CatchRet, seq![pad], seq![target]),
    {
        let ops = vec![pad];
        let ts = vec![target];
        assert(ops@ =~= seq![pad] && ts@ =~= seq![target]);
        self.terminate_checked(Opcode::CatchRet, ops, ts)
    }

    /// `cleanupret from pad unwind label unwind`; ends the block. An
    /// instruction of type `void` carries no name, so `name` is not
    /// recorded.
    pub fn cleanup_ret(&mut self, pad: ValueId, unwind: BlockId, name: &str) -> (r: IrResult<(BlockId, ValueId)>)
        requires
            old(self).wf(),
            old(self).state().block is Some,
        ensures
            final(self).folder_spec() == old(self).folder_spec(),
            term_emit(old(self).state(), final(self).state(), r, pad_term_error(old(self).state().module, seq![pad], seq![unwind]),
                Opcode::CleanupRet, seq![pad], seq![unwind]),
    {
        let ops = vec![pad];
        let ts = vec![unwind];
        assert(ops@ =~= seq![pad] && ts@ =~= seq![unwind]);
        self.terminate_checked(Opcode::CleanupRet, ops, ts)
    }

    /// `cleanupret from pad unwind to caller`; ends the block. An
    /// instruction of type `void` carries no name, so `name` is not
    /// recorded.
    pub fn cleanup_ret_to_caller(&mut self, pad: ValueId, name: &str) -> (r: IrResult<(BlockId, ValueId)>)
        requires
            old(self).wf(),
            old(self).state().block is Some,
        ensures
            final(self).folder_spec() == old(self).folder_spec(),
            term_emit(old(self).state(), final(self).state(), r, pad_term_error(old(self).state().module, seq![pad], Seq::<BlockId>::empty()),
                Opcode::CleanupRet, seq![pad], Seq::<BlockId>::empty()),
    {
        let ops = vec![pad];
        let ts: Vec<BlockId> = Vec::new();
        assert(ops@ =~= seq![pad] && ts@ =~= Seq::<BlockId>::empty());
        self.terminate_checked(Opcode::CleanupRet, ops, ts)
    }

    /// `catchswitch within parent [] unwind label unwind`, of type
    /// `token`; ends the block. Its handlers are added afterwards.
    pub fn catch_switch(&mut self, parent: ValueId, unwind: BlockId, name: &str) -> (r: IrResult<(BlockId, ValueId)>)
        requires
            old(self).wf(),
            old(self).state().block is Some,
        ensures
            final(self).folder_spec() == old(self).folder_spec(),
            token_term_emit(old(self).state(), final(self).state(), r, pad_term_error(old(self).state().module, seq![parent], seq![unwind]),
                Opcode::CatchSwitch { within: true }, seq![parent], seq![unwind], name@),
    {
        let ops = vec![parent];
        let ts = vec![unwind];
        assert(ops@ =~= seq![parent] && ts@ =~= seq![unwind]);
        self.terminate_token(Opcode::CatchSwitch { within: true }, ops, ts, name)
    }

    /// `catchswitch within parent [] unwind to caller`, of type `token`;
    /// ends the block.
    pub fn catch_switch_to_caller(&mut self, parent: ValueId, name: &str) -> (r: IrResult<(BlockId, ValueId)>)
        requires
            old(self).wf(),
            old(self).state().block is Some,
        ensures
            final(self).folder_spec() == old(self).folder_spec(),
            token_term_emit(old(self).state(), final(self).state(), r, pad_term_error(old(self).state().module, seq![parent], Seq::<BlockId>::empty()),
                Opcode::CatchSwitch { within: true }, seq![parent], Seq::<BlockId>::empty(), name@),
    {
        let ops = vec![parent];
        let ts: Vec<BlockId> = Vec::new();
        assert(ops@ =~= seq![parent] && ts@ =~= Seq::<BlockId>::empty());
        self.terminate_token(Opcode::CatchSwitch { within: true }, ops, ts, name)
    }

    /// `catchswitch within none [] unwind label unwind`, of type `token`;
    /// ends the block.
    pub fn catch_switch_within_none(&mut self, unwind: BlockId, name: &str) -> (r: IrResult<(BlockId, ValueId)>)
        requires
            old(self).wf(),
            old(self).state().block is Some,
        ensures
            final(self).folder_spec() == old(self).folder_spec(),
            token_term_emit(old(self).state(), final(self).state(), r, pad_term_error(old(self).state().module, Seq::<ValueId>::empty(), seq![unwind]),
                Opcode::CatchSwitch { within: false }, Seq::<ValueId>::empty(), seq![unwind], name@),
    {
        let ops: Vec<ValueId> = Vec::new();
        let ts = vec![unwind];
        assert(ops@ =~= Seq::<ValueId>::empty() && ts@ =~= seq![unwind]);
        self.terminate_token(Opcode::CatchSwitch { within: false }, ops, ts, name)
    }

    /// `catchswitch within none [] unwind to caller`, of type `token`;
    /// ends the block.
    pub fn catch_switch_within_none_to_caller(&mut self, name: &str) -> (r: IrResult<(BlockId, ValueId)>)
        requires
            old(self).wf(),
            old(self).state().block is Some,
        ensures
            final(self).folder_spec() == old(self).folder_spec(),
            token_term_emit(old(self).state(), final(self).state(), r, None,
                Opcode::CatchSwitch { within: false }, Seq::<ValueId>::empty(), Seq::<BlockId>::empty(), name@),
    {
        let ops: Vec<ValueId> = Vec::new();
        let ts: Vec<BlockId> = Vec::new();
        assert(ops@ =~= Seq::<ValueId>::empty() && ts@ =~= Seq::<BlockId>::empty());
        self.terminate_token(Opcode::CatchSwitch { within: false }, ops, ts, name)
    }
}

/// The operand and result kinds of a cast.
fn cast_kinds_exec(op: CastOpcode) -> (r: Option<(TypeKindLabel, TypeKindLabel)>)
    ensures
        r == cast_kinds(op),
{
    match op {
        CastOpcode::Trunc | CastOpcode::ZExt | CastOpcode::SExt => Some((TypeKindLabel::Integer, TypeKindLabel::Integer)),
        CastOpcode::FPTrunc | CastOpcode::FPExt => Some((TypeKindLabel::Float, TypeKindLabel::Float)),
        CastOpcode::FPToUI | CastOpcode::FPToSI => Some((TypeKindLabel::Float, TypeKindLabel::Integer)),
        CastOpcode::UIToFP | CastOpcode::SIToFP => Some((TypeKindLabel::Integer, TypeKindLabel::Float)),
        CastOpcode::PtrToInt => Some((TypeKindLabel::Pointer, TypeKindLabel::Integer)),
        CastOpcode::IntToPtr => Some((TypeKindLabel::Integer, TypeKindLabel::Pointer)),
        CastOpcode::AddrSpaceCast => Some((TypeKindLabel::Pointer, TypeKindLabel::Pointer)),
        _ => None,
    }
}

/// `t` is a type of the kind `k` names.
fn fits_kind(t: TypeData, k: TypeKindLabel) -> (r: bool)
    ensures
        r == kind_fits(t, k),
{
    match k {
        TypeKindLabel::Integer => match t { TypeData::Integer { .. } => true, _ => false },
        TypeKindLabel::Pointer => match t { TypeData::Pointer { .. } => true, _ => false },
        _ => match t { TypeData::Float { .. } => true, _ => false },
    }
}

/// Width in bits of an integer or floating-point type.
fn scalar_width(t: TypeData) -> (r: u32)
    ensures
        r == scalar_bits(t),
{
    match t {
        TypeData::Integer { bits } => bits,
        TypeData::Float { kind } => float_width(kind),
        _ => 0,
    }
}

/// Width in bits of a floating-point format.
fn float_width(k: FloatKind) -> (r: u32)
    ensures
        r == float_bits(k),
{
    match k {
        FloatKind::Half | FloatKind::BFloat => 16,
        FloatKind::Float => 32,
        FloatKind::Double => 64,
        FloatKind::X86Fp80 => 80,
        FloatKind::Fp128 | FloatKind::PpcFp128 => 128,
    }
}

/// `ty` is a pointer or a vector of pointers.
pub open spec fn is_ptr_or_ptr_vector(types: Seq<TypeData>, ty: TypeId) -> bool {
    match types[ty.0 as int] {
        TypeData::Pointer { .. } => true,
        TypeData::FixedVector { elem, .. } => types[elem.0 as int] is Pointer,
        _ => false,
    }
}

impl<F: IRBuilderFolder> IrBuilder<F> {
    /// `fadd lhs, rhs` on two floating-point values of one type, carrying the builder's fast-math flags.
    pub fn fp_add(&mut self, lhs: ValueId, rhs: ValueId, name: &str) -> (r: IrResult<ValueId>)
        requires
            old(self).wf(),
            old(self).state().block is Some,
        ensures
            final(self).folder_spec() == old(self).folder_spec(),
            checked_emit(old(self).state(), final(self).state(), r, asks_fp_bin_op(old(self).folder_spec(), BinaryOpcode::FAdd, lhs, rhs, old(self).state().fmf), fp_pair_error(old(self).state().module, lhs, rhs),
                old(self).state().module.ty_of(lhs), Opcode::Binary(BinaryOpcode::FAdd), seq![lhs, rhs], fmf_flags(old(self).state().fmf), name@),
    {
        let fmf = self.fmf;
        self.fp_binop_core(BinaryOpcode::FAdd, lhs, rhs, fmf, name)
    }

    /// `fsub lhs, rhs` on two floating-point values of one type, carrying the builder's fast-math flags.
    pub fn fp_sub(&mut self, lhs: ValueId, rhs: ValueId, name: &str) -> (r: IrResult<ValueId>)
        requires
            old(self).wf(),
            old(self).state().block is Some,
        ensures
            final(self).folder_spec() == old(self).folder_spec(),
            checked_emit(old(self).state(), final(self).state(), r, asks_fp_bin_op(old(self).folder_spec(), BinaryOpcode::FSub, lhs, rhs, old(self).state().fmf), fp_pair_error(old(self).state().module, lhs, rhs),
                old(self).state().module.ty_of(lhs), Opcode::Binary(BinaryOpcode::FSub), seq![lhs, rhs], fmf_flags(old(self).state().fmf), name@),
    {
        let fmf = self.fmf;
        self.fp_binop_core(BinaryOpcode::FSub, lhs, rhs, fmf, name)
    }

    /// `fmul lhs, rhs` on two floating-point values of one type, carrying the builder's fast-math flags.
    pub fn fp_mul(&mut self, lhs: ValueId, rhs: ValueId, name: &str) -> (r: IrResult<ValueId>)
        requires
            old(self).wf(),
            old(self).state().block is Some,
        ensures
            final(self).folder_spec() == old(self).folder_spec(),
            checked_emit(old(self).state(), final(self).state(), r, asks_fp_bin_op(old(self).folder_spec(), BinaryOpcode::FMul, lhs, rhs, old(self).state().fmf), fp_pair_error(old(self).state().module, lhs, rhs),
                old(self).state().module.ty_of(lhs), Opcode::Binary(BinaryOpcode::FMul), seq![lhs, rhs], fmf_flags(old(self).state().fmf), name@),
    {
        let fmf = self.fmf;
        self.fp_binop_core(BinaryOpcode::FMul, lhs, rhs, fmf, name)
    }

    /// `fdiv lhs, rhs` on two floating-point values of one type, carrying the builder's fast-math flags.
    pub fn fp_div(&mut self, lhs: ValueId, rhs: ValueId, name: &str) -> (r: IrResult<ValueId>)
        requires
            old(self).wf(),
            old(self).state().block is Some,
        ensures
            final(self).folder_spec() == old(self).folder_spec(),
            checked_emit(old(self).state(), final(self).state(), r, asks_fp_bin_op(old(self).folder_spec(), BinaryOpcode::FDiv, lhs, rhs, old(self).state().fmf), fp_pair_error(old(self).state().module, lhs, rhs),
                old(self).state().module.ty_of(lhs), Opcode::Binary(BinaryOpcode::FDiv), seq![lhs, rhs], fmf_flags(old(self).state().fmf), name@),
    {
        let fmf = self.fmf;
        self.fp_binop_core(BinaryOpcode::FDiv, lhs, rhs, fmf, name)
    }

    /// `frem lhs, rhs` on two floating-point values of one type, carrying the builder's fast-math flags.
    pub fn fp_rem(&mut self, lhs: ValueId, rhs: ValueId, name: &str) -> (r: IrResult<ValueId>)
        requires
            old(self).wf(),
            old(self).state().block is Some,
        ensures
            final(self).folder_spec() == old(self).folder_spec(),
            checked_emit(old(self).state(), final(self).state(), r, asks_fp_bin_op(old(self).folder_spec(), BinaryOpcode::FRem, lhs, rhs, old(self).state().fmf), fp_pair_error(old(self).state().module, lhs, rhs),
                old(self).state().module.ty_of(lhs), Opcode::Binary(BinaryOpcode::FRem), seq![lhs, rhs], fmf_flags(old(self).state().fmf), name@),
    {
        let fmf = self.fmf;
        self.fp_binop_core(BinaryOpcode::FRem, lhs, rhs, fmf, name)
    }

    /// `fadd lhs, rhs` carrying the fast-math flags `fmf`.
    pub fn fp_add_fmf(&mut self, lhs: ValueId, rhs: ValueId, fmf: FastMathFlags, name: &str) -> (r: IrResult<ValueId>)
        requires
            old(self).wf(),
            old(self).state().block is Some,
        ensures
            final(self).folder_spec() == old(self).folder_spec(),
            checked_emit(old(self).state(), final(self).state(), r, asks_fp_bin_op(old(self).folder_spec(), BinaryOpcode::FAdd, lhs, rhs, fmf), fp_pair_error(old(self).state().module, lhs, rhs),
                old(self).state().module.ty_of(lhs), Opcode::Binary(BinaryOpcode::FAdd), seq![lhs, rhs], fmf_flags(fmf), name@),
    {
        self.fp_binop_core(BinaryOpcode::FAdd, lhs, rhs, fmf, name)
    }

    /// `fsub lhs, rhs` carrying the fast-math flags `fmf`.
    pub fn fp_sub_fmf(&mut self, lhs: ValueId, rhs: ValueId, fmf: FastMathFlags, name: &str) -> (r: IrResult<ValueId>)
        requires
            old(self).wf(),
            old(self).state().block is Some,
        ensures
            final(self).folder_spec() == old(self).folder_spec(),
            checked_emit(old(self).state(), final(self).state(), r, asks_fp_bin_op(old(self).folder_spec(), BinaryOpcode::FSub, lhs, rhs, fmf), fp_pair_error(old(self).state().module, lhs, rhs),
                old(self).state().module.ty_of(lhs), Opcode::Binary(BinaryOpcode::FSub), seq![lhs, rhs], fmf_flags(fmf), name@),
    {
        self.fp_binop_core(BinaryOpcode::FSub, lhs, rhs, fmf, name)
    }

    /// `fmul lhs, rhs` carrying the fast-math flags `fmf`.
    pub fn fp_mul_fmf(&mut self, lhs: ValueId, rhs: ValueId, fmf: FastMathFlags, name: &str) -> (r: IrResult<ValueId>)
        requires
            old(self).wf(),
            old(self).state().block is Some,
        ensures
            final(self).folder_spec() == old(self).folder_spec(),
            checked_emit(old(self).state(), final(self).state(), r, asks_fp_bin_op(old(self).folder_spec(), BinaryOpcode::FMul, lhs, rhs, fmf), fp_pair_error(old(self).state().module, lhs, rhs),
                old(self).state().module.ty_of(lhs), Opcode::Binary(BinaryOpcode::FMul), seq![lhs, rhs], fmf_flags(fmf), name@),
    {
        self.fp_binop_core(BinaryOpcode::FMul, lhs, rhs, fmf, name)
    }

    /// `fdiv lhs, rhs` carrying the fast-math flags `fmf`.
    pub fn fp_div_fmf(&mut self, lhs: ValueId, rhs: ValueId, fmf: FastMathFlags, name: &str) -> (r: IrResult<ValueId>)
        requires
            old(self).wf(),
            old(self).state().block is Some,
        ensures
            final(self).folder_spec() == old(self).folder_spec(),
            checked_emit(old(self).state(), final(self).state(), r, asks_fp_bin_op(old(self).folder_spec(), BinaryOpcode::FDiv, lhs, rhs, fmf), fp_pair_error(old(self).state().module, lhs, rhs),
                old(self).state().module.ty_of(lhs), Opcode::Binary(BinaryOpcode::FDiv), seq![lhs, rhs], fmf_flags(fmf), name@),
    {
        self.fp_binop_core(BinaryOpcode::FDiv, lhs, rhs, fmf, name)
    }

    /// `frem lhs, rhs` carrying the fast-math flags `fmf`.
    pub fn fp_rem_fmf(&mut self, lhs: ValueId, rhs: ValueId, fmf: FastMathFlags, name: &str) -> (r: IrResult<ValueId>)
        requires
            old(self).wf(),
            old(self).state().block is Some,
        ensures
            final(self).folder_spec() == old(self).folder_spec(),
            checked_emit(old(self).state(), final(self).state(), r, asks_fp_bin_op(old(self).folder_spec(), BinaryOpcode::FRem, lhs, rhs, fmf), fp_pair_error(old(self).state().module, lhs, rhs),
                old(self).state().module.ty_of(lhs), Opcode::Binary(BinaryOpcode::FRem), seq![lhs, rhs], fmf_flags(fmf), name@),
    {
        self.fp_binop_core(BinaryOpcode::FRem, lhs, rhs, fmf, name)
    }

    /// `fneg value` carrying the builder's fast-math flags.
    pub fn fp_neg(&mut self, value: ValueId, name: &str) -> (r: IrResult<ValueId>)
        requires
            old(self).wf(),
            old(self).state().block is Some,
        ensures
            final(self).folder_spec() == old(self).folder_spec(),
            checked_emit(old(self).state(), final(self).state(), r, asks_fp_un_op(old(self).folder_spec(), UnaryOpcode::FNeg, value, old(self).state().fmf), fp_operand_error(old(self).state().module, value),
                old(self).state().module.ty_of(value), Opcode::Unary(UnaryOpcode::FNeg), seq![value], fmf_flags(old(self).state().fmf), name@),
    {
        let fmf = self.fmf;
        self.fp_neg_core(value, fmf, name)
    }

    /// `fneg value` carrying the fast-math flags `fmf`.
    pub fn fp_neg_fmf(&mut self, value: ValueId, fmf: FastMathFlags, name: &str) -> (r: IrResult<ValueId>)
        requires
            old(self).wf(),
            old(self).state().block is Some,
        ensures
            final(self).folder_spec() == old(self).folder_spec(),
            checked_emit(old(self).state(), final(self).state(), r, asks_fp_un_op(old(self).folder_spec(), UnaryOpcode::FNeg, value, fmf), fp_operand_error(old(self).state().module, value),
                old(self).state().module.ty_of(value), Opcode::Unary(UnaryOpcode::FNeg), seq![value], fmf_flags(fmf), name@),
    {
        self.fp_neg_core(value, fmf, name)
    }

    /// `opcode lhs, rhs` on floating-point values or vectors of one type, for an opcode known only at run time; an integer opcode is refused.
    pub fn fp_binop_erased(&mut self, opcode: BinaryOpcode, lhs: ValueId, rhs: ValueId, fmf: FastMathFlags, name: &str) -> (r: IrResult<ValueId>)
        requires
            old(self).wf(),
            old(self).state().block is Some,
        ensures
            final(self).folder_spec() == old(self).folder_spec(),
            final(self).wf(),
            !old(self).state().module.valid_value(lhs) || !old(self).state().module.valid_value(rhs)
                ==> r == Err::<ValueId, IrError>(IrError::ForeignValueId) && final(self).state() == old(self).state(),
            old(self).state().module.valid_value(lhs) && old(self).state().module.valid_value(rhs) && is_int_opcode(opcode)
                ==> r == Err::<ValueId, IrError>(IrError::InvalidOperation { message: "opcode is not a floating-point binary operator" })
                    && final(self).state() == old(self).state(),
            !is_int_opcode(opcode) ==> checked_emit_dyn(old(self).state(), final(self).state(), r, asks_bin_op_fmf_dyn(old(self).folder_spec(), opcode, lhs, rhs, fmf), fp_dyn_pair_error(old(self).state().module, lhs, rhs),
                old(self).state().module.ty_of(lhs), Opcode::Binary(opcode), seq![lhs, rhs], fmf_flags(fmf), name@),
    {
        if lhs.0 >= self.module.value_count() || rhs.0 >= self.module.value_count() {
            return Err(IrError::ForeignValueId);
        }
        match opcode {
            BinaryOpcode::FAdd | BinaryOpcode::FSub | BinaryOpcode::FMul | BinaryOpcode::FDiv | BinaryOpcode::FRem => {},
            _ => {
                return Err(IrError::InvalidOperation { message: "opcode is not a floating-point binary operator" });
            },
        }
        let lt = self.module.value_type(lhs);
        let rt = self.module.value_type(rhs);
        if lt != rt {
            return Err(IrError::InvalidOperation { message: "floating-point binop operands must have the same type" });
        }
        if !self.fp_or_fp_vector(lt) {
            return Err(IrError::InvalidOperation { message: "floating-point binop operand is neither a float nor a float vector" });
        }
        let folded = self.folder.fold_bin_op_fmf_dyn(&self.module, opcode, lhs, rhs, fmf);
        let flags = InstFlags { nuw: false, nsw: false, exact: false, disjoint: false, nneg: false, samesign: false, fmf };
        let ghost s = self.state();
        let r = self.complete_fold(folded, lt, Opcode::Binary(opcode), vec![lhs, rhs], flags, name);
        proof { lemma_outcome_emitted(s, self.state().module, folded, r, asks_bin_op_fmf_dyn(old(self).folder_spec(), opcode, lhs, rhs, fmf), lt, Opcode::Binary(opcode), seq![lhs, rhs], flags, name@); }
        r
    }

    /// `fneg value` on a floating-point value or vector, carrying `fmf`.
    pub fn fp_neg_erased(&mut self, value: ValueId, fmf: FastMathFlags, name: &str) -> (r: IrResult<ValueId>)
        requires
            old(self).wf(),
            old(self).state().block is Some,
        ensures
            final(self).folder_spec() == old(self).folder_spec(),
            checked_emit_dyn(old(self).state(), final(self).state(), r, asks_un_op_fmf_dyn(old(self).folder_spec(), UnaryOpcode::FNeg, value, fmf), fp_dyn_operand_error(old(self).state().module, value),
                old(self).state().module.ty_of(value), Opcode::Unary(UnaryOpcode::FNeg), seq![value], fmf_flags(fmf), name@),
    {
        if value.0 >= self.module.value_count() {
            return Err(IrError::ForeignValueId);
        }
        let t = self.module.value_type(value);
        if !self.fp_or_fp_vector(t) {
            return Err(IrError::InvalidOperation { message: "fneg operand is neither a float nor a float vector" });
        }
        let folded = self.folder.fold_un_op_fmf_dyn(&self.module, UnaryOpcode::FNeg, value, fmf);
        let flags = InstFlags { nuw: false, nsw: false, exact: false, disjoint: false, nneg: false, samesign: false, fmf };
        let ops = vec![value];
        assert(ops@ =~= seq![value]);
        let ghost s = self.state();
        let r = self.complete_fold(folded, t, Opcode::Unary(UnaryOpcode::FNeg), ops, flags, name);
        proof { lemma_outcome_emitted(s, self.state().module, folded, r, asks_un_op_fmf_dyn(old(self).folder_spec(), UnaryOpcode::FNeg, value, fmf), t, Opcode::Unary(UnaryOpcode::FNeg), seq![value], flags, name@); }
        r
    }

    /// `icmp pred lhs, rhs` on two integers of one type; the result is `i1`.
    pub fn int_cmp(&mut self, pred: IntPredicate, lhs: ValueId, rhs: ValueId, name: &str) -> (r: IrResult<ValueId>)
        requires
            old(self).wf(),
            old(self).state().block is Some,
        ensures
            final(self).folder_spec() == old(self).folder_spec(),
            compare_emit(old(self).state(), final(self).state(), r, asks_int_compare(old(self).folder_spec(), pred, lhs, rhs), int_pair_error(old(self).state().module, lhs, rhs), Opcode::ICmp(pred), lhs, rhs,
                InstFlags { nuw: false, nsw: false, exact: false, disjoint: false, nneg: false, samesign: false, fmf: FastMathFlags { bits: 0 } }, name@),
    {
        self.int_compare_core(pred, lhs, rhs, false, name)
    }

    /// `icmp pred lhs, rhs` carrying the `samesign` flag of `flags`.
    pub fn int_cmp_with_flags(&mut self, pred: IntPredicate, lhs: ValueId, rhs: ValueId, flags: InstFlags, name: &str) -> (r: IrResult<ValueId>)
        requires
            old(self).wf(),
            old(self).state().block is Some,
        ensures
            final(self).folder_spec() == old(self).folder_spec(),
            compare_emit(old(self).state(), final(self).state(), r, asks_int_compare(old(self).folder_spec(), pred, lhs, rhs), int_pair_error(old(self).state().module, lhs, rhs), Opcode::ICmp(pred), lhs, rhs,
                InstFlags { nuw: false, nsw: false, exact: false, disjoint: false, nneg: false, samesign: flags.samesign, fmf: FastMathFlags { bits: 0 } }, name@),
    {
        self.int_compare_core(pred, lhs, rhs, flags.samesign, name)
    }

    /// `icmp pred lhs, rhs` carrying the `samesign` flag of `flags`.
    pub fn int_cmp_with_flags_dyn(&mut self, pred: IntPredicate, lhs: ValueId, rhs: ValueId, flags: InstFlags, name: &str) -> (r: IrResult<ValueId>)
        requires
            old(self).wf(),
            old(self).state().block is Some,
        ensures
            final(self).folder_spec() == old(self).folder_spec(),
            compare_emit(old(self).state(), final(self).state(), r, asks_int_compare(old(self).folder_spec(), pred, lhs, rhs), int_pair_error(old(self).state().module, lhs, rhs), Opcode::ICmp(pred), lhs, rhs,
                InstFlags { nuw: false, nsw: false, exact: false, disjoint: false, nneg: false, samesign: flags.samesign, fmf: FastMathFlags { bits: 0 } }, name@),
    {
        self.int_compare_core(pred, lhs, rhs, flags.samesign, name)
    }

    /// `icmp eq lhs, rhs`.
    pub fn icmp_eq(&mut self, lhs: ValueId, rhs: ValueId, name: &str) -> (r: IrResult<ValueId>)
        requires
            old(self).wf(),
            old(self).state().block is Some,
        ensures
            final(self).folder_spec() == old(self).folder_spec(),
            compare_emit(old(self).state(), final(self).state(), r, asks_int_compare(old(self).folder_spec(), IntPredicate::Eq, lhs, rhs), int_pair_error(old(self).state().module, lhs, rhs), Opcode::ICmp(IntPredicate::Eq), lhs, rhs,
                InstFlags { nuw: false, nsw: false, exact: false, disjoint: false, nneg: false, samesign: false, fmf: FastMathFlags { bits: 0 } }, name@),
    {
        self.int_compare_core(IntPredicate::Eq, lhs, rhs, false, name)
    }

    /// `icmp ne lhs, rhs`.
    pub fn icmp_ne(&mut self, lhs: ValueId, rhs: ValueId, name: &str) -> (r: IrResult<ValueId>)
        requires
            old(self).wf(),
            old(self).state().block is Some,
        ensures
            final(self).folder_spec() == old(self).folder_spec(),
            compare_emit(old(self).state(), final(self).state(), r, asks_int_compare(old(self).folder_spec(), IntPredicate::Ne, lhs, rhs), int_pair_error(old(self).state().module, lhs, rhs), Opcode::ICmp(IntPredicate::Ne), lhs, rhs,
                InstFlags { nuw: false, nsw: false, exact: false, disjoint: false, nneg: false, samesign: false, fmf: FastMathFlags { bits: 0 } }, name@),
    {
        self.int_compare_core(IntPredicate::Ne, lhs, rhs, false, name)
    }

    /// `icmp ult lhs, rhs`.
    pub fn icmp_ult(&mut self, lhs: ValueId, rhs: ValueId, name: &str) -> (r: IrResult<ValueId>)
        requires
            old(self).wf(),
            old(self).state().block is Some,
        ensures
            final(self).folder_spec() == old(self).folder_spec(),
            compare_emit(old(self).state(), final(self).state(), r, asks_int_compare(old(self).folder_spec(), IntPredicate::Ult, lhs, rhs), int_pair_error(old(self).state().module, lhs, rhs), Opcode::ICmp(IntPredicate::Ult), lhs, rhs,
                InstFlags { nuw: false, nsw: false, exact: false, disjoint: false, nneg: false, samesign: false, fmf: FastMathFlags { bits: 0 } }, name@),
    {
        self.int_compare_core(IntPredicate::Ult, lhs, rhs, false, name)
    }

    /// `icmp ule lhs, rhs`.
    pub fn icmp_ule(&mut self, lhs: ValueId, rhs: ValueId, name: &str) -> (r: IrResult<ValueId>)
        requires
            old(self).wf(),
            old(self).state().block is Some,
        ensures
            final(self).folder_spec() == old(self).folder_spec(),
            compare_emit(old(self).state(), final(self).state(), r, asks_int_compare(old(self).folder_spec(), IntPredicate::Ule, lhs, rhs), int_pair_error(old(self).state().module, lhs, rhs), Opcode::ICmp(IntPredicate::Ule), lhs, rhs,
                InstFlags { nuw: false, nsw: false, exact: false, disjoint: false, nneg: false, samesign: false, fmf: FastMathFlags { bits: 0 } }, name@),
    {
        self.int_compare_core(IntPredicate::Ule, lhs, rhs, false, name)
    }

    /// `icmp ugt lhs, rhs`.
    pub fn icmp_ugt(&mut self, lhs: ValueId, rhs: ValueId, name: &str) -> (r: IrResult<ValueId>)
        requires
            old(self).wf(),
            old(self).state().block is Some,
        ensures
            final(self).folder_spec() == old(self).folder_spec(),
            compare_emit(old(self).state(), final(self).state(), r, asks_int_compare(old(self).folder_spec(), IntPredicate::Ugt, lhs, rhs), int_pair_error(old(self).state().module, lhs, rhs), Opcode::ICmp(IntPredicate::Ugt), lhs, rhs,
                InstFlags { nuw: false, nsw: false, exact: false, disjoint: false, nneg: false, samesign: false, fmf: FastMathFlags { bits: 0 } }, name@),
    {
        self.int_compare_core(IntPredicate::Ugt, lhs, rhs, false, name)
    }

    /// `icmp uge lhs, rhs`.
    pub fn icmp_uge(&mut self, lhs: ValueId, rhs: ValueId, name: &str) -> (r: IrResult<ValueId>)
        requires
            old(self).wf(),
            old(self).state().block is Some,
        ensures
            final(self).folder_spec() == old(self).folder_spec(),
            compare_emit(old(self).state(), final(self).state(), r, asks_int_compare(old(self).folder_spec(), IntPredicate::Uge, lhs, rhs), int_pair_error(old(self).state().module, lhs, rhs), Opcode::ICmp(IntPredicate::Uge), lhs, rhs,
                InstFlags { nuw: false, nsw: false, exact: false, disjoint: false, nneg: false, samesign: false, fmf: FastMathFlags { bits: 0 } }, name@),
    {
        self.int_compare_core(IntPredicate::Uge, lhs, rhs, false, name)
    }

    /// `icmp slt lhs, rhs`.
    pub fn icmp_slt(&mut self, lhs: ValueId, rhs: ValueId, name: &str) -> (r: IrResult<ValueId>)
        requires
            old(self).wf(),
            old(self).state().block is Some,
        ensures
            final(self).folder_spec() == old(self).folder_spec(),
            compare_emit(old(self).state(), final(self).state(), r, asks_int_compare(old(self).folder_spec(), IntPredicate::Slt, lhs, rhs), int_pair_error(old(self).state().module, lhs, rhs), Opcode::ICmp(IntPredicate::Slt), lhs, rhs,
                InstFlags { nuw: false, nsw: false, exact: false, disjoint: false, nneg: false, samesign: false, fmf: FastMathFlags { bits: 0 } }, name@),
    {
        self.int_compare_core(IntPredicate::Slt, lhs, rhs, false, name)
    }

    /// `icmp sle lhs, rhs`.
    pub fn icmp_sle(&mut self, lhs: ValueId, rhs: ValueId, name: &str) -> (r: IrResult<ValueId>)
        requires
            old(self).wf(),
            old(self).state().block is Some,
        ensures
            final(self).folder_spec() == old(self).folder_spec(),
            compare_emit(old(self).state(), final(self).state(), r, asks_int_compare(old(self).folder_spec(), IntPredicate::Sle, lhs, rhs), int_pair_error(old(self).state().module, lhs, rhs), Opcode::ICmp(IntPredicate::Sle), lhs, rhs,
                InstFlags { nuw: false, nsw: false, exact: false, disjoint: false, nneg: false, samesign: false, fmf: FastMathFlags { bits: 0 } }, name@),
    {
        self.int_compare_core(IntPredicate::Sle, lhs, rhs, false, name)
    }

    /// `icmp sgt lhs, rhs`.
    pub fn icmp_sgt(&mut self, lhs: ValueId, rhs: ValueId, name: &str) -> (r: IrResult<ValueId>)
        requires
            old(self).wf(),
            old(self).state().block is Some,
        ensures
            final(self).folder_spec() == old(self).folder_spec(),
            compare_emit(old(self).state(), final(self).state(), r, asks_int_compare(old(self).folder_spec(), IntPredicate::Sgt, lhs, rhs), int_pair_error(old(self).state().module, lhs, rhs), Opcode::ICmp(IntPredicate::Sgt), lhs, rhs,
                InstFlags { nuw: false, nsw: false, exact: false, disjoint: false, nneg: false, samesign: false, fmf: FastMathFlags { bits: 0 } }, name@),
    {
        self.int_compare_core(IntPredicate::Sgt, lhs, rhs, false, name)
    }

    /// `icmp sge lhs, rhs`.
    pub fn icmp_sge(&mut self, lhs: ValueId, rhs: ValueId, name: &str) -> (r: IrResult<ValueId>)
        requires
            old(self).wf(),
            old(self).state().block is Some,
        ensures
            final(self).folder_spec() == old(self).folder_spec(),
            compare_emit(old(self).state(), final(self).state(), r, asks_int_compare(old(self).folder_spec(), IntPredicate::Sge, lhs, rhs), int_pair_error(old(self).state().module, lhs, rhs), Opcode::ICmp(IntPredicate::Sge), lhs, rhs,
                InstFlags { nuw: false, nsw: false, exact: false, disjoint: false, nneg: false, samesign: false, fmf: FastMathFlags { bits: 0 } }, name@),
    {
        self.int_compare_core(IntPredicate::Sge, lhs, rhs, false, name)
    }

    /// `icmp pred lhs, rhs` on integers, pointers or vectors of them, yielding `i1` or a vector of `i1`; never folded.
    pub fn int_cmp_erased(&mut self, pred: IntPredicate, lhs: ValueId, rhs: ValueId, flags: InstFlags, name: &str) -> (r: IrResult<ValueId>)
        requires
            old(self).wf(),
            old(self).state().block is Some,
        ensures
            final(self).folder_spec() == old(self).folder_spec(),
            compare_erased_emit(old(self).state(), final(self).state(), r,
                is_int_or_int_vector(old(self).state().module.types(), old(self).state().module.ty_of(lhs))
                    || is_ptr_or_ptr_vector(old(self).state().module.types(), old(self).state().module.ty_of(lhs)),
                Opcode::ICmp(pred), lhs, rhs, InstFlags { nuw: false, nsw: false, exact: false, disjoint: false, nneg: false, samesign: flags.samesign, fmf: FastMathFlags { bits: 0 } }, name@),
    {
        self.compare_erased_core(Opcode::ICmp(pred), lhs, rhs, true, InstFlags { nuw: false, nsw: false, exact: false, disjoint: false, nneg: false, samesign: flags.samesign, fmf: FastMathFlags { bits: 0 } }, name)
    }

    /// `fcmp pred lhs, rhs` on two floating-point values of one type, carrying the builder's fast-math flags; the result is `i1`.
    pub fn fp_cmp(&mut self, pred: FloatPredicate, lhs: ValueId, rhs: ValueId, name: &str) -> (r: IrResult<ValueId>)
        requires
            old(self).wf(),
            old(self).state().block is Some,
        ensures
            final(self).folder_spec() == old(self).folder_spec(),
            compare_emit(old(self).state(), final(self).state(), r, asks_fp_compare(old(self).folder_spec(), pred, lhs, rhs), fp_pair_error(old(self).state().module, lhs, rhs), Opcode::FCmp(pred), lhs, rhs,
                fmf_flags(old(self).state().fmf), name@),
    {
        let fmf = self.fmf;
        self.fp_compare_core(pred, lhs, rhs, fmf, name)
    }

    /// `fcmp pred lhs, rhs` carrying the fast-math flags `fmf`.
    pub fn fp_cmp_fmf(&mut self, pred: FloatPredicate, lhs: ValueId, rhs: ValueId, fmf: FastMathFlags, name: &str) -> (r: IrResult<ValueId>)
        requires
            old(self).wf(),
            old(self).state().block is Some,
        ensures
            final(self).folder_spec() == old(self).folder_spec(),
            compare_emit(old(self).state(), final(self).state(), r, asks_fp_compare(old(self).folder_spec(), pred, lhs, rhs), fp_pair_error(old(self).state().module, lhs, rhs), Opcode::FCmp(pred), lhs, rhs,
                fmf_flags(fmf), name@),
    {
        self.fp_compare_core(pred, lhs, rhs, fmf, name)
    }

    /// `fcmp oeq lhs, rhs`, carrying the builder's fast-math flags.
    pub fn fcmp_oeq(&mut self, lhs: ValueId, rhs: ValueId, name: &str) -> (r: IrResult<ValueId>)
        requires
            old(self).wf(),
            old(self).state().block is Some,
        ensures
            final(self).folder_spec() == old(self).folder_spec(),
            compare_emit(old(self).state(), final(self).state(), r, asks_fp_compare(old(self).folder_spec(), FloatPredicate::Oeq, lhs, rhs), fp_pair_error(old(self).state().module, lhs, rhs), Opcode::FCmp(FloatPredicate::Oeq), lhs, rhs,
                fmf_flags(old(self).state().fmf), name@),
    {
        let fmf = self.fmf;
        self.fp_compare_core(FloatPredicate::Oeq, lhs, rhs, fmf, name)
    }

    /// `fcmp ogt lhs, rhs`, carrying the builder's fast-math flags.
    pub fn fcmp_ogt(&mut self, lhs: ValueId, rhs: ValueId, name: &str) -> (r: IrResult<ValueId>)
        requires
            old(self).wf(),
            old(self).state().block is Some,
        ensures
            final(self).folder_spec() == old(self).folder_spec(),
            compare_emit(old(self).state(), final(self).state(), r, asks_fp_compare(old(self).folder_spec(), FloatPredicate::Ogt, lhs, rhs), fp_pair_error(old(self).state().module, lhs, rhs), Opcode::FCmp(FloatPredicate::Ogt), lhs, rhs,
                fmf_flags(old(self).state().fmf), name@),
    {
        let fmf = self.fmf;
        self.fp_compare_core(FloatPredicate::Ogt, lhs, rhs, fmf, name)
    }

    /// `fcmp oge lhs, rhs`, carrying the builder's fast-math flags.
    pub fn fcmp_oge(&mut self, lhs: ValueId, rhs: ValueId, name: &str) -> (r: IrResult<ValueId>)
        requires
            old(self).wf(),
            old(self).state().block is Some,
        ensures
            final(self).folder_spec() == old(self).folder_spec(),
            compare_emit(old(self).state(), final(self).state(), r, asks_fp_compare(old(self).folder_spec(), FloatPredicate::Oge, lhs, rhs), fp_pair_error(old(self).state().module, lhs, rhs), Opcode::FCmp(FloatPredicate::Oge), lhs, rhs,
                fmf_flags(old(self).state().fmf), name@),
    {
        let fmf = self.fmf;
        self.fp_compare_core(FloatPredicate::Oge, lhs, rhs, fmf, name)
    }

    /// `fcmp olt lhs, rhs`, carrying the builder's fast-math flags.
    pub fn fcmp_olt(&mut self, lhs: ValueId, rhs: ValueId, name: &str) -> (r: IrResult<ValueId>)
        requires
            old(self).wf(),
            old(self).state().block is Some,
        ensures
            final(self).folder_spec() == old(self).folder_spec(),
            compare_emit(old(self).state(), final(self).state(), r, asks_fp_compare(old(self).folder_spec(), FloatPredicate::Olt, lhs, rhs), fp_pair_error(old(self).state().module, lhs, rhs), Opcode::FCmp(FloatPredicate::Olt), lhs, rhs,
                fmf_flags(old(self).state().fmf), name@),
    {
        let fmf = self.fmf;
        self.fp_compare_core(FloatPredicate::Olt, lhs, rhs, fmf, name)
    }

    /// `fcmp ole lhs, rhs`, carrying the builder's fast-math flags.
    pub fn fcmp_ole(&mut self, lhs: ValueId, rhs: ValueId, name: &str) -> (r: IrResult<ValueId>)
        requires
            old(self).wf(),
            old(self).state().block is Some,
        ensures
            final(self).folder_spec() == old(self).folder_spec(),
            compare_emit(old(self).state(), final(self).state(), r, asks_fp_compare(old(self).folder_spec(), FloatPredicate::Ole, lhs, rhs), fp_pair_error(old(self).state().module, lhs, rhs), Opcode::FCmp(FloatPredicate::Ole), lhs, rhs,
                fmf_flags(old(self).state().fmf), name@),
    {
        let fmf = self.fmf;
        self.fp_compare_core(FloatPredicate::Ole, lhs, rhs, fmf, name)
    }

    /// `fcmp one lhs, rhs`, carrying the builder's fast-math flags.
    pub fn fcmp_one(&mut self, lhs: ValueId, rhs: ValueId, name: &str) -> (r: IrResult<ValueId>)
        requires
            old(self).wf(),
            old(self).state().block is Some,
        ensures
            final(self).folder_spec() == old(self).folder_spec(),
            compare_emit(old(self).state(), final(self).state(), r, asks_fp_compare(old(self).folder_spec(), FloatPredicate::One, lhs, rhs), fp_pair_error(old(self).state().module, lhs, rhs), Opcode::FCmp(FloatPredicate::One), lhs, rhs,
                fmf_flags(old(self).state().fmf), name@),
    {
        let fmf = self.fmf;
        self.fp_compare_core(FloatPredicate::One, lhs, rhs, fmf, name)
    }

    /// `fcmp ord lhs, rhs`, carrying the builder's fast-math flags.
    pub fn fcmp_ord(&mut self, lhs: ValueId, rhs: ValueId, name: &str) -> (r: IrResult<ValueId>)
        requires
            old(self).wf(),
            old(self).state().block is Some,
        ensures
            final(self).folder_spec() == old(self).folder_spec(),
            compare_emit(old(self).state(), final(self).state(), r, asks_fp_compare(old(self).folder_spec(), FloatPredicate::Ord, lhs, rhs), fp_pair_error(old(self).state().module, lhs, rhs), Opcode::FCmp(FloatPredicate::Ord), lhs, rhs,
                fmf_flags(old(self).state().fmf), name@),
    {
        let fmf = self.fmf;
        self.fp_compare_core(FloatPredicate::Ord, lhs, rhs, fmf, name)
    }

    /// `fcmp uno lhs, rhs`, carrying the builder's fast-math flags.
    pub fn fcmp_uno(&mut self, lhs: ValueId, rhs: ValueId, name: &str) -> (r: IrResult<ValueId>)
        requires
            old(self).wf(),
            old(self).state().block is Some,
        ensures
            final(self).folder_spec() == old(self).folder_spec(),
            compare_emit(old(self).state(), final(self).state(), r, asks_fp_compare(old(self).folder_spec(), FloatPredicate::Uno, lhs, rhs), fp_pair_error(old(self).state().module, lhs, rhs), Opcode::FCmp(FloatPredicate::Uno), lhs, rhs,
                fmf_flags(old(self).state().fmf), name@),
    {
        let fmf = self.fmf;
        self.fp_compare_core(FloatPredicate::Uno, lhs, rhs, fmf, name)
    }

    /// `fcmp ueq lhs, rhs`, carrying the builder's fast-math flags.
    pub fn fcmp_ueq(&mut self, lhs: ValueId, rhs: ValueId, name: &str) -> (r: IrResult<ValueId>)
        requires
            old(self).wf(),
            old(self).state().block is Some,
        ensures
            final(self).folder_spec() == old(self).folder_spec(),
            compare_emit(old(self).state(), final(self).state(), r, asks_fp_compare(old(self).folder_spec(), FloatPredicate::Ueq, lhs, rhs), fp_pair_error(old(self).state().module, lhs, rhs), Opcode::FCmp(FloatPredicate::Ueq), lhs, rhs,
                fmf_flags(old(self).state().fmf), name@),
    {
        let fmf = self.fmf;
        self.fp_compare_core(FloatPredicate::Ueq, lhs, rhs, fmf, name)
    }

    /// `fcmp ugt lhs, rhs`, carrying the builder's fast-math flags.
    pub fn fcmp_ugt(&mut self, lhs: ValueId, rhs: ValueId, name: &str) -> (r: IrResult<ValueId>)
        requires
            old(self).wf(),
            old(self).state().block is Some,
        ensures
            final(self).folder_spec() == old(self).folder_spec(),
            compare_emit(old(self).state(), final(self).state(), r, asks_fp_compare(old(self).folder_spec(), FloatPredicate::Ugt, lhs, rhs), fp_pair_error(old(self).state().module, lhs, rhs), Opcode::FCmp(FloatPredicate::Ugt), lhs, rhs,
                fmf_flags(old(self).state().fmf), name@),
    {
        let fmf = self.fmf;
        self.fp_compare_core(FloatPredicate::Ugt, lhs, rhs, fmf, name)
    }

    /// `fcmp uge lhs, rhs`, carrying the builder's fast-math flags.
    pub fn fcmp_uge(&mut self, lhs: ValueId, rhs: ValueId, name: &str) -> (r: IrResult<ValueId>)
        requires
            old(self).wf(),
            old(self).state().block is Some,
        ensures
            final(self).folder_spec() == old(self).folder_spec(),
            compare_emit(old(self).state(), final(self).state(), r, asks_fp_compare(old(self).folder_spec(), FloatPredicate::Uge, lhs, rhs), fp_pair_error(old(self).state().module, lhs, rhs), Opcode::FCmp(FloatPredicate::Uge), lhs, rhs,
                fmf_flags(old(self).state().fmf), name@),
    {
        let fmf = self.fmf;
        self.fp_compare_core(FloatPredicate::Uge, lhs, rhs, fmf, name)
    }

    /// `fcmp ult lhs, rhs`, carrying the builder's fast-math flags.
    pub fn fcmp_ult(&mut self, lhs: ValueId, rhs: ValueId, name: &str) -> (r: IrResult<ValueId>)
        requires
            old(self).wf(),
            old(self).state().block is Some,
        ensures
            final(self).folder_spec() == old(self).folder_spec(),
            compare_emit(old(self).state(), final(self).state(), r, asks_fp_compare(old(self).folder_spec(), FloatPredicate::Ult, lhs, rhs), fp_pair_error(old(self).state().module, lhs, rhs), Opcode::FCmp(FloatPredicate::Ult), lhs, rhs,
                fmf_flags(old(self).state().fmf), name@),
    {
        let fmf = self.fmf;
        self.fp_compare_core(FloatPredicate::Ult, lhs, rhs, fmf, name)
    }

    /// `fcmp ule lhs, rhs`, carrying the builder's fast-math flags.
    pub fn fcmp_ule(&mut self, lhs: ValueId, rhs: ValueId, name: &str) -> (r: IrResult<ValueId>)
        requires
            old(self).wf(),
            old(self).state().block is Some,
        ensures
            final(self).folder_spec() == old(self).folder_spec(),
            compare_emit(old(self).state(), final(self).state(), r, asks_fp_compare(old(self).folder_spec(), FloatPredicate::Ule, lhs, rhs), fp_pair_error(old(self).state().module, lhs, rhs), Opcode::FCmp(FloatPredicate::Ule), lhs, rhs,
                fmf_flags(old(self).state().fmf), name@),
    {
        let fmf = self.fmf;
        self.fp_compare_core(FloatPredicate::Ule, lhs, rhs, fmf, name)
    }

    /// `fcmp une lhs, rhs`, carrying the builder's fast-math flags.
    pub fn fcmp_une(&mut self, lhs: ValueId, rhs: ValueId, name: &str) -> (r: IrResult<ValueId>)
        requires
            old(self).wf(),
            old(self).state().block is Some,
        ensures
            final(self).folder_spec() == old(self).folder_spec(),
            compare_emit(old(self).state(), final(self).state(), r, asks_fp_compare(old(self).folder_spec(), FloatPredicate::Une, lhs, rhs), fp_pair_error(old(self).state().module, lhs, rhs), Opcode::FCmp(FloatPredicate::Une), lhs, rhs,
                fmf_flags(old(self).state().fmf), name@),
    {
        let fmf = self.fmf;
        self.fp_compare_core(FloatPredicate::Une, lhs, rhs, fmf, name)
    }

    /// `fcmp pred lhs, rhs` on floating-point values or vectors, yielding `i1` or a vector of `i1`; never folded.
    pub fn fp_cmp_erased(&mut self, pred: FloatPredicate, lhs: ValueId, rhs: ValueId, fmf: FastMathFlags, name: &str) -> (r: IrResult<ValueId>)
        requires
            old(self).wf(),
            old(self).state().block is Some,
        ensures
            final(self).folder_spec() == old(self).folder_spec(),
            compare_erased_emit(old(self).state(), final(self).state(), r, is_fp_or_fp_vector(old(self).state().module.types(), old(self).state().module.ty_of(lhs)),
                Opcode::FCmp(pred), lhs, rhs, fmf_flags(fmf), name@),
    {
        self.compare_erased_core(Opcode::FCmp(pred), lhs, rhs, false, InstFlags { nuw: false, nsw: false, exact: false, disjoint: false, nneg: false, samesign: false, fmf }, name)
    }

    /// `trunc value to dst_ty`, to a narrower integer type.
    pub fn trunc(&mut self, value: ValueId, dst_ty: TypeId, name: &str) -> (r: IrResult<ValueId>)
        requires
            old(self).wf(),
            old(self).state().block is Some,
        ensures
            final(self).folder_spec() == old(self).folder_spec(),
            checked_emit(old(self).state(), final(self).state(), r, asks_cast(old(self).folder_spec(), CastOpcode::Trunc, value, dst_ty, true), cast_error(old(self).state().module, CastOpcode::Trunc, value, dst_ty, false),
                dst_ty, Opcode::Cast(CastOpcode::Trunc), seq![value], no_flags(), name@),
    {
        self.cast_core(CastOpcode::Trunc, value, dst_ty, InstFlags::none(), true, false, name)
    }

    /// `trunc value to dst_ty` carrying the `nuw` and `nsw` flags of `flags`.
    pub fn trunc_with_flags(&mut self, value: ValueId, dst_ty: TypeId, flags: InstFlags, name: &str) -> (r: IrResult<ValueId>)
        requires
            old(self).wf(),
            old(self).state().block is Some,
        ensures
            final(self).folder_spec() == old(self).folder_spec(),
            checked_emit(old(self).state(), final(self).state(), r, asks_cast(old(self).folder_spec(), CastOpcode::Trunc, value, dst_ty, true), cast_error(old(self).state().module, CastOpcode::Trunc, value, dst_ty, false),
                dst_ty, Opcode::Cast(CastOpcode::Trunc), seq![value], cast_flags(CastOpcode::Trunc, flags), name@),
    {
        self.cast_core(CastOpcode::Trunc, value, dst_ty, keep_cast_flags(CastOpcode::Trunc, flags), true, false, name)
    }

    /// `zext value to dst_ty`, to a wider integer type.
    pub fn zext(&mut self, value: ValueId, dst_ty: TypeId, name: &str) -> (r: IrResult<ValueId>)
        requires
            old(self).wf(),
            old(self).state().block is Some,
        ensures
            final(self).folder_spec() == old(self).folder_spec(),
            checked_emit(old(self).state(), final(self).state(), r, asks_cast(old(self).folder_spec(), CastOpcode::ZExt, value, dst_ty, true), cast_error(old(self).state().module, CastOpcode::ZExt, value, dst_ty, false),
                dst_ty, Opcode::Cast(CastOpcode::ZExt), seq![value], no_flags(), name@),
    {
        self.cast_core(CastOpcode::ZExt, value, dst_ty, InstFlags::none(), true, false, name)
    }

    /// `zext value to dst_ty` carrying the `nneg` flag of `flags`.
    pub fn zext_with_flags(&mut self, value: ValueId, dst_ty: TypeId, flags: InstFlags, name: &str) -> (r: IrResult<ValueId>)
        requires
            old(self).wf(),
            old(self).state().block is Some,
        ensures
            final(self).folder_spec() == old(self).folder_spec(),
            checked_emit(old(self).state(), final(self).state(), r, asks_cast(old(self).folder_spec(), CastOpcode::ZExt, value, dst_ty, true), cast_error(old(self).state().module, CastOpcode::ZExt, value, dst_ty, false),
                dst_ty, Opcode::Cast(CastOpcode::ZExt), seq![value], cast_flags(CastOpcode::ZExt, flags), name@),
    {
        self.cast_core(CastOpcode::ZExt, value, dst_ty, keep_cast_flags(CastOpcode::ZExt, flags), true, false, name)
    }

    /// `sext value to dst_ty`, to a wider integer type.
    pub fn sext(&mut self, value: ValueId, dst_ty: TypeId, name: &str) -> (r: IrResult<ValueId>)
        requires
            old(self).wf(),
            old(self).state().block is Some,
        ensures
            final(self).folder_spec() == old(self).folder_spec(),
            checked_emit(old(self).state(), final(self).state(), r, asks_cast(old(self).folder_spec(), CastOpcode::SExt, value, dst_ty, true), cast_error(old(self).state().module, CastOpcode::SExt, value, dst_ty, false),
                dst_ty, Opcode::Cast(CastOpcode::SExt), seq![value], no_flags(), name@),
    {
        self.cast_core(CastOpcode::SExt, value, dst_ty, InstFlags::none(), true, false, name)
    }

    /// `trunc value to dst_ty`, folded through the erased hook.
    pub fn trunc_dyn(&mut self, value: ValueId, dst_ty: TypeId, name: &str) -> (r: IrResult<ValueId>)
        requires
            old(self).wf(),
            old(self).state().block is Some,
        ensures
            final(self).folder_spec() == old(self).folder_spec(),
            checked_emit(old(self).state(), final(self).state(), r, asks_cast(old(self).folder_spec(), CastOpcode::Trunc, value, dst_ty, false), cast_error(old(self).state().module, CastOpcode::Trunc, value, dst_ty, false),
                dst_ty, Opcode::Cast(CastOpcode::Trunc), seq![value], no_flags(), name@),
    {
        self.cast_core(CastOpcode::Trunc, value, dst_ty, InstFlags::none(), false, false, name)
    }

    /// `trunc value to dst_ty` with flags, folded through the erased hook.
    pub fn trunc_with_flags_dyn(&mut self, value: ValueId, dst_ty: TypeId, flags: InstFlags, name: &str) -> (r: IrResult<ValueId>)
        requires
            old(self).wf(),
            old(self).state().block is Some,
        ensures
            final(self).folder_spec() == old(self).folder_spec(),
            checked_emit(old(self).state(), final(self).state(), r, asks_cast(old(self).folder_spec(), CastOpcode::Trunc, value, dst_ty, false), cast_error(old(self).state().module, CastOpcode::Trunc, value, dst_ty, false),
                dst_ty, Opcode::Cast(CastOpcode::Trunc), seq![value], cast_flags(CastOpcode::Trunc, flags), name@),
    {
        self.cast_core(CastOpcode::Trunc, value, dst_ty, keep_cast_flags(CastOpcode::Trunc, flags), false, false, name)
    }

    /// `zext value to dst_ty`, folded through the erased hook.
    pub fn zext_dyn(&mut self, value: ValueId, dst_ty: TypeId, name: &str) -> (r: IrResult<ValueId>)
        requires
            old(self).wf(),
            old(self).state().block is Some,
        ensures
            final(self).folder_spec() == old(self).folder_spec(),
            checked_emit(old(self).state(), final(self).state(), r, asks_cast(old(self).folder_spec(), CastOpcode::ZExt, value, dst_ty, false), cast_error(old(self).state().module, CastOpcode::ZExt, value, dst_ty, false),
                dst_ty, Opcode::Cast(CastOpcode::ZExt), seq![value], no_flags(), name@),
    {
        self.cast_core(CastOpcode::ZExt, value, dst_ty, InstFlags::none(), false, false, name)
    }

    /// `zext value to dst_ty` with flags, folded through the erased hook.
    pub fn zext_with_flags_dyn(&mut self, value: ValueId, dst_ty: TypeId, flags: InstFlags, name: &str) -> (r: IrResult<ValueId>)
        requires
            old(self).wf(),
            old(self).state().block is Some,
        ensures
            final(self).folder_spec() == old(self).folder_spec(),
            checked_emit(old(self).state(), final(self).state(), r, asks_cast(old(self).folder_spec(), CastOpcode::ZExt, value, dst_ty, false), cast_error(old(self).state().module, CastOpcode::ZExt, value, dst_ty, false),
                dst_ty, Opcode::Cast(CastOpcode::ZExt), seq![value], cast_flags(CastOpcode::ZExt, flags), name@),
    {
        self.cast_core(CastOpcode::ZExt, value, dst_ty, keep_cast_flags(CastOpcode::ZExt, flags), false, false, name)
    }

    /// `sext value to dst_ty`, folded through the erased hook.
    pub fn sext_dyn(&mut self, value: ValueId, dst_ty: TypeId, name: &str) -> (r: IrResult<ValueId>)
        requires
            old(self).wf(),
            old(self).state().block is Some,
        ensures
            final(self).folder_spec() == old(self).folder_spec(),
            checked_emit(old(self).state(), final(self).state(), r, asks_cast(old(self).folder_spec(), CastOpcode::SExt, value, dst_ty, false), cast_error(old(self).state().module, CastOpcode::SExt, value, dst_ty, false),
                dst_ty, Opcode::Cast(CastOpcode::SExt), seq![value], no_flags(), name@),
    {
        self.cast_core(CastOpcode::SExt, value, dst_ty, InstFlags::none(), false, false, name)
    }

    /// `fpext value to dst_ty`, to a wider floating-point type.
    pub fn fp_ext(&mut self, value: ValueId, dst_ty: TypeId, name: &str) -> (r: IrResult<ValueId>)
        requires
            old(self).wf(),
            old(self).state().block is Some,
        ensures
            final(self).folder_spec() == old(self).folder_spec(),
            checked_emit(old(self).state(), final(self).state(), r, asks_cast(old(self).folder_spec(), CastOpcode::FPExt, value, dst_ty, true), cast_error(old(self).state().module, CastOpcode::FPExt, value, dst_ty, true),
                dst_ty, Opcode::Cast(CastOpcode::FPExt), seq![value], no_flags(), name@),
    {
        self.cast_core(CastOpcode::FPExt, value, dst_ty, InstFlags::none(), true, true, name)
    }

    /// `fptrunc value to dst_ty`, to a narrower floating-point type.
    pub fn fp_trunc(&mut self, value: ValueId, dst_ty: TypeId, name: &str) -> (r: IrResult<ValueId>)
        requires
            old(self).wf(),
            old(self).state().block is Some,
        ensures
            final(self).folder_spec() == old(self).folder_spec(),
            checked_emit(old(self).state(), final(self).state(), r, asks_cast(old(self).folder_spec(), CastOpcode::FPTrunc, value, dst_ty, true), cast_error(old(self).state().module, CastOpcode::FPTrunc, value, dst_ty, true),
                dst_ty, Opcode::Cast(CastOpcode::FPTrunc), seq![value], no_flags(), name@),
    {
        self.cast_core(CastOpcode::FPTrunc, value, dst_ty, InstFlags::none(), true, true, name)
    }

    /// `fptrunc value to dst_ty` with no width check, folded through the erased hook.
    pub fn fp_trunc_dyn(&mut self, value: ValueId, dst_ty: TypeId, name: &str) -> (r: IrResult<ValueId>)
        requires
            old(self).wf(),
            old(self).state().block is Some,
        ensures
            final(self).folder_spec() == old(self).folder_spec(),
            checked_emit(old(self).state(), final(self).state(), r, asks_cast(old(self).folder_spec(), CastOpcode::FPTrunc, value, dst_ty, false), cast_error(old(self).state().module, CastOpcode::FPTrunc, value, dst_ty, false),
                dst_ty, Opcode::Cast(CastOpcode::FPTrunc), seq![value], no_flags(), name@),
    {
        self.cast_core(CastOpcode::FPTrunc, value, dst_ty, InstFlags::none(), false, false, name)
    }

    /// `fptrunc value to dst_ty` carrying `fmf`, with no width check.
    pub fn fp_trunc_dyn_with_fmf(&mut self, value: ValueId, dst_ty: TypeId, fmf: FastMathFlags, name: &str) -> (r: IrResult<ValueId>)
        requires
            old(self).wf(),
            old(self).state().block is Some,
        ensures
            final(self).folder_spec() == old(self).folder_spec(),
            checked_emit(old(self).state(), final(self).state(), r, asks_cast(old(self).folder_spec(), CastOpcode::FPTrunc, value, dst_ty, false), cast_error(old(self).state().module, CastOpcode::FPTrunc, value, dst_ty, false),
                dst_ty, Opcode::Cast(CastOpcode::FPTrunc), seq![value], fmf_flags(fmf), name@),
    {
        self.cast_core(CastOpcode::FPTrunc, value, dst_ty, InstFlags { nuw: false, nsw: false, exact: false, disjoint: false, nneg: false, samesign: false, fmf }, false, false, name)
    }

    /// `fpext value to dst_ty` with no width check, folded through the erased hook.
    pub fn fp_ext_dyn(&mut self, value: ValueId, dst_ty: TypeId, name: &str) -> (r: IrResult<ValueId>)
        requires
            old(self).wf(),
            old(self).state().block is Some,
        ensures
            final(self).folder_spec() == old(self).folder_spec(),
            checked_emit(old(self).state(), final(self).state(), r, asks_cast(old(self).folder_spec(), CastOpcode::FPExt, value, dst_ty, false), cast_error(old(self).state().module, CastOpcode::FPExt, value, dst_ty, false),
                dst_ty, Opcode::Cast(CastOpcode::FPExt), seq![value], no_flags(), name@),
    {
        self.cast_core(CastOpcode::FPExt, value, dst_ty, InstFlags::none(), false, false, name)
    }

    /// `fpext value to dst_ty` carrying `fmf`, with no width check.
    pub fn fp_ext_dyn_with_fmf(&mut self, value: ValueId, dst_ty: TypeId, fmf: FastMathFlags, name: &str) -> (r: IrResult<ValueId>)
        requires
            old(self).wf(),
            old(self).state().block is Some,
        ensures
            final(self).folder_spec() == old(self).folder_spec(),
            checked_emit(old(self).state(), final(self).state(), r, asks_cast(old(self).folder_spec(), CastOpcode::FPExt, value, dst_ty, false), cast_error(old(self).state().module, CastOpcode::FPExt, value, dst_ty, false),
                dst_ty, Opcode::Cast(CastOpcode::FPExt), seq![value], fmf_flags(fmf), name@),
    {
        self.cast_core(CastOpcode::FPExt, value, dst_ty, InstFlags { nuw: false, nsw: false, exact: false, disjoint: false, nneg: false, samesign: false, fmf }, false, false, name)
    }

    /// `fptoui value to dst_ty`.
    pub fn fp_to_ui(&mut self, value: ValueId, dst_ty: TypeId, name: &str) -> (r: IrResult<ValueId>)
        requires
            old(self).wf(),
            old(self).state().block is Some,
        ensures
            final(self).folder_spec() == old(self).folder_spec(),
            checked_emit(old(self).state(), final(self).state(), r, asks_cast(old(self).folder_spec(), CastOpcode::FPToUI, value, dst_ty, true), cast_error(old(self).state().module, CastOpcode::FPToUI, value, dst_ty, false),
                dst_ty, Opcode::Cast(CastOpcode::FPToUI), seq![value], no_flags(), name@),
    {
        self.cast_core(CastOpcode::FPToUI, value, dst_ty, InstFlags::none(), true, false, name)
    }

    /// `fptosi value to dst_ty`.
    pub fn fp_to_si(&mut self, value: ValueId, dst_ty: TypeId, name: &str) -> (r: IrResult<ValueId>)
        requires
            old(self).wf(),
            old(self).state().block is Some,
        ensures
            final(self).folder_spec() == old(self).folder_spec(),
            checked_emit(old(self).state(), final(self).state(), r, asks_cast(old(self).folder_spec(), CastOpcode::FPToSI, value, dst_ty, true), cast_error(old(self).state().module, CastOpcode::FPToSI, value, dst_ty, false),
                dst_ty, Opcode::Cast(CastOpcode::FPToSI), seq![value], no_flags(), name@),
    {
        self.cast_core(CastOpcode::FPToSI, value, dst_ty, InstFlags::none(), true, false, name)
    }

    /// `uitofp value to dst_ty`.
    pub fn ui_to_fp(&mut self, value: ValueId, dst_ty: TypeId, name: &str) -> (r: IrResult<ValueId>)
        requires
            old(self).wf(),
            old(self).state().block is Some,
        ensures
            final(self).folder_spec() == old(self).folder_spec(),
            checked_emit(old(self).state(), final(self).state(), r, asks_cast(old(self).folder_spec(), CastOpcode::UIToFP, value, dst_ty, true), cast_error(old(self).state().module, CastOpcode::UIToFP, value, dst_ty, false),
                dst_ty, Opcode::Cast(CastOpcode::UIToFP), seq![value], no_flags(), name@),
    {
        self.cast_core(CastOpcode::UIToFP, value, dst_ty, InstFlags::none(), true, false, name)
    }

    /// `uitofp value to dst_ty` carrying the `nneg` flag of `flags`.
    pub fn ui_to_fp_with_flags(&mut self, value: ValueId, dst_ty: TypeId, flags: InstFlags, name: &str) -> (r: IrResult<ValueId>)
        requires
            old(self).wf(),
            old(self).state().block is Some,
        ensures
            final(self).folder_spec() == old(self).folder_spec(),
            checked_emit(old(self).state(), final(self).state(), r, asks_cast(old(self).folder_spec(), CastOpcode::UIToFP, value, dst_ty, true), cast_error(old(self).state().module, CastOpcode::UIToFP, value, dst_ty, false),
                dst_ty, Opcode::Cast(CastOpcode::UIToFP), seq![value], cast_flags(CastOpcode::UIToFP, flags), name@),
    {
        self.cast_core(CastOpcode::UIToFP, value, dst_ty, keep_cast_flags(CastOpcode::UIToFP, flags), true, false, name)
    }

    /// `sitofp value to dst_ty`.
    pub fn si_to_fp(&mut self, value: ValueId, dst_ty: TypeId, name: &str) -> (r: IrResult<ValueId>)
        requires
            old(self).wf(),
            old(self).state().block is Some,
        ensures
            final(self).folder_spec() == old(self).folder_spec(),
            checked_emit(old(self).state(), final(self).state(), r, asks_cast(old(self).folder_spec(), CastOpcode::SIToFP, value, dst_ty, true), cast_error(old(self).state().module, CastOpcode::SIToFP, value, dst_ty, false),
                dst_ty, Opcode::Cast(CastOpcode::SIToFP), seq![value], no_flags(), name@),
    {
        self.cast_core(CastOpcode::SIToFP, value, dst_ty, InstFlags::none(), true, false, name)
    }

    /// `uitofp value to dst_ty` with flags, folded through the erased hook.
    pub fn ui_to_fp_with_flags_dyn(&mut self, value: ValueId, dst_ty: TypeId, flags: InstFlags, name: &str) -> (r: IrResult<ValueId>)
        requires
            old(self).wf(),
            old(self).state().block is Some,
        ensures
            final(self).folder_spec() == old(self).folder_spec(),
            checked_emit(old(self).state(), final(self).state(), r, asks_cast(old(self).folder_spec(), CastOpcode::UIToFP, value, dst_ty, false), cast_error(old(self).state().module, CastOpcode::UIToFP, value, dst_ty, false),
                dst_ty, Opcode::Cast(CastOpcode::UIToFP), seq![value], cast_flags(CastOpcode::UIToFP, flags), name@),
    {
        self.cast_core(CastOpcode::UIToFP, value, dst_ty, keep_cast_flags(CastOpcode::UIToFP, flags), false, false, name)
    }

    /// `select cond, true_value, false_value` with a one-bit condition and arms of one type.
    pub fn select(&mut self, cond: ValueId, true_value: ValueId, false_value: ValueId, name: &str) -> (r: IrResult<ValueId>)
        requires
            old(self).wf(),
            old(self).state().block is Some,
        ensures
            final(self).folder_spec() == old(self).folder_spec(),
            checked_emit(old(self).state(), final(self).state(), r, asks_select(old(self).folder_spec(), cond, true_value, false_value), select_error(old(self).state().module, cond, true_value, false_value),
                old(self).state().module.ty_of(true_value), Opcode::Select, seq![cond, true_value, false_value], no_flags(), name@),
    {
        if let Some(e) = self.check_bool_operand(cond) {
            return Err(e);
        }
        if true_value.0 >= self.module.value_count() || false_value.0 >= self.module.value_count() {
            return Err(IrError::ForeignValueId);
        }
        let tt = self.module.value_type(true_value);
        let ft = self.module.value_type(false_value);
        if tt != ft {
            return Err(IrError::TypeMismatch { expected: self.module.kind_label(tt), got: self.module.kind_label(ft) });
        }
        if let TypeData::Token = self.module.type_data(tt) {
            return Err(IrError::InvalidOperation { message: "select values cannot have token type" });
        }
        let folded = self.folder.fold_select_dyn(&self.module, cond, true_value, false_value);
        let ops = vec![cond, true_value, false_value];
        assert(ops@ =~= seq![cond, true_value, false_value]);
        let ghost s = self.state();
        let r = self.complete_fold(folded, tt, Opcode::Select, ops, InstFlags::none(), name);
        proof { lemma_outcome_emitted(s, self.state().module, folded, r, asks_select(old(self).folder_spec(), cond, true_value, false_value), tt, Opcode::Select, seq![cond, true_value, false_value], no_flags(), name@); }
        r
    }

    /// `select cond, true_value, false_value` where `cond` is `i1` or a vector of `i1` as long as the vector arms.
    pub fn select_erased(&mut self, cond: ValueId, true_value: ValueId, false_value: ValueId, name: &str) -> (r: IrResult<ValueId>)
        requires
            old(self).wf(),
            old(self).state().block is Some,
        ensures
            final(self).folder_spec() == old(self).folder_spec(),
            checked_emit(old(self).state(), final(self).state(), r, asks_select(old(self).folder_spec(), cond, true_value, false_value), select_erased_error(old(self).state().module, cond, true_value, false_value, FastMathFlags { bits: 0 }),
                old(self).state().module.ty_of(true_value), Opcode::Select, seq![cond, true_value, false_value], no_flags(), name@),
    {
        self.select_erased_with_fmf(cond, true_value, false_value, FastMathFlags::empty(), name)
    }

    /// `select` over erased operands carrying `fmf`, which only a floating-point select may carry.
    pub fn select_erased_with_fmf(&mut self, cond: ValueId, true_value: ValueId, false_value: ValueId, fmf: FastMathFlags, name: &str) -> (r: IrResult<ValueId>)
        requires
            old(self).wf(),
            old(self).state().block is Some,
        ensures
            final(self).folder_spec() == old(self).folder_spec(),
            checked_emit(old(self).state(), final(self).state(), r, asks_select(old(self).folder_spec(), cond, true_value, false_value), select_erased_error(old(self).state().module, cond, true_value, false_value, fmf),
                old(self).state().module.ty_of(true_value), Opcode::Select, seq![cond, true_value, false_value], fmf_flags(fmf), name@),
    {
        if cond.0 >= self.module.value_count() || true_value.0 >= self.module.value_count() || false_value.0 >= self.module.value_count() {
            return Err(IrError::ForeignValueId);
        }
        let tt = self.module.value_type(true_value);
        let ft = self.module.value_type(false_value);
        if tt != ft {
            return Err(IrError::TypeMismatch { expected: self.module.kind_label(tt), got: self.module.kind_label(ft) });
        }
        if let TypeData::Token = self.module.type_data(tt) {
            return Err(IrError::InvalidOperation { message: "select values cannot have token type" });
        }
        let ct = self.module.value_type(cond);
        match self.module.type_data(ct) {
            TypeData::FixedVector { elem, n } => {
                proof {
                    assert(crate::ir::type_refs_below(self.state().module.types()[ct.0 as int], ct.0 as int));
                }
                match self.module.type_data(elem) {
                    TypeData::Integer { bits } => if bits != 1 {
                        return Err(IrError::InvalidOperation { message: "vector select condition element type must be i1" });
                    },
                    _ => {
                        return Err(IrError::InvalidOperation { message: "vector select condition element type must be i1" });
                    },
                }
                let same_len = match self.module.type_data(tt) {
                    TypeData::FixedVector { n: tn, .. } => tn == n,
                    _ => false,
                };
                if !same_len {
                    return Err(IrError::InvalidOperation { message: "vector select requires selected vectors to have the same vector length as select condition" });
                }
            },
            TypeData::Integer { bits } => if bits != 1 {
                return Err(IrError::InvalidOperation { message: "select condition must be i1 or <n x i1>" });
            },
            _ => {
                return Err(IrError::InvalidOperation { message: "select condition must be i1 or <n x i1>" });
            },
        }
        if fmf.bits != 0 && !self.fp_or_fp_vector(tt) {
            return Err(IrError::InvalidOperation { message: "fast-math flags require a floating-point select result" });
        }
        let folded = self.folder.fold_select_dyn(&self.module, cond, true_value, false_value);
        let flags = InstFlags { nuw: false, nsw: false, exact: false, disjoint: false, nneg: false, samesign: false, fmf };
        let ops = vec![cond, true_value, false_value];
        assert(ops@ =~= seq![cond, true_value, false_value]);
        let ghost s = self.state();
        let r = self.complete_fold(folded, tt, Opcode::Select, ops, flags, name);
        proof { lemma_outcome_emitted(s, self.state().module, folded, r, asks_select(old(self).folder_spec(), cond, true_value, false_value), tt, Opcode::Select, seq![cond, true_value, false_value], flags, name@); }
        r
    }

    /// `freeze value`, of the value's type; never folded.
    pub fn freeze(&mut self, value: ValueId, name: &str) -> (r: IrResult<ValueId>)
        requires
            old(self).wf(),
            old(self).state().block is Some,
        ensures
            final(self).folder_spec() == old(self).folder_spec(),
            final(self).wf(),
            same_place(old(self).state(), final(self).state()),
            !old(self).state().module.valid_value(value) ==> r == Err::<ValueId, IrError>(IrError::ForeignValueId) && final(self).state() == old(self).state(),
            old(self).state().module.valid_value(value) ==> (r matches Ok(v) && inst_added(old(self).state().module, final(self).state().module, v,
                old(self).state().block.unwrap(), old(self).state().before, old(self).state().module.ty_of(value), Opcode::Freeze, seq![value],
                Seq::<BlockId>::empty(), no_flags(), name@)),
    {
        if value.0 >= self.module.value_count() {
            return Err(IrError::ForeignValueId);
        }
        let t = self.module.value_type(value);
        let b = match self.insert_block { Some(b) => b, None => BlockId(0) };
        let ops = vec![value];
        assert(ops@ =~= seq![value]);
        let v = self.module.insert_instruction(b, self.insert_before, t, Opcode::Freeze, ops, Vec::new(), InstFlags::none(), name);
        Ok(v)
    }

    /// `landingpad ty`, with the cleanup flag `cleanup` and no clauses
    /// yet: where unwinding enters the block, of type `ty`.
    pub fn landingpad(&mut self, ty: TypeId, cleanup: bool, name: &str) -> (r: IrResult<ValueId>)
        requires
            old(self).wf(),
            old(self).state().block is Some,
        ensures
            final(self).folder_spec() == old(self).folder_spec(),
            plain_emit(old(self).state(), final(self).state(), r, type_shape_error(old(self).state().module, ty, TypeKindLabel::Void), ty,
                Opcode::LandingPad { cleanup }, Seq::<ValueId>::empty(), name@),
    {
        if let Some(e) = self.check_type_shape(ty, TypeKindLabel::Void) {
            return Err(e);
        }
        let ops: Vec<ValueId> = Vec::new();
        assert(ops@ =~= Seq::<ValueId>::empty());
        Ok(self.insert_plain(ty, Opcode::LandingPad { cleanup }, ops, name))
    }

    /// `va_arg list, ty`: the next variadic argument, of type `ty`, read
    /// through the `va_list` pointer `list`.
    pub fn va_arg(&mut self, list: ValueId, ty: TypeId, name: &str) -> (r: IrResult<ValueId>)
        requires
            old(self).wf(),
            old(self).state().block is Some,
        ensures
            final(self).folder_spec() == old(self).folder_spec(),
            plain_emit(old(self).state(), final(self).state(), r, va_arg_error(old(self).state().module, list, ty), ty, Opcode::VaArg, seq![list], name@),
    {
        if let Some(e) = self.check_pointer_operand(list) {
            return Err(e);
        }
        if let Some(e) = self.check_type_shape(ty, TypeKindLabel::Void) {
            return Err(e);
        }
        let ops = vec![list];
        assert(ops@ =~= seq![list]);
        Ok(self.insert_plain(ty, Opcode::VaArg, ops, name))
    }

    /// `ret value`, which must have the return type of the function; ends the block.
    pub fn ret(&mut self, value: ValueId) -> (r: IrResult<(BlockId, ValueId)>)
        requires
            old(self).wf(),
            old(self).state().block is Some,
        ensures
            final(self).folder_spec() == old(self).folder_spec(),
            term_emit(old(self).state(), final(self).state(), r, ret_error(old(self).state(), value), Opcode::Ret, seq![value], Seq::<BlockId>::empty()),
    {
        let f = self.parent_function_id();
        if value.0 >= self.module.value_count() {
            return Err(IrError::ForeignValueId);
        }
        let ret = self.module.function_return_type(f);
        let t = self.module.value_type(value);
        if t != ret {
            return Err(IrError::ReturnTypeMismatch { expected: self.module.kind_label(ret), got: self.module.kind_label(t) });
        }
        let ops = vec![value];
        assert(ops@ =~= seq![value]);
        Ok(self.terminate(Opcode::Ret, ops, Vec::new()))
    }

    /// `ret void`, in a function returning `void`; ends the block.
    pub fn ret_void(&mut self) -> (r: IrResult<(BlockId, ValueId)>)
        requires
            old(self).wf(),
            old(self).state().block is Some,
        ensures
            final(self).folder_spec() == old(self).folder_spec(),
            term_emit(old(self).state(), final(self).state(), r, ret_void_error(old(self).state()), Opcode::Ret, Seq::<ValueId>::empty(), Seq::<BlockId>::empty()),
    {
        let f = self.parent_function_id();
        let ret = self.module.function_return_type(f);
        match self.module.type_data(ret) {
            TypeData::Void => {},
            _ => {
                return Err(IrError::ReturnTypeMismatch { expected: self.module.kind_label(ret), got: TypeKindLabel::Void });
            },
        }
        Ok(self.terminate(Opcode::Ret, Vec::new(), Vec::new()))
    }

    /// `br label target`; ends the block. A target with parameters needs
    /// arguments (`br_with_args`) and is refused here.
    pub fn br(&mut self, target: BlockId) -> (r: IrResult<(BlockId, ValueId)>)
        requires
            old(self).wf(),
            old(self).state().block is Some,
        ensures
            final(self).folder_spec() == old(self).folder_spec(),
            term_emit(old(self).state(), final(self).state(), r, plain_edge_error(old(self).state().module, target),
                Opcode::Br, Seq::<ValueId>::empty(), seq![target]),
    {
        if let Some(e) = self.check_plain_edge(target) {
            return Err(e);
        }
        let ts = vec![target];
        assert(ts@ =~= seq![target]);
        Ok(self.terminate(Opcode::Br, Vec::new(), ts))
    }

    /// `br i1 cond, label then_bb, label else_bb`; ends the block. Targets
    /// with parameters are refused, as by `br`.
    pub fn cond_br(&mut self, cond: ValueId, then_bb: BlockId, else_bb: BlockId) -> (r: IrResult<(BlockId, ValueId)>)
        requires
            old(self).wf(),
            old(self).state().block is Some,
        ensures
            final(self).folder_spec() == old(self).folder_spec(),
            term_emit(old(self).state(), final(self).state(), r, cond_br_error(old(self).state().module, cond, then_bb, else_bb),
                Opcode::CondBr, seq![cond], seq![then_bb, else_bb]),
    {
        if let Some(e) = self.check_plain_edge(then_bb) {
            return Err(e);
        }
        if let Some(e) = self.check_plain_edge(else_bb) {
            return Err(e);
        }
        if let Some(e) = self.check_bool_operand(cond) {
            return Err(e);
        }
        let ops = vec![cond];
        assert(ops@ =~= seq![cond]);
        Ok(self.terminate(Opcode::CondBr, ops, vec![then_bb, else_bb]))
    }

    /// `unreachable`; ends the block.
    pub fn unreachable(&mut self) -> (r: (BlockId, ValueId))
        requires
            old(self).wf(),
            old(self).state().block is Some,
        ensures
            final(self).folder_spec() == old(self).folder_spec(),
            term_emit(old(self).state(), final(self).state(), Ok::<(BlockId, ValueId), IrError>(r), None, Opcode::Unreachable,
                Seq::<ValueId>::empty(), Seq::<BlockId>::empty()),
    {
        self.terminate(Opcode::Unreachable, Vec::new(), Vec::new())
    }

    /// `resume value`: continues unwinding with the exception `value`
    /// (typically a landing pad's result); ends the block. An instruction
    /// of type `void` carries no name, so `name` is not recorded.
    pub fn resume(&mut self, value: ValueId, name: &str) -> (r: IrResult<(BlockId, ValueId)>)
        requires
            old(self).wf(),
            old(self).state().block is Some,
        ensures
            final(self).folder_spec() == old(self).folder_spec(),
            term_emit(old(self).state(), final(self).state(), r,
                (if old(self).state().module.valid_value(value) { None } else { Some(IrError::ForeignValueId) }),
                Opcode::Resume, seq![value], Seq::<BlockId>::empty()),
    {
        if value.0 >= self.module.value_count() {
            return Err(IrError::ForeignValueId);
        }
        let ops = vec![value];
        assert(ops@ =~= seq![value]);
        Ok(self.terminate(Opcode::Resume, ops, Vec::new()))
    }

    /// `indirectbr address, []`: jumps to the block whose address is the
    /// pointer `address`; ends the block. It starts with no destinations.
    /// An instruction of type `void` carries no name, so `name` is not
    /// recorded.
    pub fn indirectbr(&mut self, address: ValueId, name: &str) -> (r: IrResult<(BlockId, ValueId)>)
        requires
            old(self).wf(),
            old(self).state().block is Some,
        ensures
            final(self).folder_spec() == old(self).folder_spec(),
            term_emit(old(self).state(), final(self).state(), r, pointer_operand_error(old(self).state().module, address),
                Opcode::IndirectBr, seq![address], Seq::<BlockId>::empty()),
    {
        if let Some(e) = self.check_pointer_operand(address) {
            return Err(e);
        }
        let ops = vec![address];
        assert(ops@ =~= seq![address]);
        Ok(self.terminate(Opcode::IndirectBr, ops, Vec::new()))
    }

    /// The function owning the insertion block.
    fn parent_function_id(&self) -> (f: FunctionId)
        requires
            self.wf(),
            self.state().block is Some,
        ensures
            f == parent_function(self.state()),
            self.state().module.valid_function(f),
    {
        let b = match self.insert_block { Some(b) => b, None => BlockId(0) };
        proof {
            assert(crate::ir::block_refs_ok(self.state().module.blocks()[b.0 as int], self.state().module.values().len(), self.state().module.functions().len()));
        }
        self.module.block_function(b)
    }
}

/// The flags among `f` that the cast `op` accepts.
fn keep_cast_flags(op: CastOpcode, f: InstFlags) -> (r: InstFlags)
    ensures
        r == cast_flags(op, f),
{
    match op {
        CastOpcode::Trunc => InstFlags { nuw: f.nuw, nsw: f.nsw, exact: false, disjoint: false, nneg: false, samesign: false, fmf: FastMathFlags { bits: 0 } },
        CastOpcode::ZExt | CastOpcode::UIToFP => InstFlags { nuw: false, nsw: false, exact: false, disjoint: false, nneg: f.nneg, samesign: false, fmf: FastMathFlags { bits: 0 } },
        CastOpcode::FPTrunc | CastOpcode::FPExt => InstFlags { nuw: false, nsw: false, exact: false, disjoint: false, nneg: false, samesign: false, fmf: f.fmf },
        _ => InstFlags::none(),
    }
}

impl<F: IRBuilderFolder> IrBuilder<F> {
    /// Validates a type against the kind `expected` names.
    fn check_type_shape(&self, ty: TypeId, expected: TypeKindLabel) -> (r: Option<IrError>)
        requires
            self.wf(),
        ensures
            r == type_shape_error(self.state().module, ty, expected),
    {
        if ty.0 >= self.module.type_count() {
            return Some(IrError::ForeignValueId);
        }
        let t = self.module.type_data(ty);
        let fits = match expected {
            TypeKindLabel::Integer => match t { TypeData::Integer { .. } => true, _ => false },
            TypeKindLabel::Float => match t { TypeData::Float { .. } => true, _ => false },
            TypeKindLabel::Pointer => match t { TypeData::Pointer { .. } => true, _ => false },
            _ => true,
        };
        if fits {
            None
        } else {
            Some(IrError::TypeMismatch { expected, got: self.module.kind_label(ty) })
        }
    }

    /// Inserts a phi of type `ty` after the leading phis of the insertion block.
    fn phi_core(&mut self, ty: TypeId, expected: TypeKindLabel, name: &str) -> (r: IrResult<ValueId>)
        requires
            old(self).wf(),
            old(self).state().block is Some,
        ensures
            final(self).folder_spec() == old(self).folder_spec(),
            phi_emit(old(self).state(), final(self).state(), r, type_shape_error(old(self).state().module, ty, expected), ty, name@),
    {
        if let Some(e) = self.check_type_shape(ty, expected) {
            return Err(e);
        }
        let b = match self.insert_block { Some(b) => b, None => BlockId(0) };
        let insts = self.module.block_instructions(b);
        proof {
            assert(crate::ir::block_refs_ok(self.state().module.blocks()[b.0 as int], self.state().module.values().len(),
                self.state().module.functions().len()));
        }
        let n = insts.len();
        let mut anchor: Option<ValueId> = None;
        let mut i: usize = 0;
        while i < n
            invariant_except_break
                anchor is None,
            invariant
                self.wf(),
                n == insts@.len(),
                insts@ == self.state().module.blocks()[b.0 as int].insts@,
                forall|k: int| 0 <= k < insts@.len() ==> (#[trigger] insts@[k]).0 < self.state().module.values().len(),
                0 <= i <= n,
                forall|j: int| 0 <= j < i ==> is_phi(self.state().module, #[trigger] insts@[j]),
            ensures
                phi_head_anchor(self.state().module, insts@, anchor),
            decreases n - i,
        {
            let v = insts[i];
            let phi = match &self.module.value(v).kind {
                ValueKind::Instruction { op: Opcode::Phi, .. } => true,
                _ => false,
            };
            if !phi {
                anchor = Some(v);
                assert(insts@[i as int] == v);
                break;
            }
            i += 1;
        }
        let ghost s = self.state();
        let v = self.module.insert_instruction(b, anchor, ty, Opcode::Phi, Vec::new(), Vec::new(), InstFlags::none(), name);
        proof {
            assert(phi_head_anchor(s.module, s.module.blocks()[b.0 as int].insts@, anchor));
        }
        Ok(v)
    }

    /// A phi of the integer type `ty` with no incoming value yet.
    pub fn int_phi_dyn(&mut self, ty: TypeId, name: &str) -> (r: IrResult<ValueId>)
        requires
            old(self).wf(),
            old(self).state().block is Some,
        ensures
            final(self).folder_spec() == old(self).folder_spec(),
            phi_emit(old(self).state(), final(self).state(), r, type_shape_error(old(self).state().module, ty, TypeKindLabel::Integer), ty, name@),
    {
        self.phi_core(ty, TypeKindLabel::Integer, name)
    }

    /// A phi of the floating-point type `ty` with no incoming value yet.
    pub fn fp_phi_dyn(&mut self, ty: TypeId, name: &str) -> (r: IrResult<ValueId>)
        requires
            old(self).wf(),
            old(self).state().block is Some,
        ensures
            final(self).folder_spec() == old(self).folder_spec(),
            phi_emit(old(self).state(), final(self).state(), r, type_shape_error(old(self).state().module, ty, TypeKindLabel::Float), ty, name@),
    {
        self.phi_core(ty, TypeKindLabel::Float, name)
    }

    /// A phi of the pointer type `ty` with no incoming value yet.
    pub fn pointer_phi_in_addrspace(&mut self, ty: TypeId, name: &str) -> (r: IrResult<ValueId>)
        requires
            old(self).wf(),
            old(self).state().block is Some,
        ensures
            final(self).folder_spec() == old(self).folder_spec(),
            phi_emit(old(self).state(), final(self).state(), r, type_shape_error(old(self).state().module, ty, TypeKindLabel::Pointer), ty, name@),
    {
        self.phi_core(ty, TypeKindLabel::Pointer, name)
    }

    /// A phi of any type `ty` with no incoming value yet.
    pub fn phi_dyn(&mut self, ty: TypeId, name: &str) -> (r: IrResult<ValueId>)
        requires
            old(self).wf(),
            old(self).state().block is Some,
        ensures
            final(self).folder_spec() == old(self).folder_spec(),
            phi_emit(old(self).state(), final(self).state(), r, type_shape_error(old(self).state().module, ty, TypeKindLabel::Void), ty, name@),
    {
        self.phi_core(ty, TypeKindLabel::Void, name)
    }

    /// Adds the incoming pair (`val`, `block`) to the phi `phi_val`. A
    /// value of another type, or a second different value for a block
    /// that already has one, is refused.
    pub fn phi_add_incoming_from_value(&mut self, phi_val: ValueId, val: ValueId, block: BlockId) -> (r: IrResult<()>)
        requires
            old(self).wf(),
        ensures
            final(self).folder_spec() == old(self).folder_spec(),
            final(self).wf(),
            same_place(old(self).state(), final(self).state()),
            phi_incoming_error(old(self).state().module, phi_val, val, block) matches Some(e) ==> r == Err::<(), IrError>(e) && final(self).state() == old(self).state(),
            phi_incoming_error(old(self).state().module, phi_val, val, block) is None ==> {
                &&& r is Ok
                &&& final(self).state().module.types() == old(self).state().module.types()
                &&& final(self).state().module.blocks() == old(self).state().module.blocks()
                &&& final(self).state().module.functions() == old(self).state().module.functions()
                &&& final(self).state().module.name_spec() == old(self).state().module.name_spec()
                &&& final(self).state().module.values().len() == old(self).state().module.values().len()
                &&& forall|k: int| 0 <= k < old(self).state().module.values().len() && k != phi_val.0
                        ==> #[trigger] final(self).state().module.values()[k] == old(self).state().module.values()[k]
                &&& final(self).state().module.values()[phi_val.0 as int].ty == old(self).state().module.values()[phi_val.0 as int].ty
                &&& final(self).state().module.values()[phi_val.0 as int].name == old(self).state().module.values()[phi_val.0 as int].name
                &&& inst_block(final(self).state().module, phi_val) == inst_block(old(self).state().module, phi_val)
                &&& phi_incoming(final(self).state().module, phi_val) == Some((phi_incoming(old(self).state().module, phi_val).unwrap().0.push(val),
                        phi_incoming(old(self).state().module, phi_val).unwrap().1.push(block)))
                &&& final(self).state().module.uses() == old(self).state().module.uses().push((val, phi_val))
                &&& final(self).state().module.block_uses() == old(self).state().module.block_uses().push((block, phi_val))
            },
    {
        if phi_val.0 >= self.module.value_count() || val.0 >= self.module.value_count() || block.0 >= self.module.block_count() {
            return Err(IrError::ForeignValueId);
        }
        let m = &self.module;
        let (ops, ts) = match &m.value(phi_val).kind {
            ValueKind::Instruction { op, operands, targets, .. } => {
                match op {
                    Opcode::Phi => (operands, targets),
                    _ => {
                        return Err(IrError::InvalidOperation { message: "phi_add_incoming_from_value: instruction is not a phi" });
                    },
                }
            },
            _ => {
                return Err(IrError::InvalidOperation { message: "phi_add_incoming_from_value: target is not an instruction" });
            },
        };
        let pt = m.value_type(phi_val);
        let vt = m.value_type(val);
        if vt != pt {
            return Err(IrError::TypeMismatch { expected: m.kind_label(pt), got: m.kind_label(vt) });
        }
        let n = if ts.len() < ops.len() { ts.len() } else { ops.len() };
        for k in 0..n
            invariant
                self.wf(),
                self.state().module.valid_value(phi_val),
                self.state().module.valid_value(val),
                self.state().module.valid_block(block),
                self.state().module.values()[phi_val.0 as int].kind is Instruction,
                phi_incoming(self.state().module, phi_val) == Some((ops@, ts@)),
                self.state().module.ty_of(val) == self.state().module.ty_of(phi_val),
                n <= ts@.len(),
                n <= ops@.len(),
                n == (if ts@.len() < ops@.len() { ts@.len() } else { ops@.len() }),
                forall|j: int| 0 <= j < k ==> !(#[trigger] ts@[j] == block && ops@[j] != val),
        {
            if ts[k] == block && ops[k] != val {
                assert(phi_incoming(self.state().module, phi_val).unwrap().1[k as int] == block);
                return Err(IrError::AmbiguousPhiIncoming { block: self.module.block_name(block) });
            }
        }
        proof {
            let inc = phi_incoming(self.state().module, phi_val).unwrap();
            assert(inc.0 == ops@ && inc.1 == ts@);
            assert(!exists|k: int| 0 <= k < inc.1.len() && k < inc.0.len() && #[trigger] inc.1[k] == block && inc.0[k] != val);
        }
        self.module.add_phi_incoming(phi_val, val, block);
        Ok(())
    }
}

impl<F: IRBuilderFolder> IrBuilder<F> {
    /// Width of the integer `ty` or of its integer elements.
    fn scalar_int_width(&self, ty: TypeId) -> (r: Option<u32>)
        requires
            self.wf(),
            self.state().module.valid_type(ty),
        ensures
            r == scalar_int_bits(self.state().module.types(), ty),
    {
        match self.module.type_data(ty) {
            TypeData::Integer { bits } => Some(bits),
            TypeData::FixedVector { elem, .. } => {
                proof {
                    assert(crate::ir::type_refs_below(self.state().module.types()[ty.0 as int], ty.0 as int));
                }
                match self.module.type_data(elem) {
                    TypeData::Integer { bits } => Some(bits),
                    _ => None,
                }
            },
            _ => None,
        }
    }

    /// Element count of the vector `ty`.
    fn vector_length(&self, ty: TypeId) -> (r: Option<u32>)
        requires
            self.wf(),
            self.state().module.valid_type(ty),
        ensures
            r == vector_len(self.state().module.types(), ty),
    {
        match self.module.type_data(ty) {
            TypeData::FixedVector { n, .. } => Some(n),
            _ => None,
        }
    }

    /// `trunc`, `zext` or `sext` of an integer or integer vector to
    /// `dst_ty`, whose elements must narrow (`trunc`) or widen and whose
    /// element count must match; folded through the erased hook, carrying
    /// the `nneg`, `nuw` and `nsw` flags of `flags`.
    pub fn int_cast_erased(&mut self, opcode: CastOpcode, src: ValueId, dst_ty: TypeId, flags: InstFlags, name: &str) -> (r: IrResult<ValueId>)
        requires
            old(self).wf(),
            old(self).state().block is Some,
        ensures
            final(self).folder_spec() == old(self).folder_spec(),
            checked_emit(old(self).state(), final(self).state(), r, asks_cast(old(self).folder_spec(), opcode, src, dst_ty, false), int_cast_erased_error(old(self).state().module, opcode, src, dst_ty),
                dst_ty, Opcode::Cast(opcode), seq![src], int_cast_erased_flags(flags), name@),
    {
        match opcode {
            CastOpcode::Trunc | CastOpcode::ZExt | CastOpcode::SExt => {},
            _ => {
                return Err(IrError::InvalidOperation { message: "opcode is not trunc, zext or sext" });
            },
        }
        if src.0 >= self.module.value_count() || dst_ty.0 >= self.module.type_count() {
            return Err(IrError::ForeignValueId);
        }
        let st = self.module.value_type(src);
        let sb = self.scalar_int_width(st);
        let db = self.scalar_int_width(dst_ty);
        let (src_bits, dst_bits) = match (sb, db) {
            (Some(a), Some(b)) => (a, b),
            _ => {
                return Err(IrError::InvalidOperation { message: "trunc/zext/sext operand is neither an integer nor an integer vector" });
            },
        };
        if self.vector_length(st) != self.vector_length(dst_ty) {
            return Err(IrError::InvalidOperation { message: "trunc/zext/sext changes the vector element count" });
        }
        let widens = match opcode { CastOpcode::Trunc => false, _ => true };
        if (widens && dst_bits <= src_bits) || (!widens && dst_bits >= src_bits) {
            return Err(IrError::OperandWidthMismatch { lhs: src_bits, rhs: dst_bits });
        }
        let folded = self.folder.fold_cast_dyn(&self.module, opcode, src, dst_ty);
        let kept = InstFlags { nuw: flags.nuw, nsw: flags.nsw, exact: false, disjoint: false, nneg: flags.nneg, samesign: false, fmf: FastMathFlags { bits: 0 } };
        let ops = vec![src];
        assert(ops@ =~= seq![src]);
        let ghost s = self.state();
        let r = self.complete_fold(folded, dst_ty, Opcode::Cast(opcode), ops, kept, name);
        proof { lemma_outcome_emitted(s, self.state().module, folded, r, asks_cast(old(self).folder_spec(), opcode, src, dst_ty, false), dst_ty, Opcode::Cast(opcode), seq![src], kept, name@); }
        r
    }
}

impl<F: IRBuilderFolder> IrBuilder<F> {
    /// Validates a pointer operand.
    fn check_pointer_operand(&self, v: ValueId) -> (r: Option<IrError>)
        requires
            self.wf(),
        ensures
            r == pointer_operand_error(self.state().module, v),
    {
        if v.0 >= self.module.value_count() {
            return Some(IrError::ForeignValueId);
        }
        let t = self.module.value_type(v);
        match self.module.type_data(t) {
            TypeData::Pointer { .. } => None,
            _ => Some(IrError::TypeMismatch { expected: TypeKindLabel::Pointer, got: self.module.kind_label(t) }),
        }
    }

    /// Inserts `op operands` of type `ty` at the insertion point.
    fn insert_plain(&mut self, ty: TypeId, op: Opcode, operands: Vec<ValueId>, name: &str) -> (r: ValueId)
        requires
            old(self).wf(),
            old(self).state().block is Some,
            old(self).state().module.valid_type(ty),
            forall|k: int| 0 <= k < operands@.len() ==> old(self).state().module.valid_value(#[trigger] operands@[k]),
        ensures
            final(self).folder_spec() == old(self).folder_spec(),
            final(self).wf(),
            same_place(old(self).state(), final(self).state()),
            inst_added(old(self).state().module, final(self).state().module, r, old(self).state().block.unwrap(), old(self).state().before, ty, op,
                operands@, Seq::<BlockId>::empty(), no_flags(), name@),
    {
        let b = match self.insert_block { Some(b) => b, None => BlockId(0) };
        self.module.insert_instruction(b, self.insert_before, ty, op, operands, Vec::new(), InstFlags::none(), name)
    }

    /// `alloca ty`: a pointer (address space 0) to a fresh stack slot of
    /// type `ty`.
    pub fn alloca(&mut self, ty: TypeId, name: &str) -> (r: IrResult<ValueId>)
        requires
            old(self).wf(),
            old(self).state().block is Some,
        ensures
            final(self).folder_spec() == old(self).folder_spec(),
            interned_emit(old(self).state(), final(self).state(), r,
                if old(self).state().module.valid_type(ty) { None } else { Some(IrError::ForeignValueId) },
                TypeData::Pointer { addr_space: 0 }, Opcode::Alloca { allocated: ty }, Seq::<ValueId>::empty(), name@),
    {
        if ty.0 >= self.module.type_count() {
            return Err(IrError::ForeignValueId);
        }
        let p = self.module.ptr_type(0);
        let ghost mid = self.state().module;
        let v = self.insert_plain(p, Opcode::Alloca { allocated: ty }, Vec::new(), name);
        proof {
            assert(mid.types()[p.0 as int] == (TypeData::Pointer { addr_space: 0 }));
        }
        Ok(v)
    }

    fn load_core(&mut self, ty: TypeId, ptr: ValueId, expected: TypeKindLabel, name: &str) -> (r: IrResult<ValueId>)
        requires
            old(self).wf(),
            old(self).state().block is Some,
        ensures
            final(self).folder_spec() == old(self).folder_spec(),
            plain_emit(old(self).state(), final(self).state(), r, load_error(old(self).state().module, ty, ptr, expected), ty, Opcode::Load, seq![ptr], name@),
    {
        if let Some(e) = self.check_type_shape(ty, expected) {
            return Err(e);
        }
        if let Some(e) = self.check_pointer_operand(ptr) {
            return Err(e);
        }
        let ops = vec![ptr];
        assert(ops@ =~= seq![ptr]);
        Ok(self.insert_plain(ty, Opcode::Load, ops, name))
    }

    /// `load ty, ptr`.
    pub fn load(&mut self, ty: TypeId, ptr: ValueId, name: &str) -> (r: IrResult<ValueId>)
        requires
            old(self).wf(),
            old(self).state().block is Some,
        ensures
            final(self).folder_spec() == old(self).folder_spec(),
            plain_emit(old(self).state(), final(self).state(), r, load_error(old(self).state().module, ty, ptr, TypeKindLabel::Void), ty, Opcode::Load, seq![ptr], name@),
    {
        self.load_core(ty, ptr, TypeKindLabel::Void, name)
    }

    /// `load ty, ptr` of the integer type `ty`.
    pub fn int_load_dyn(&mut self, ty: TypeId, ptr: ValueId, name: &str) -> (r: IrResult<ValueId>)
        requires
            old(self).wf(),
            old(self).state().block is Some,
        ensures
            final(self).folder_spec() == old(self).folder_spec(),
            plain_emit(old(self).state(), final(self).state(), r, load_error(old(self).state().module, ty, ptr, TypeKindLabel::Integer), ty, Opcode::Load, seq![ptr], name@),
    {
        self.load_core(ty, ptr, TypeKindLabel::Integer, name)
    }

    /// `load ty, ptr` of the floating-point type `ty`.
    pub fn fp_load_dyn(&mut self, ty: TypeId, ptr: ValueId, name: &str) -> (r: IrResult<ValueId>)
        requires
            old(self).wf(),
            old(self).state().block is Some,
        ensures
            final(self).folder_spec() == old(self).folder_spec(),
            plain_emit(old(self).state(), final(self).state(), r, load_error(old(self).state().module, ty, ptr, TypeKindLabel::Float), ty, Opcode::Load, seq![ptr], name@),
    {
        self.load_core(ty, ptr, TypeKindLabel::Float, name)
    }

    /// `load ptr, ptr`: a pointer (address space 0) read through `ptr`.
    pub fn pointer_load(&mut self, ptr: ValueId, name: &str) -> (r: IrResult<ValueId>)
        requires
            old(self).wf(),
            old(self).state().block is Some,
        ensures
            final(self).folder_spec() == old(self).folder_spec(),
            interned_emit(old(self).state(), final(self).state(), r, pointer_operand_error(old(self).state().module, ptr),
                TypeData::Pointer { addr_space: 0 }, Opcode::Load, seq![ptr], name@),
    {
        if let Some(e) = self.check_pointer_operand(ptr) {
            return Err(e);
        }
        let p = self.module.ptr_type(0);
        let ghost mid = self.state().module;
        let ops = vec![ptr];
        assert(ops@ =~= seq![ptr]);
        let v = self.insert_plain(p, Opcode::Load, ops, name);
        proof {
            assert(mid.types()[p.0 as int] == (TypeData::Pointer { addr_space: 0 }));
        }
        Ok(v)
    }

    /// `store value, ptr`; the instruction has type `void`.
    pub fn store(&mut self, value: ValueId, ptr: ValueId) -> (r: IrResult<ValueId>)
        requires
            old(self).wf(),
            old(self).state().block is Some,
        ensures
            final(self).folder_spec() == old(self).folder_spec(),
            interned_emit(old(self).state(), final(self).state(), r,
                if !old(self).state().module.valid_value(value) { Some(IrError::ForeignValueId) } else { pointer_operand_error(old(self).state().module, ptr) },
                TypeData::Void, Opcode::Store, seq![value, ptr], Seq::<char>::empty()),
    {
        if value.0 >= self.module.value_count() {
            return Err(IrError::ForeignValueId);
        }
        if let Some(e) = self.check_pointer_operand(ptr) {
            return Err(e);
        }
        let void_ty = self.module.void_type();
        let ghost mid = self.state().module;
        let v = self.insert_plain(void_ty, Opcode::Store, vec![value, ptr], "");
        proof {
            assert(mid.types()[void_ty.0 as int] == TypeData::Void);
            assert(""@ == Seq::<char>::empty()) by { reveal_strlit(""); }
        }
        Ok(v)
    }
}

/// With the default folder, an integer operation on two constants of
/// one type that it folds (any but the poison cases) is completed by
/// adding one new constant of that type holding the result of the
/// operation on the two constants.
pub proof fn law_default_fold_adds_result(s: BuilderState, new: Module, folded: IrResult<Option<Folded>>,
    r: IrResult<ValueId>, op: BinaryOpcode, lhs: ValueId, rhs: ValueId, flags: InstFlags, name: Seq<char>)
    requires
        state_ok(s),
        s.block is Some,
        int_pair_error(s.module, lhs, rhs) is None,
        const_bits(s.module, lhs) is Some,
        const_bits(s.module, lhs).unwrap().len() == s.module.shape_of(lhs)->bits,
        const_binop_model(s.module, op, lhs, rhs) is Some,
        answers_int(folded, const_binop_model(s.module, op, lhs, rhs)),
        fold_outcome(s, new, folded, r, s.module.ty_of(lhs), Opcode::Binary(op), seq![lhs, rhs], flags, name),
    ensures
        r is Ok,
        constant_added(s.module, new, r->Ok_0, s.module.ty_of(lhs)),
        const_bits(new, r->Ok_0) == const_binop_model(s.module, op, lhs, rhs),
{
    let bits = const_binop_model(s.module, op, lhs, rhs).unwrap();
    assert(bits.len() == const_bits(s.module, lhs).unwrap().len());
}

/// A builder with the default folder, asked for an integer operation on
/// two constants of one type that the folder folds (any but the poison
/// cases), answers with one new constant of that type holding the result
/// of the operation on the two constants.
pub proof fn law_constant_folder_builds_folded_constant(s: BuilderState, new: BuilderState, r: IrResult<ValueId>,
    op: BinaryOpcode, lhs: ValueId, rhs: ValueId, name: Seq<char>)
    requires
        state_ok(s),
        s.block is Some,
        int_pair_error(s.module, lhs, rhs) is None,
        const_bits(s.module, lhs) is Some,
        const_bits(s.module, lhs).unwrap().len() == s.module.shape_of(lhs)->bits,
        const_binop_model(s.module, op, lhs, rhs) is Some,
        int_binop_done(s, new, r, asks_int_binop(ConstantFolder, op, lhs, rhs, accepted_flags(op, no_flags()), false),
            op, lhs, rhs, no_flags(), name),
    ensures
        r is Ok,
        constant_added(s.module, new.module, r->Ok_0, s.module.ty_of(lhs)),
        const_bits(new.module, r->Ok_0) == const_binop_model(s.module, op, lhs, rhs),
{
    let m = s.module;
    let answers = asks_int_binop(ConstantFolder, op, lhs, rhs, accepted_flags(op, no_flags()), false);
    let ops = seq![lhs, rhs];
    let a = choose|a: IrResult<Option<Folded>>| answers(m, a)
        && #[trigger] fold_outcome(s, new.module, a, r, m.ty_of(lhs), Opcode::Binary(op), ops,
            accepted_flags(op, no_flags()), name);
    assert(call_ensures(ConstantFolder::fold_int_bin_op, (&ConstantFolder, &m, op, lhs, rhs), a));
    let d = choose|d: IrResult<Option<Folded>>| #[trigger] call_ensures(ConstantFolder::fold_bin_op_dyn,
        (&ConstantFolder, &m, op, lhs, rhs), d)
        && narrowed(m, d, |f: Folded| folded_error(m, f, m.ty_of(lhs)), a);
    assert(answers_int(d, const_binop_model(m, op, lhs, rhs)));
    law_default_fold_adds_result(s, new.module, a, r, op, lhs, rhs, accepted_flags(op, no_flags()), name);
}

/// A builder with the default folder, asked for a `select` of two
/// constants whose condition is a one-bit constant, answers with the arm
/// the condition picks and adds nothing to the module.
pub proof fn law_constant_folder_select_picks_arm(s: BuilderState, new: BuilderState, r: IrResult<ValueId>,
    cond: ValueId, t: ValueId, f: ValueId, flags: InstFlags, name: Seq<char>)
    requires
        state_ok(s),
        s.block is Some,
        select_error(s.module, cond, t, f) is None,
        select_pick(s.module, cond, t, f) is Some,
        checked_emit(s, new, r, asks_select(ConstantFolder, cond, t, f), None, s.module.ty_of(t), Opcode::Select,
            seq![cond, t, f], flags, name),
    ensures
        r == Ok::<ValueId, IrError>(if select_pick(s.module, cond, t, f).unwrap() { t } else { f }),
        new.module == s.module,
{
    let m = s.module;
    let ops = seq![cond, t, f];
    let a = choose|a: IrResult<Option<Folded>>| asks_select(ConstantFolder, cond, t, f)(m, a)
        && #[trigger] fold_outcome(s, new.module, a, r, m.ty_of(t), Opcode::Select, ops, flags, name);
    assert(call_ensures(ConstantFolder::fold_select_dyn, (&ConstantFolder, &m, cond, t, f), a));
}

impl<F: IRBuilderFolder> IrBuilder<F> {
    /// `ptrtoint value to dst_ty`, a pointer to an integer type.
    pub fn ptr_to_int(&mut self, value: ValueId, dst_ty: TypeId, name: &str) -> (r: IrResult<ValueId>)
        requires
            old(self).wf(),
            old(self).state().block is Some,
        ensures
            final(self).folder_spec() == old(self).folder_spec(),
            checked_emit(old(self).state(), final(self).state(), r, asks_cast(old(self).folder_spec(), CastOpcode::PtrToInt, value, dst_ty, true), cast_error(old(self).state().module, CastOpcode::PtrToInt, value, dst_ty, false),
                dst_ty, Opcode::Cast(CastOpcode::PtrToInt), seq![value], no_flags(), name@),
    {
        self.cast_core(CastOpcode::PtrToInt, value, dst_ty, InstFlags::none(), true, false, name)
    }

    /// `inttoptr value to dst_ty`, an integer to a pointer type.
    pub fn int_to_ptr(&mut self, value: ValueId, dst_ty: TypeId, name: &str) -> (r: IrResult<ValueId>)
        requires
            old(self).wf(),
            old(self).state().block is Some,
        ensures
            final(self).folder_spec() == old(self).folder_spec(),
            checked_emit(old(self).state(), final(self).state(), r, asks_cast(old(self).folder_spec(), CastOpcode::IntToPtr, value, dst_ty, false), cast_error(old(self).state().module, CastOpcode::IntToPtr, value, dst_ty, false),
                dst_ty, Opcode::Cast(CastOpcode::IntToPtr), seq![value], no_flags(), name@),
    {
        self.cast_core(CastOpcode::IntToPtr, value, dst_ty, InstFlags::none(), false, false, name)
    }

    /// `addrspacecast value to dst_ty`, between pointer types.
    pub fn addrspace_cast(&mut self, value: ValueId, dst_ty: TypeId, name: &str) -> (r: IrResult<ValueId>)
        requires
            old(self).wf(),
            old(self).state().block is Some,
        ensures
            final(self).folder_spec() == old(self).folder_spec(),
            checked_emit(old(self).state(), final(self).state(), r, asks_cast(old(self).folder_spec(), CastOpcode::AddrSpaceCast, value, dst_ty, false), cast_error(old(self).state().module, CastOpcode::AddrSpaceCast, value, dst_ty, false),
                dst_ty, Opcode::Cast(CastOpcode::AddrSpaceCast), seq![value], no_flags(), name@),
    {
        self.cast_core(CastOpcode::AddrSpaceCast, value, dst_ty, InstFlags::none(), false, false, name)
    }

    /// `bitcast value to dst_ty` between integer types of one width.
    pub fn bitcast_int_to_int(&mut self, value: ValueId, dst_ty: TypeId, name: &str) -> (r: IrResult<ValueId>)
        requires
            old(self).wf(),
            old(self).state().block is Some,
        ensures
            final(self).folder_spec() == old(self).folder_spec(),
            checked_emit(old(self).state(), final(self).state(), r, asks_bitcast(old(self).folder_spec(), value, dst_ty, true), bitcast_error(old(self).state().module, value, dst_ty, TypeKindLabel::Integer, TypeKindLabel::Integer),
                dst_ty, Opcode::Cast(CastOpcode::BitCast), seq![value], no_flags(), name@),
    {
        if let Some(e) = self.check_bitcast(value, dst_ty, TypeKindLabel::Integer, TypeKindLabel::Integer) {
            return Err(e);
        }
        let folded = self.folder.fold_cast_to_int(&self.module, CastOpcode::BitCast, value, dst_ty);
        let ops = vec![value];
        assert(ops@ =~= seq![value]);
        let ghost s = self.state();
        let r = self.complete_fold(folded, dst_ty, Opcode::Cast(CastOpcode::BitCast), ops, InstFlags::none(), name);
        proof { lemma_outcome_emitted(s, self.state().module, folded, r, asks_bitcast(old(self).folder_spec(), value, dst_ty, true), dst_ty, Opcode::Cast(CastOpcode::BitCast), seq![value], no_flags(), name@); }
        r
    }

    /// `bitcast value to dst_ty` from an integer to a floating-point type of the same width.
    pub fn bitcast_int_to_fp(&mut self, value: ValueId, dst_ty: TypeId, name: &str) -> (r: IrResult<ValueId>)
        requires
            old(self).wf(),
            old(self).state().block is Some,
        ensures
            final(self).folder_spec() == old(self).folder_spec(),
            checked_emit(old(self).state(), final(self).state(), r, asks_bitcast(old(self).folder_spec(), value, dst_ty, false), bitcast_error(old(self).state().module, value, dst_ty, TypeKindLabel::Integer, TypeKindLabel::Float),
                dst_ty, Opcode::Cast(CastOpcode::BitCast), seq![value], no_flags(), name@),
    {
        if let Some(e) = self.check_bitcast(value, dst_ty, TypeKindLabel::Integer, TypeKindLabel::Float) {
            return Err(e);
        }
        let folded = self.folder.fold_cast_to_fp(&self.module, CastOpcode::BitCast, value, dst_ty);
        let ops = vec![value];
        assert(ops@ =~= seq![value]);
        let ghost s = self.state();
        let r = self.complete_fold(folded, dst_ty, Opcode::Cast(CastOpcode::BitCast), ops, InstFlags::none(), name);
        proof { lemma_outcome_emitted(s, self.state().module, folded, r, asks_bitcast(old(self).folder_spec(), value, dst_ty, false), dst_ty, Opcode::Cast(CastOpcode::BitCast), seq![value], no_flags(), name@); }
        r
    }

    /// `bitcast value to dst_ty` from a floating-point to an integer type of the same width.
    pub fn bitcast_fp_to_int(&mut self, value: ValueId, dst_ty: TypeId, name: &str) -> (r: IrResult<ValueId>)
        requires
            old(self).wf(),
            old(self).state().block is Some,
        ensures
            final(self).folder_spec() == old(self).folder_spec(),
            checked_emit(old(self).state(), final(self).state(), r, asks_bitcast(old(self).folder_spec(), value, dst_ty, true), bitcast_error(old(self).state().module, value, dst_ty, TypeKindLabel::Float, TypeKindLabel::Integer),
                dst_ty, Opcode::Cast(CastOpcode::BitCast), seq![value], no_flags(), name@),
    {
        if let Some(e) = self.check_bitcast(value, dst_ty, TypeKindLabel::Float, TypeKindLabel::Integer) {
            return Err(e);
        }
        let folded = self.folder.fold_cast_to_int(&self.module, CastOpcode::BitCast, value, dst_ty);
        let ops = vec![value];
        assert(ops@ =~= seq![value]);
        let ghost s = self.state();
        let r = self.complete_fold(folded, dst_ty, Opcode::Cast(CastOpcode::BitCast), ops, InstFlags::none(), name);
        proof { lemma_outcome_emitted(s, self.state().module, folded, r, asks_bitcast(old(self).folder_spec(), value, dst_ty, true), dst_ty, Opcode::Cast(CastOpcode::BitCast), seq![value], no_flags(), name@); }
        r
    }

    /// `bitcast value to dst_ty` between floating-point types of the same width.
    pub fn bitcast_fp_to_fp(&mut self, value: ValueId, dst_ty: TypeId, name: &str) -> (r: IrResult<ValueId>)
        requires
            old(self).wf(),
            old(self).state().block is Some,
        ensures
            final(self).folder_spec() == old(self).folder_spec(),
            checked_emit(old(self).state(), final(self).state(), r, asks_bitcast(old(self).folder_spec(), value, dst_ty, false), bitcast_error(old(self).state().module, value, dst_ty, TypeKindLabel::Float, TypeKindLabel::Float),
                dst_ty, Opcode::Cast(CastOpcode::BitCast), seq![value], no_flags(), name@),
    {
        if let Some(e) = self.check_bitcast(value, dst_ty, TypeKindLabel::Float, TypeKindLabel::Float) {
            return Err(e);
        }
        let folded = self.folder.fold_cast_to_fp(&self.module, CastOpcode::BitCast, value, dst_ty);
        let ops = vec![value];
        assert(ops@ =~= seq![value]);
        let ghost s = self.state();
        let r = self.complete_fold(folded, dst_ty, Opcode::Cast(CastOpcode::BitCast), ops, InstFlags::none(), name);
        proof { lemma_outcome_emitted(s, self.state().module, folded, r, asks_bitcast(old(self).folder_spec(), value, dst_ty, false), dst_ty, Opcode::Cast(CastOpcode::BitCast), seq![value], no_flags(), name@); }
        r
    }

    /// `bitcast value to dst_ty` with no check of the two types.
    pub fn bitcast_dyn(&mut self, value: ValueId, dst_ty: TypeId, name: &str) -> (r: IrResult<ValueId>)
        requires
            old(self).wf(),
            old(self).state().block is Some,
        ensures
            final(self).folder_spec() == old(self).folder_spec(),
            checked_emit(old(self).state(), final(self).state(), r, asks_cast(old(self).folder_spec(), CastOpcode::BitCast, value, dst_ty, false),
                if old(self).state().module.valid_value(value) && old(self).state().module.valid_type(dst_ty) { None } else { Some(IrError::ForeignValueId) },
                dst_ty, Opcode::Cast(CastOpcode::BitCast), seq![value], no_flags(), name@),
    {
        if value.0 >= self.module.value_count() || dst_ty.0 >= self.module.type_count() {
            return Err(IrError::ForeignValueId);
        }
        let folded = self.folder.fold_cast_dyn(&self.module, CastOpcode::BitCast, value, dst_ty);
        let ops = vec![value];
        assert(ops@ =~= seq![value]);
        let ghost s = self.state();
        let r = self.complete_fold(folded, dst_ty, Opcode::Cast(CastOpcode::BitCast), ops, InstFlags::none(), name);
        proof { lemma_outcome_emitted(s, self.state().module, folded, r, asks_cast(old(self).folder_spec(), CastOpcode::BitCast, value, dst_ty, false), dst_ty, Opcode::Cast(CastOpcode::BitCast), seq![value], no_flags(), name@); }
        r
    }

    /// `bitcast` between pointers of one address space, `addrspacecast` between address spaces; a constant operand is first offered to the folder's pointer-cast hook.
    pub fn pointer_cast(&mut self, value: ValueId, dst_ty: TypeId, name: &str) -> (r: IrResult<ValueId>)
        requires
            old(self).wf(),
            old(self).state().block is Some,
        ensures
            final(self).folder_spec() == old(self).folder_spec(),
            checked_emit(old(self).state(), final(self).state(), r, asks_pointer_cast(old(self).folder_spec(), value, dst_ty), pointer_cast_error(old(self).state().module, value, dst_ty),
                dst_ty, Opcode::Cast(pointer_cast_op(old(self).state().module, value, dst_ty)), seq![value], no_flags(), name@),
    {
        if value.0 >= self.module.value_count() || dst_ty.0 >= self.module.type_count() {
            return Err(IrError::ForeignValueId);
        }
        let st = self.module.value_type(value);
        let src_space = match self.module.type_data(st) {
            TypeData::Pointer { addr_space } => addr_space,
            _ => {
                return Err(IrError::TypeMismatch { expected: TypeKindLabel::Pointer, got: self.module.kind_label(st) });
            },
        };
        let dst_space = match self.module.type_data(dst_ty) {
            TypeData::Pointer { addr_space } => addr_space,
            _ => {
                return Err(IrError::TypeMismatch { expected: TypeKindLabel::Pointer, got: self.module.kind_label(dst_ty) });
            },
        };
        let op = if src_space == dst_space { CastOpcode::BitCast } else { CastOpcode::AddrSpaceCast };
        let is_constant = match &self.module.value(value).kind {
            ValueKind::Instruction { .. } | ValueKind::Argument { .. } => false,
            _ => true,
        };
        let first = if is_constant {
            self.folder.create_pointer_bitcast_or_addrspace_cast(&self.module, value, dst_ty)
        } else {
            Ok(None)
        };
        let folded = match first {
            Ok(None) => self.folder.fold_cast_dyn(&self.module, op, value, dst_ty),
            other => other,
        };
        proof {
            let m = self.state().module;
            assert(is_constant == is_constant_value(m, value));
            assert(op == pointer_cast_op(m, value, dst_ty));
            assert(first_pointer_answer(old(self).folder_spec(), m, value, dst_ty, first));
            assert(asks_pointer_cast(old(self).folder_spec(), value, dst_ty)(m, folded));
        }
        let ops = vec![value];
        assert(ops@ =~= seq![value]);
        let ghost s = self.state();
        let r = self.complete_fold(folded, dst_ty, Opcode::Cast(op), ops, InstFlags::none(), name);
        proof { lemma_outcome_emitted(s, self.state().module, folded, r, asks_pointer_cast(old(self).folder_spec(), value, dst_ty), dst_ty, Opcode::Cast(op), seq![value], no_flags(), name@); }
        r
    }

    /// `icmp pred lhs, rhs` on two pointers; the result is `i1`.
    pub fn pointer_cmp(&mut self, pred: IntPredicate, lhs: ValueId, rhs: ValueId, name: &str) -> (r: IrResult<ValueId>)
        requires
            old(self).wf(),
            old(self).state().block is Some,
        ensures
            final(self).folder_spec() == old(self).folder_spec(),
            compare_emit(old(self).state(), final(self).state(), r, asks_pointer_compare(old(self).folder_spec(), pred, lhs, rhs), pointer_pair_error(old(self).state().module, lhs, rhs), Opcode::ICmp(pred), lhs, rhs,
                no_flags(), name@),
    {
        self.pointer_compare_core(pred, lhs, rhs, name)
    }

    /// `icmp eq ptr, null`.
    pub fn is_null(&mut self, ptr: ValueId, name: &str) -> (r: IrResult<ValueId>)
        requires
            old(self).wf(),
            old(self).state().block is Some,
        ensures
            final(self).folder_spec() == old(self).folder_spec(),
            null_compare_emit(old(self).state(), final(self).state(), r, old(self).folder_spec(), IntPredicate::Eq, ptr, name@),
    {
        self.null_compare_core(IntPredicate::Eq, ptr, name)
    }

    /// `icmp ne ptr, null`.
    pub fn is_not_null(&mut self, ptr: ValueId, name: &str) -> (r: IrResult<ValueId>)
        requires
            old(self).wf(),
            old(self).state().block is Some,
        ensures
            final(self).folder_spec() == old(self).folder_spec(),
            null_compare_emit(old(self).state(), final(self).state(), r, old(self).folder_spec(), IntPredicate::Ne, ptr, name@),
    {
        self.null_compare_core(IntPredicate::Ne, ptr, name)
    }

    /// `load ty, ptr` of the integer type `ty`.
    pub fn int_load(&mut self, ty: TypeId, ptr: ValueId, name: &str) -> (r: IrResult<ValueId>)
        requires
            old(self).wf(),
            old(self).state().block is Some,
        ensures
            final(self).folder_spec() == old(self).folder_spec(),
            plain_emit(old(self).state(), final(self).state(), r, load_error(old(self).state().module, ty, ptr, TypeKindLabel::Integer), ty, Opcode::Load, seq![ptr], name@),
    {
        self.load_core(ty, ptr, TypeKindLabel::Integer, name)
    }

    /// `load ty, ptr` of the floating-point type `ty`.
    pub fn fp_load(&mut self, ty: TypeId, ptr: ValueId, name: &str) -> (r: IrResult<ValueId>)
        requires
            old(self).wf(),
            old(self).state().block is Some,
        ensures
            final(self).folder_spec() == old(self).folder_spec(),
            plain_emit(old(self).state(), final(self).state(), r, load_error(old(self).state().module, ty, ptr, TypeKindLabel::Float), ty, Opcode::Load, seq![ptr], name@),
    {
        self.load_core(ty, ptr, TypeKindLabel::Float, name)
    }

    /// Pointer comparison.
    fn pointer_compare_core(&mut self, pred: IntPredicate, lhs: ValueId, rhs: ValueId, name: &str) -> (r: IrResult<ValueId>)
        requires
            old(self).wf(),
            old(self).state().block is Some,
        ensures
            final(self).folder_spec() == old(self).folder_spec(),
            compare_emit(old(self).state(), final(self).state(), r, asks_pointer_compare(old(self).folder_spec(), pred, lhs, rhs), pointer_pair_error(old(self).state().module, lhs, rhs), Opcode::ICmp(pred), lhs, rhs,
                no_flags(), name@),
    {
        if let Some(e) = self.check_pointer_operand(lhs) {
            return Err(e);
        }
        if let Some(e) = self.check_pointer_operand(rhs) {
            return Err(e);
        }
        let i1 = self.module.bool_type();
        let ghost mid = self.state();
        let dyn_folded = self.folder.fold_cmp_dyn(&self.module, crate::ir_builder::folder::CmpPredicate::Int(pred), lhs, rhs);
        let folded = crate::ir_builder::folder::narrow_folded_bool(&self.module, dyn_folded);
        let r = self.complete_fold(folded, i1, Opcode::ICmp(pred), vec![lhs, rhs], InstFlags::none(), name);
        proof {
            lemma_outcome_emitted(mid, self.state().module, folded, r, asks_pointer_compare(old(self).folder_spec(), pred, lhs, rhs), i1, Opcode::ICmp(pred), seq![lhs, rhs], no_flags(), name@);
            assert(with_module(old(self).state(), mid.module) == mid);
        }
        r
    }

    /// Comparison of a pointer with the null pointer of its type.
    fn null_compare_core(&mut self, pred: IntPredicate, ptr: ValueId, name: &str) -> (r: IrResult<ValueId>)
        requires
            old(self).wf(),
            old(self).state().block is Some,
        ensures
            final(self).folder_spec() == old(self).folder_spec(),
            null_compare_emit(old(self).state(), final(self).state(), r, old(self).folder_spec(), pred, ptr, name@),
    {
        if let Some(e) = self.check_pointer_operand(ptr) {
            return Err(e);
        }
        let t = self.module.value_type(ptr);
        let null = match self.module.const_null(t) {
            Ok(n) => n,
            Err(e) => { return Err(e); },
        };
        let ghost mid = self.state().module;
        let r = self.pointer_compare_core(pred, ptr, null, name);
        proof {
            assert(pointer_pair_error(mid, ptr, null) is None);
            assert(with_module(old(self).state(), mid) == BuilderState { module: mid, block: old(self).state().block, before: old(self).state().before, fmf: old(self).state().fmf });
        }
        r
    }

    /// The record of the value `v`, which must be a value of the module.
    pub fn view(&self, v: ValueId) -> (r: &ValueData)
        requires
            self.state().module.valid_value(v),
        ensures
            *r == self.state().module.values()[v.0 as int],
    {
        self.module.value(v)
    }

    /// The record of the value `v`, or `None` when it is not a value of
    /// the module.
    pub fn try_view(&self, v: ValueId) -> (r: Option<&ValueData>)
        ensures
            self.state().module.valid_value(v) ==> (r matches Some(d) && *d == self.state().module.values()[v.0 as int]),
            !self.state().module.valid_value(v) ==> r is None,
    {
        if v.0 < self.module.value_count() {
            Some(self.module.value(v))
        } else {
            None
        }
    }
}

impl<F: IRBuilderFolder> IrBuilder<F> {
    /// Element-wise `add` on two integer vectors of one type.
    pub fn vector_int_add(&mut self, lhs: ValueId, rhs: ValueId, name: &str) -> (r: IrResult<ValueId>)
        requires
            old(self).wf(),
            old(self).state().block is Some,
        ensures
            final(self).folder_spec() == old(self).folder_spec(),
            vector_operand_error(old(self).state().module, lhs, rhs) matches Some(e) ==> r == Err::<ValueId, IrError>(e) && final(self).state() == old(self).state(),
            vector_operand_error(old(self).state().module, lhs, rhs) is None ==>
                int_binop_dyn_done(old(self).state(), final(self).state(), r, asks_bin_op_dyn(old(self).folder_spec(), BinaryOpcode::Add, lhs, rhs), BinaryOpcode::Add, lhs, rhs, no_flags(), name@),
            final(self).wf(),
    {
        if let Some(e) = self.check_vector_operands(lhs, rhs) {
            return Err(e);
        }
        self.int_binop_dyn_core(BinaryOpcode::Add, lhs, rhs, InstFlags::none(), name)
    }

    /// Element-wise `sub` on two integer vectors of one type.
    pub fn vector_int_sub(&mut self, lhs: ValueId, rhs: ValueId, name: &str) -> (r: IrResult<ValueId>)
        requires
            old(self).wf(),
            old(self).state().block is Some,
        ensures
            final(self).folder_spec() == old(self).folder_spec(),
            vector_operand_error(old(self).state().module, lhs, rhs) matches Some(e) ==> r == Err::<ValueId, IrError>(e) && final(self).state() == old(self).state(),
            vector_operand_error(old(self).state().module, lhs, rhs) is None ==>
                int_binop_dyn_done(old(self).state(), final(self).state(), r, asks_bin_op_dyn(old(self).folder_spec(), BinaryOpcode::Sub, lhs, rhs), BinaryOpcode::Sub, lhs, rhs, no_flags(), name@),
            final(self).wf(),
    {
        if let Some(e) = self.check_vector_operands(lhs, rhs) {
            return Err(e);
        }
        self.int_binop_dyn_core(BinaryOpcode::Sub, lhs, rhs, InstFlags::none(), name)
    }

    /// Element-wise `mul` on two integer vectors of one type.
    pub fn vector_int_mul(&mut self, lhs: ValueId, rhs: ValueId, name: &str) -> (r: IrResult<ValueId>)
        requires
            old(self).wf(),
            old(self).state().block is Some,
        ensures
            final(self).folder_spec() == old(self).folder_spec(),
            vector_operand_error(old(self).state().module, lhs, rhs) matches Some(e) ==> r == Err::<ValueId, IrError>(e) && final(self).state() == old(self).state(),
            vector_operand_error(old(self).state().module, lhs, rhs) is None ==>
                int_binop_dyn_done(old(self).state(), final(self).state(), r, asks_bin_op_dyn(old(self).folder_spec(), BinaryOpcode::Mul, lhs, rhs), BinaryOpcode::Mul, lhs, rhs, no_flags(), name@),
            final(self).wf(),
    {
        if let Some(e) = self.check_vector_operands(lhs, rhs) {
            return Err(e);
        }
        self.int_binop_dyn_core(BinaryOpcode::Mul, lhs, rhs, InstFlags::none(), name)
    }

    /// Element-wise `xor` on two integer vectors of one type.
    pub fn vector_int_xor(&mut self, lhs: ValueId, rhs: ValueId, name: &str) -> (r: IrResult<ValueId>)
        requires
            old(self).wf(),
            old(self).state().block is Some,
        ensures
            final(self).folder_spec() == old(self).folder_spec(),
            vector_operand_error(old(self).state().module, lhs, rhs) matches Some(e) ==> r == Err::<ValueId, IrError>(e) && final(self).state() == old(self).state(),
            vector_operand_error(old(self).state().module, lhs, rhs) is None ==>
                int_binop_dyn_done(old(self).state(), final(self).state(), r, asks_bin_op_dyn(old(self).folder_spec(), BinaryOpcode::Xor, lhs, rhs), BinaryOpcode::Xor, lhs, rhs, no_flags(), name@),
            final(self).wf(),
    {
        if let Some(e) = self.check_vector_operands(lhs, rhs) {
            return Err(e);
        }
        self.int_binop_dyn_core(BinaryOpcode::Xor, lhs, rhs, InstFlags::none(), name)
    }

    /// Element-wise `and` on two integer vectors of one type.
    pub fn vector_int_and(&mut self, lhs: ValueId, rhs: ValueId, name: &str) -> (r: IrResult<ValueId>)
        requires
            old(self).wf(),
            old(self).state().block is Some,
        ensures
            final(self).folder_spec() == old(self).folder_spec(),
            vector_operand_error(old(self).state().module, lhs, rhs) matches Some(e) ==> r == Err::<ValueId, IrError>(e) && final(self).state() == old(self).state(),
            vector_operand_error(old(self).state().module, lhs, rhs) is None ==>
                int_binop_dyn_done(old(self).state(), final(self).state(), r, asks_bin_op_dyn(old(self).folder_spec(), BinaryOpcode::And, lhs, rhs), BinaryOpcode::And, lhs, rhs, no_flags(), name@),
            final(self).wf(),
    {
        if let Some(e) = self.check_vector_operands(lhs, rhs) {
            return Err(e);
        }
        self.int_binop_dyn_core(BinaryOpcode::And, lhs, rhs, InstFlags::none(), name)
    }

    /// Element-wise `or` on two integer vectors of one type.
    pub fn vector_int_or(&mut self, lhs: ValueId, rhs: ValueId, name: &str) -> (r: IrResult<ValueId>)
        requires
            old(self).wf(),
            old(self).state().block is Some,
        ensures
            final(self).folder_spec() == old(self).folder_spec(),
            vector_operand_error(old(self).state().module, lhs, rhs) matches Some(e) ==> r == Err::<ValueId, IrError>(e) && final(self).state() == old(self).state(),
            vector_operand_error(old(self).state().module, lhs, rhs) is None ==>
                int_binop_dyn_done(old(self).state(), final(self).state(), r, asks_bin_op_dyn(old(self).folder_spec(), BinaryOpcode::Or, lhs, rhs), BinaryOpcode::Or, lhs, rhs, no_flags(), name@),
            final(self).wf(),
    {
        if let Some(e) = self.check_vector_operands(lhs, rhs) {
            return Err(e);
        }
        self.int_binop_dyn_core(BinaryOpcode::Or, lhs, rhs, InstFlags::none(), name)
    }

    /// Element-wise `shl` on two integer vectors of one type.
    pub fn vector_int_shl(&mut self, lhs: ValueId, rhs: ValueId, name: &str) -> (r: IrResult<ValueId>)
        requires
            old(self).wf(),
            old(self).state().block is Some,
        ensures
            final(self).folder_spec() == old(self).folder_spec(),
            vector_operand_error(old(self).state().module, lhs, rhs) matches Some(e) ==> r == Err::<ValueId, IrError>(e) && final(self).state() == old(self).state(),
            vector_operand_error(old(self).state().module, lhs, rhs) is None ==>
                int_binop_dyn_done(old(self).state(), final(self).state(), r, asks_bin_op_dyn(old(self).folder_spec(), BinaryOpcode::Shl, lhs, rhs), BinaryOpcode::Shl, lhs, rhs, no_flags(), name@),
            final(self).wf(),
    {
        if let Some(e) = self.check_vector_operands(lhs, rhs) {
            return Err(e);
        }
        self.int_binop_dyn_core(BinaryOpcode::Shl, lhs, rhs, InstFlags::none(), name)
    }

    /// Element-wise `lshr` on two integer vectors of one type.
    pub fn vector_int_lshr(&mut self, lhs: ValueId, rhs: ValueId, name: &str) -> (r: IrResult<ValueId>)
        requires
            old(self).wf(),
            old(self).state().block is Some,
        ensures
            final(self).folder_spec() == old(self).folder_spec(),
            vector_operand_error(old(self).state().module, lhs, rhs) matches Some(e) ==> r == Err::<ValueId, IrError>(e) && final(self).state() == old(self).state(),
            vector_operand_error(old(self).state().module, lhs, rhs) is None ==>
                int_binop_dyn_done(old(self).state(), final(self).state(), r, asks_bin_op_dyn(old(self).folder_spec(), BinaryOpcode::LShr, lhs, rhs), BinaryOpcode::LShr, lhs, rhs, no_flags(), name@),
            final(self).wf(),
    {
        if let Some(e) = self.check_vector_operands(lhs, rhs) {
            return Err(e);
        }
        self.int_binop_dyn_core(BinaryOpcode::LShr, lhs, rhs, InstFlags::none(), name)
    }

    /// Element-wise `ashr` on two integer vectors of one type.
    pub fn vector_int_ashr(&mut self, lhs: ValueId, rhs: ValueId, name: &str) -> (r: IrResult<ValueId>)
        requires
            old(self).wf(),
            old(self).state().block is Some,
        ensures
            final(self).folder_spec() == old(self).folder_spec(),
            vector_operand_error(old(self).state().module, lhs, rhs) matches Some(e) ==> r == Err::<ValueId, IrError>(e) && final(self).state() == old(self).state(),
            vector_operand_error(old(self).state().module, lhs, rhs) is None ==>
                int_binop_dyn_done(old(self).state(), final(self).state(), r, asks_bin_op_dyn(old(self).folder_spec(), BinaryOpcode::AShr, lhs, rhs), BinaryOpcode::AShr, lhs, rhs, no_flags(), name@),
            final(self).wf(),
    {
        if let Some(e) = self.check_vector_operands(lhs, rhs) {
            return Err(e);
        }
        self.int_binop_dyn_core(BinaryOpcode::AShr, lhs, rhs, InstFlags::none(), name)
    }

    /// `extractelement vector, index`: the element of `vector` at an integer `index`.
    pub fn extract_element(&mut self, vector: ValueId, index: ValueId, name: &str) -> (r: IrResult<ValueId>)
        requires
            old(self).wf(),
            old(self).state().block is Some,
        ensures
            final(self).folder_spec() == old(self).folder_spec(),
            checked_emit(old(self).state(), final(self).state(), r, asks_extract_element(old(self).folder_spec(), vector, index), extract_element_error(old(self).state().module, vector, index),
                old(self).state().module.shape_of(vector)->FixedVector_elem, Opcode::ExtractElement, seq![vector, index], no_flags(), name@),
    {
        if vector.0 >= self.module.value_count() {
            return Err(IrError::ForeignValueId);
        }
        if let Some(e) = self.check_int_operand(index) {
            return Err(e);
        }
        let vt = self.module.value_type(vector);
        let elem = match self.module.type_data(vt) {
            TypeData::FixedVector { elem, .. } => elem,
            _ => {
                return Err(IrError::TypeMismatch { expected: TypeKindLabel::FixedVector, got: self.module.kind_label(vt) });
            },
        };
        proof {
            assert(crate::ir::type_refs_below(self.state().module.types()[vt.0 as int], vt.0 as int));
        }
        let folded = self.folder.fold_extract_element_dyn(&self.module, vector, index);
        let ghost s = self.state();
        let r = self.complete_fold(folded, elem, Opcode::ExtractElement, vec![vector, index], InstFlags::none(), name);
        proof { lemma_outcome_emitted(s, self.state().module, folded, r, asks_extract_element(old(self).folder_spec(), vector, index), elem, Opcode::ExtractElement, seq![vector, index], no_flags(), name@); }
        r
    }

    /// `insertelement vector, element, index`: `vector` with the element at an integer `index` replaced.
    pub fn insert_element(&mut self, vector: ValueId, element: ValueId, index: ValueId, name: &str) -> (r: IrResult<ValueId>)
        requires
            old(self).wf(),
            old(self).state().block is Some,
        ensures
            final(self).folder_spec() == old(self).folder_spec(),
            checked_emit(old(self).state(), final(self).state(), r, asks_insert_element(old(self).folder_spec(), vector, element, index), insert_element_error(old(self).state().module, vector, element, index),
                old(self).state().module.ty_of(vector), Opcode::InsertElement, seq![vector, element, index], no_flags(), name@),
    {
        if vector.0 >= self.module.value_count() || element.0 >= self.module.value_count() {
            return Err(IrError::ForeignValueId);
        }
        if let Some(e) = self.check_int_operand(index) {
            return Err(e);
        }
        let vt = self.module.value_type(vector);
        let folded = self.folder.fold_insert_element_dyn(&self.module, vector, element, index);
        let ops = vec![vector, element, index];
        assert(ops@ =~= seq![vector, element, index]);
        let ghost s = self.state();
        let r = self.complete_fold(folded, vt, Opcode::InsertElement, ops, InstFlags::none(), name);
        proof { lemma_outcome_emitted(s, self.state().module, folded, r, asks_insert_element(old(self).folder_spec(), vector, element, index), vt, Opcode::InsertElement, seq![vector, element, index], no_flags(), name@); }
        r
    }

    /// `shufflevector lhs, rhs, mask`: a vector with one lane per mask
    /// entry, each a lane of `lhs` followed by `rhs`, or poison.
    pub fn shuffle_vector(&mut self, lhs: ValueId, rhs: ValueId, mask: &Vec<ShuffleMaskElem>, name: &str) -> (r: IrResult<ValueId>)
        requires
            old(self).wf(),
            old(self).state().block is Some,
        ensures
            final(self).folder_spec() == old(self).folder_spec(),
            shuffle_emit(old(self).state(), final(self).state(), r, old(self).folder_spec(), shuffle_error(old(self).state().module, lhs, rhs, mask@.len()),
                lhs, rhs, mask@, name@),
    {
        let ghost s0 = self.state();
        if lhs.0 >= self.module.value_count() || rhs.0 >= self.module.value_count() {
            return Err(IrError::ForeignValueId);
        }
        let lt = self.module.value_type(lhs);
        let rt = self.module.value_type(rhs);
        if lt != rt {
            return Err(IrError::TypeMismatch { expected: self.module.kind_label(lt), got: self.module.kind_label(rt) });
        }
        let elem = match self.module.type_data(lt) {
            TypeData::FixedVector { elem, .. } => elem,
            _ => {
                return Err(IrError::TypeMismatch { expected: TypeKindLabel::FixedVector, got: self.module.kind_label(lt) });
            },
        };
        if mask.len() > 0xffff_ffffusize {
            return Err(IrError::InvalidOperation { message: "shufflevector mask too large" });
        }
        proof {
            assert(crate::ir::type_refs_below(s0.module.types()[lt.0 as int], lt.0 as int));
        }
        let n = mask.len() as u32;
        let t = self.module.fixed_vector_type(elem, n);
        let ghost mid = self.state().module;
        let folded = self.folder.fold_shuffle_vector_dyn(&self.module, lhs, rhs, mask);
        let ops = vec![lhs, rhs];
        assert(ops@ =~= seq![lhs, rhs]);
        match folded {
            Ok(None) => {
                let ghost s = self.state();
                let b = match self.insert_block { Some(b) => b, None => BlockId(0) };
                let mk = copy_mask(mask);
                let v = self.module.insert_shuffle(b, self.insert_before, t, lhs, rhs, mk, name);
                proof { lemma_outcome_emitted(s, self.state().module, folded, Ok(v), asks_shuffle(old(self).folder_spec(), lhs, rhs, mask@), t, Opcode::ShuffleVector, seq![lhs, rhs], no_flags(), name@); }
                Ok(v)
            },
            _ => {
                let ghost s = self.state();
                let r = self.complete_fold(folded, t, Opcode::ShuffleVector, ops, InstFlags::none(), name);
                proof { lemma_outcome_emitted(s, self.state().module, folded, r, asks_shuffle(old(self).folder_spec(), lhs, rhs, mask@), t, Opcode::ShuffleVector, seq![lhs, rhs], no_flags(), name@); }
                r
            },
        }
    }

    /// `extractelement vec, index` on a value of vector type.
    pub fn vector_extract(&mut self, vec: ValueId, index: ValueId, name: &str) -> (r: IrResult<ValueId>)
        requires
            old(self).wf(),
            old(self).state().block is Some,
        ensures
            final(self).folder_spec() == old(self).folder_spec(),
            checked_emit(old(self).state(), final(self).state(), r, asks_extract_element(old(self).folder_spec(), vec, index),
                if vector_kind_error(old(self).state().module, vec) is Some { vector_kind_error(old(self).state().module, vec) }
                else { extract_element_error(old(self).state().module, vec, index) },
                old(self).state().module.shape_of(vec)->FixedVector_elem, Opcode::ExtractElement, seq![vec, index], no_flags(), name@),
    {
        if let Some(e) = self.check_vector_kind(vec) {
            return Err(e);
        }
        self.extract_element(vec, index, name)
    }

    /// `insertelement vec, element, index` on a value of vector type, with
    /// an element of the type of its lanes.
    pub fn vector_insert(&mut self, vec: ValueId, element: ValueId, index: ValueId, name: &str) -> (r: IrResult<ValueId>)
        requires
            old(self).wf(),
            old(self).state().block is Some,
        ensures
            final(self).folder_spec() == old(self).folder_spec(),
            checked_emit(old(self).state(), final(self).state(), r, asks_insert_element(old(self).folder_spec(), vec, element, index),
                if lane_error(old(self).state().module, vec, element) is Some { lane_error(old(self).state().module, vec, element) }
                else { insert_element_error(old(self).state().module, vec, element, index) },
                old(self).state().module.ty_of(vec), Opcode::InsertElement, seq![vec, element, index], no_flags(), name@),
    {
        if let Some(e) = self.check_vector_kind(vec) {
            return Err(e);
        }
        if vec.0 < self.module.value_count() && element.0 < self.module.value_count() {
            let vt = self.module.value_type(vec);
            let et = self.module.value_type(element);
            let lane = match self.module.type_data(vt) {
                TypeData::FixedVector { elem, .. } => elem,
                _ => et,
            };
            if et != lane {
                proof {
                    assert(crate::ir::type_refs_below(self.state().module.types()[vt.0 as int], vt.0 as int));
                }
                return Err(IrError::TypeMismatch { expected: self.module.kind_label(lane), got: self.module.kind_label(et) });
            }
        }
        self.insert_element(vec, element, index, name)
    }

    /// Why `v` cannot stand where a vector is required, or `None`.
    fn check_vector_kind(&self, v: ValueId) -> (r: Option<IrError>)
        requires
            self.wf(),
        ensures
            r == vector_kind_error(self.state().module, v),
    {
        if v.0 < self.module.value_count() {
            let t = self.module.value_type(v);
            match self.module.type_data(t) {
                TypeData::FixedVector { .. } => None,
                _ => Some(IrError::TypeMismatch { expected: TypeKindLabel::FixedVector, got: self.module.kind_label(t) }),
            }
        } else {
            None
        }
    }

    /// Broadcasts `scalar` to a vector of `count` lanes: `insertelement`
    /// into a `poison` vector at index 0, then a `shufflevector` taking
    /// lane 0 everywhere.
    pub fn vector_splat_dyn(&mut self, count: u32, scalar: ValueId, name: &str) -> (r: IrResult<ValueId>)
        requires
            old(self).wf(),
            old(self).state().block is Some,
        ensures
            final(self).folder_spec() == old(self).folder_spec(),
            splat_emit(old(self).state(), final(self).state(), r, old(self).folder_spec(), splat_error(old(self).state().module, count, scalar),
                count, scalar, name@),
    {
        let ghost s0 = self.state();
        let ghost m0 = s0.module;
        if count == 0 {
            return Err(IrError::InvalidOperation { message: "vector_splat_dyn requires at least one lane" });
        }
        if scalar.0 >= self.module.value_count() {
            return Err(IrError::ForeignValueId);
        }
        let elem = self.module.value_type(scalar);
        proof {
            assert(crate::ir::value_refs_ok(m0.values()[scalar.0 as int], m0.types().len(), m0.values().len(),
                m0.blocks().len(), m0.functions().len()));
        }
        let t = self.module.fixed_vector_type(elem, count);
        let ghost ma = self.state().module;
        let p = self.module.poison(t);
        let ghost mb = self.state().module;
        let i64_ty = self.module.i64_type();
        let ghost mc = self.state().module;
        let z = match self.module.const_int(i64_ty, 0) {
            Ok(z) => z,
            Err(_) => {
                proof { assert(false); }
                return Err(IrError::ForeignValueId);
            },
        };
        let ghost m1 = self.state().module;
        proof {
            assert(m1.types() == mc.types());
            assert(mc.types().take(mb.types().len() as int) == mb.types());
            assert(mc.types()[t.0 as int] == mb.types()[t.0 as int]) by {
                assert(mc.types().take(mb.types().len() as int)[t.0 as int] == mc.types()[t.0 as int]);
            }
            assert(m1.types().take(m0.types().len() as int) =~= m0.types()) by {
                assert forall|j: int| 0 <= j < m0.types().len() implies m1.types()[j] == m0.types()[j] by {
                    assert(mc.types().take(mb.types().len() as int)[j] == mc.types()[j]);
                    assert(ma.types().take(m0.types().len() as int)[j] == ma.types()[j]);
                }
            }
            assert(m1.values().take(m0.values().len() as int) =~= m0.values()) by {
                assert forall|j: int| 0 <= j < m0.values().len() implies m1.values()[j] == m0.values()[j] by {
                    assert(m1.values().take(mc.values().len() as int)[j] == m1.values()[j]);
                    assert(mb.values().take(ma.values().len() as int)[j] == mb.values()[j]);
                }
            }
            assert(m1.values()[p.0 as int] == mb.values()[p.0 as int]) by {
                assert(m1.values().take(mc.values().len() as int)[p.0 as int] == m1.values()[p.0 as int]);
            }
            assert(splat_operands(m0, m1, t, p, z, count, m0.ty_of(scalar)));
        }
        let insert_name = suffixed_name(name, ".splatinsert", "splatinsert");
        assert(self.state() == with_module(s0, m1));
        let ins = self.insert_element(p, scalar, z, insert_name.as_str());
        let ghost s2 = self.state();
        proof {
            assert(insert_element_error(m1, p, scalar, z) is None);
            assert(splat_insert(with_module(s0, m1), s2, ins, old(self).folder_spec(), t, p, scalar, z, name@));
        }
        let iv = match ins {
            Ok(iv) => iv,
            Err(e) => {
                assert(splat_operands(m0, m1, t, p, z, count, m0.ty_of(scalar))
                    && splat_insert(with_module(s0, m1), s2, ins, old(self).folder_spec(), t, p, scalar, z, name@));
                return Err(e);
            },
        };
        let n = count as usize;
        let mut mask: Vec<ShuffleMaskElem> = Vec::new();
        for k in 0..n
            invariant
                mask@ == Seq::new(k as nat, |j: int| ShuffleMaskElem::Lane(0)),
        {
            mask.push(ShuffleMaskElem::Lane(0));
            assert(mask@ =~= Seq::new((k + 1) as nat, |j: int| ShuffleMaskElem::Lane(0)));
        }
        let splat_name = suffixed_name(name, ".splat", "splat");
        proof {
            assert(s2.module.valid_value(iv) && s2.module.ty_of(iv) == t);
            assert(s2.module.valid_value(p) && s2.module.ty_of(p) == t) by {
                assert(s2.module.values().take(m1.values().len() as int)[p.0 as int] == s2.module.values()[p.0 as int]);
            }
            assert(s2.module.types()[t.0 as int] == m1.types()[t.0 as int]);
            assert(shuffle_error(s2.module, iv, p, mask@.len()) is None);
        }
        assert(self.state() == s2);
        let r = self.shuffle_vector(iv, p, &mask, splat_name.as_str());
        proof {
            assert(mask@ == Seq::new(count as nat, |k: int| ShuffleMaskElem::Lane(0)));
            assert(splat_operands(m0, m1, t, p, z, count, m0.ty_of(scalar))
                && splat_insert(with_module(s0, m1), s2, ins, old(self).folder_spec(), t, p, scalar, z, name@));
        }
        r
    }

    /// Broadcasts the integer or floating-point `scalar` to a vector of
    /// `count` lanes, as `vector_splat_dyn` does.
    pub fn vector_splat(&mut self, count: u32, scalar: ValueId, name: &str) -> (r: IrResult<ValueId>)
        requires
            old(self).wf(),
            old(self).state().block is Some,
        ensures
            final(self).folder_spec() == old(self).folder_spec(),
            splat_emit(old(self).state(), final(self).state(), r, old(self).folder_spec(),
                if old(self).state().module.valid_value(scalar) && !(old(self).state().module.shape_of(scalar) is Integer)
                    && !(old(self).state().module.shape_of(scalar) is Float) {
                    Some(IrError::TypeMismatch { expected: TypeKindLabel::Integer, got: kind_label_of(old(self).state().module.shape_of(scalar)) })
                } else {
                    splat_error(old(self).state().module, count, scalar)
                },
                count, scalar, name@),
    {
        if scalar.0 < self.module.value_count() {
            let t = self.module.value_type(scalar);
            let fits = match self.module.type_data(t) {
                TypeData::Integer { .. } | TypeData::Float { .. } => true,
                _ => false,
            };
            if !fits {
                return Err(IrError::TypeMismatch { expected: TypeKindLabel::Integer, got: self.module.kind_label(t) });
            }
        }
        self.vector_splat_dyn(count, scalar, name)
    }

    /// Validates the operands of a typed integer-vector operation.
    fn check_vector_operands(&self, lhs: ValueId, rhs: ValueId) -> (r: Option<IrError>)
        requires
            self.wf(),
        ensures
            r == vector_operand_error(self.state().module, lhs, rhs),
    {
        if lhs.0 >= self.module.value_count() || rhs.0 >= self.module.value_count() {
            return Some(IrError::ForeignValueId);
        }
        let lt = self.module.value_type(lhs);
        match self.module.type_data(lt) {
            TypeData::FixedVector { .. } => None,
            _ => Some(IrError::TypeMismatch { expected: TypeKindLabel::FixedVector, got: self.module.kind_label(lt) }),
        }
    }
}

/// The phis counted by `leading_phis` are phis, at most `cap` of them and
/// at most as many as `insts` holds.
proof fn lemma_leading_phis(m: Module, insts: Seq<ValueId>, cap: nat)
    ensures
        leading_phis(m, insts, cap) <= cap,
        leading_phis(m, insts, cap) <= insts.len(),
        forall|j: int| 0 <= j < leading_phis(m, insts, cap) ==> is_phi(m, #[trigger] insts[j]),
    decreases cap,
{
    if cap == 0 || insts.len() == 0 || !is_phi(m, insts[0]) {
    } else {
        lemma_leading_phis(m, insts.drop_first(), (cap - 1) as nat);
        assert forall|j: int| 0 <= j < leading_phis(m, insts, cap) implies is_phi(m, #[trigger] insts[j]) by {
            if j > 0 {
                assert(insts[j] == insts.drop_first()[j - 1]);
            }
        }
    }
}

/// The parameters of a block are phis of the module.
proof fn lemma_param_phis(m: Module, b: BlockId)
    requires
        m.wf(),
        m.valid_block(b),
    ensures
        block_param_phis(m, b).len() <= m.blocks()[b.0 as int].params,
        forall|k: int| 0 <= k < block_param_phis(m, b).len()
            ==> m.valid_value(#[trigger] block_param_phis(m, b)[k]) && is_phi(m, block_param_phis(m, b)[k]),
{
    let insts = m.blocks()[b.0 as int].insts@;
    lemma_leading_phis(m, insts, m.blocks()[b.0 as int].params as nat);
    assert(crate::ir::block_refs_ok(m.blocks()[b.0 as int], m.values().len(), m.functions().len()));
    assert forall|k: int| 0 <= k < block_param_phis(m, b).len()
        implies m.valid_value(#[trigger] block_param_phis(m, b)[k]) && is_phi(m, block_param_phis(m, b)[k]) by {
        assert(block_param_phis(m, b)[k] == insts[k]);
    }
}

/// The first refused pair among `lo..hi` lies in that range, or is `hi`.
proof fn lemma_seed_stop_bounds(m: Module, phis: Seq<ValueId>, args: Seq<ValueId>, pred: BlockId, lo: nat, hi: nat)
    requires
        lo <= hi,
    ensures
        lo <= seed_stop(m, phis, args, pred, lo, hi) <= hi,
    decreases hi - lo,
{
    if lo < hi && !seed_conflict(m, phis, args, pred, lo) {
        lemma_seed_stop_bounds(m, phis, args, pred, lo + 1, hi);
    }
}

/// When every instruction is a phi and the cap allows, all of them count.
proof fn lemma_all_leading_phis(m: Module, insts: Seq<ValueId>, cap: nat)
    requires
        insts.len() <= cap,
        forall|j: int| 0 <= j < insts.len() ==> is_phi(m, #[trigger] insts[j]),
    ensures
        leading_phis(m, insts, cap) == insts.len(),
    decreases cap,
{
    if insts.len() > 0 {
        assert(is_phi(m, insts[0]));
        assert forall|j: int| 0 <= j < insts.drop_first().len() implies is_phi(m, #[trigger] insts.drop_first()[j]) by {
            assert(insts.drop_first()[j] == insts[j + 1]);
        }
        lemma_all_leading_phis(m, insts.drop_first(), (cap - 1) as nat);
    }
}

/// The parameters of a block appended with parameters are exactly the
/// phis that appending it returned, in order: they are what a branch
/// into it carries arguments to.
pub proof fn law_new_block_params_are_its_phis(old: Module, new: Module, f: FunctionId, name: Seq<char>, tys: Seq<TypeId>,
    names: Seq<Seq<char>>, b: BlockId, vs: Seq<ValueId>)
    requires
        params_block_added(old, new, f, name, tys, names, b, vs),
    ensures
        block_param_phis(new, b) == vs,
{
    let insts = new.blocks()[b.0 as int].insts@;
    assert forall|j: int| 0 <= j < insts.len() implies is_phi(new, #[trigger] insts[j]) by {
        assert(insts[j] == vs[j]);
        assert(inst_shape(new.values()[vs[j].0 as int].kind, Opcode::Phi, Seq::<ValueId>::empty(), Seq::<BlockId>::empty(), b, no_flags()));
    }
    lemma_all_leading_phis(new, insts, new.blocks()[b.0 as int].params as nat);
    assert(insts.take(insts.len() as int) =~= insts);
}

/// A branch that carries no argument is refused exactly as a branch that
/// carries an empty argument list: a target with parameters gives the
/// same arity error.
pub proof fn law_plain_edge_is_empty_args(m: Module, target: BlockId)
    requires
        m.valid_block(target),
    ensures
        plain_edge_error(m, target) == edge_error(m, target, Seq::<ValueId>::empty()),
{
}

/// Adding nothing leaves every phi with its incoming pairs.
proof fn lemma_seeded_none(m: Module, phis: Seq<ValueId>, args: Seq<ValueId>, pred: BlockId)
    requires
        m.wf(),
        forall|k: int| 0 <= k < phis.len() ==> is_phi(m, #[trigger] phis[k]),
    ensures
        seeded_state(m, m, phis, args, pred, 0),
{
    assert(m.uses() =~= m.uses() + Seq::new(0, |j: int| (args[j], phis[j])));
    assert(m.block_uses() =~= m.block_uses() + Seq::new(0, |j: int| (pred, phis[j])));
    assert forall|j: int| 0 <= j < phis.len() implies phi_incoming(m, #[trigger] phis[j]) == Some(seeded(m, phis, args, pred, phis[j], 0)) by {
        assert(is_phi(m, phis[j]));
    }
}

/// Checking call arguments gives the same answer before and after the
/// edges' pairs are added.
proof fn lemma_first_bad_arg_seeded(m: Module, n: Module, phis: Seq<ValueId>, sargs: Seq<ValueId>, pred: BlockId, k: nat,
    params: Seq<TypeId>, args: Seq<ValueId>, i: nat)
    requires
        seeded_state(m, n, phis, sargs, pred, k),
        forall|j: int| 0 <= j < args.len() ==> m.valid_value(#[trigger] args[j]),
    ensures
        first_bad_arg(n, params, args, i) == first_bad_arg(m, params, args, i),
    decreases args.len() - i,
{
    if i < args.len() {
        lemma_seeded_ty(m, n, phis, sargs, pred, k, args[i as int]);
        lemma_first_bad_arg_seeded(m, n, phis, sargs, pred, k, params, args, i + 1);
    }
}

/// A call accepted before the edges' pairs are added is accepted after,
/// with the same return type.
proof fn lemma_call_args_seeded(m: Module, n: Module, phis: Seq<ValueId>, sargs: Seq<ValueId>, pred: BlockId, k: nat,
    f: FunctionId, args: Seq<ValueId>)
    requires
        m.wf(),
        seeded_state(m, n, phis, sargs, pred, k),
        call_args_ok(m, f, args),
    ensures
        call_args_ok(n, f, args),
        return_type(n, f) == return_type(m, f),
{
    let ps = m.functions()[f.0 as int].params@;
    assert(crate::ir::function_refs_ok(m.functions()[f.0 as int], m.types().len(), m.values().len(), m.blocks().len()));
    assert forall|j: int| 0 <= j < ps.len() implies n.ty_of(#[trigger] ps[j]) == m.ty_of(ps[j]) by {
        lemma_seeded_ty(m, n, phis, sargs, pred, k, ps[j]);
    }
    assert(param_types(n, f) =~= param_types(m, f));
    lemma_first_bad_arg_seeded(m, n, phis, sargs, pred, k, param_types(m, f), args, 0);
}

/// Adding incoming pairs keeps the type of every value.
proof fn lemma_seeded_ty(m: Module, n: Module, phis: Seq<ValueId>, args: Seq<ValueId>, pred: BlockId, k: nat, v: ValueId)
    requires
        seeded_state(m, n, phis, args, pred, k),
        v.0 < m.values().len(),
    ensures
        n.values()[v.0 as int].ty == m.values()[v.0 as int].ty,
{
    if phis.contains(v) {
        let j = choose|j: int| 0 <= j < phis.len() && phis[j] == v;
        assert(n.values()[phis[j].0 as int].ty == m.values()[phis[j].0 as int].ty);
    } else {
        assert(n.values()[v.0 as int] == m.values()[v.0 as int]);
    }
}

/// `name` followed by `dotted`, or `bare` when `name` is empty.
fn suffixed_name(name: &str, dotted: &str, bare: &str) -> (r: String)
    ensures
        r@ == suffixed(name@, dotted@, bare@),
{
    if name.is_empty() {
        bare.to_owned()
    } else {
        let mut s = name.to_owned();
        s.append(dotted);
        s
    }
}

/// A copy of the shuffle mask `m`.
fn copy_mask(m: &Vec<ShuffleMaskElem>) -> (r: Vec<ShuffleMaskElem>)
    ensures
        r@ == m@,
{
    let mut r: Vec<ShuffleMaskElem> = Vec::new();
    for i in 0..m.len()
        invariant
            r@ == m@.take(i as int),
    {
        r.push(m[i]);
        assert(r@ =~= m@.take(i + 1));
    }
    assert(r@ =~= m@);
    r
}

/// `a` followed by `b`.
fn concat_ids(a: &Vec<ValueId>, b: &Vec<ValueId>) -> (r: Vec<ValueId>)
    ensures
        r@ == a@ + b@,
{
    let mut r: Vec<ValueId> = Vec::new();
    for i in 0..a.len()
        invariant
            r@ == a@.take(i as int),
    {
        r.push(a[i]);
        assert(r@ =~= a@.take(i + 1));
    }
    assert(r@ =~= a@);
    for i in 0..b.len()
        invariant
            r@ == a@ + b@.take(i as int),
    {
        r.push(b[i]);
        assert(r@ =~= a@ + b@.take(i + 1));
    }
    assert(b@.take(b@.len() as int) =~= b@);
    r
}

impl<F: IRBuilderFolder> IrBuilder<F> {
    /// Whether the value `v` is a phi.
    fn value_is_phi(&self, v: ValueId) -> (r: bool)
        requires
            self.wf(),
            self.state().module.valid_value(v),
        ensures
            r == is_phi(self.state().module, v),
    {
        match &self.module.value(v).kind {
            ValueKind::Instruction { op: Opcode::Phi, .. } => true,
            _ => false,
        }
    }

    /// The parameters of block `b`, in order.
    fn param_phis(&self, b: BlockId) -> (r: Vec<ValueId>)
        requires
            self.wf(),
            self.state().module.valid_block(b),
        ensures
            r@ == block_param_phis(self.state().module, b),
    {
        let ghost m = self.state().module;
        let insts = self.module.block_instructions(b);
        let cap = self.module.block_params(b);
        proof {
            assert(crate::ir::block_refs_ok(m.blocks()[b.0 as int], m.values().len(), m.functions().len()));
        }
        let n = insts.len();
        let mut r: Vec<ValueId> = Vec::new();
        let mut i: usize = 0;
        assert(insts@.skip(0) =~= insts@);
        assert(r@ =~= insts@.take(0));
        while i < cap && i < n
            invariant
                self.wf(),
                self.state().module == m,
                insts@ == m.blocks()[b.0 as int].insts@,
                cap == m.blocks()[b.0 as int].params,
                n == insts@.len(),
                forall|k: int| 0 <= k < insts@.len() ==> m.valid_value(#[trigger] insts@[k]),
                i <= cap,
                i <= n,
                r@ == insts@.take(i as int),
                leading_phis(m, insts@, cap as nat) == i + leading_phis(m, insts@.skip(i as int), (cap - i) as nat),
            ensures
                r@ == insts@.take(i as int),
                leading_phis(m, insts@, cap as nat) == i,
            decreases cap - i,
        {
            let v = insts[i];
            let phi = self.value_is_phi(v);
            proof {
                assert(insts@.skip(i as int)[0] == v);
            }
            if !phi {
                break;
            }
            proof {
                assert(insts@.skip(i as int).drop_first() =~= insts@.skip(i + 1));
            }
            r.push(v);
            i += 1;
            assert(r@ =~= insts@.take(i as int));
        }
        r
    }

    /// Why an edge that carries no argument cannot go to `target`, or `None`.
    fn check_plain_edge(&self, target: BlockId) -> (r: Option<IrError>)
        requires
            self.wf(),
        ensures
            r == plain_edge_error(self.state().module, target),
    {
        if target.0 >= self.module.block_count() {
            return Some(IrError::ForeignValueId);
        }
        let phis = self.param_phis(target);
        if phis.len() != 0 {
            return Some(IrError::PhiArgArityMismatch { expected: phis.len(), got: 0 });
        }
        None
    }

    /// Why `args` cannot feed the parameters `phis`, or `None`.
    fn check_args(&self, phis: &Vec<ValueId>, args: &Vec<ValueId>) -> (r: Option<IrError>)
        requires
            self.wf(),
            phis@.len() == args@.len(),
            forall|k: int| 0 <= k < phis@.len() ==> self.state().module.valid_value(#[trigger] phis@[k]),
        ensures
            r == arg_error(self.state().module, phis@, args@, 0),
            r is None ==> forall|k: int| 0 <= k < args@.len() ==> self.state().module.valid_value(#[trigger] args@[k])
                && self.state().module.ty_of(args@[k]) == self.state().module.ty_of(phis@[k]),
    {
        let ghost m = self.state().module;
        let n = args.len();
        let mut i: usize = 0;
        while i < n
            invariant
                self.wf(),
                self.state().module == m,
                n == args@.len(),
                phis@.len() == n,
                forall|k: int| 0 <= k < phis@.len() ==> m.valid_value(#[trigger] phis@[k]),
                i <= n,
                arg_error(m, phis@, args@, 0) == arg_error(m, phis@, args@, i as nat),
                forall|k: int| 0 <= k < i ==> m.valid_value(#[trigger] args@[k]) && m.ty_of(args@[k]) == m.ty_of(phis@[k]),
            decreases n - i,
        {
            let a = args[i];
            if a.0 >= self.module.value_count() {
                return Some(IrError::ForeignValueId);
            }
            let pt = self.module.value_type(phis[i]);
            let at = self.module.value_type(a);
            if at != pt {
                return Some(IrError::TypeMismatch { expected: self.module.kind_label(pt), got: self.module.kind_label(at) });
            }
            i += 1;
        }
        None
    }

    /// Why the arguments `args` cannot go down an edge whose target has
    /// the parameters `phis`, or `None`.
    fn check_edge(&self, target: BlockId, phis: &Vec<ValueId>, args: &Vec<ValueId>) -> (r: Option<IrError>)
        requires
            self.wf(),
            self.state().module.valid_block(target),
            phis@ == block_param_phis(self.state().module, target),
        ensures
            r == edge_error(self.state().module, target, args@),
            r is None ==> phis@.len() == args@.len(),
            r is None ==> forall|k: int| 0 <= k < args@.len() ==> self.state().module.valid_value(#[trigger] args@[k])
                && self.state().module.ty_of(args@[k]) == self.state().module.ty_of(phis@[k]),
    {
        proof {
            lemma_param_phis(self.state().module, target);
        }
        if phis.len() != args.len() {
            return Some(IrError::PhiArgArityMismatch { expected: phis.len(), got: args.len() });
        }
        self.check_args(phis, args)
    }

    /// Adds the pairs (`args[k]`, `pred`) to the phis `phis[k]` for `k` in
    /// `lo..hi`, in order, stopping at the first refused pair; tells
    /// whether all were added.
    fn seed(&mut self, phis: &Vec<ValueId>, args: &Vec<ValueId>, lo: usize, hi: usize, pred: BlockId,
        Ghost(m0): Ghost<Module>) -> (ok: bool)
        requires
            old(self).wf(),
            m0.valid_block(pred),
            lo <= hi <= phis@.len(),
            hi <= args@.len(),
            forall|k: int| 0 <= k < phis@.len() ==> m0.valid_value(#[trigger] phis@[k]) && is_phi(m0, phis@[k]),
            forall|k: int| lo <= k < hi ==> m0.valid_value(#[trigger] args@[k]) && m0.ty_of(args@[k]) == m0.ty_of(phis@[k]),
            seeded_state(m0, old(self).state().module, phis@, args@, pred, lo as nat),
        ensures
            final(self).folder_spec() == old(self).folder_spec(),
            final(self).wf(),
            same_place(old(self).state(), final(self).state()),
            ok == (seed_stop(m0, phis@, args@, pred, lo as nat, hi as nat) == hi),
            lo <= seed_stop(m0, phis@, args@, pred, lo as nat, hi as nat) <= hi,
            seeded_state(m0, final(self).state().module, phis@, args@, pred, seed_stop(m0, phis@, args@, pred, lo as nat, hi as nat)),
    {
        let ghost s0 = self.state();
        proof {
            lemma_seed_stop_bounds(m0, phis@, args@, pred, lo as nat, hi as nat);
        }
        let mut k: usize = lo;
        while k < hi
            invariant
                self.folder_spec() == old(self).folder_spec(),
                self.wf(),
                s0 == old(self).state(),
                same_place(s0, self.state()),
                m0.valid_block(pred),
                lo <= k <= hi,
                hi <= phis@.len(),
                hi <= args@.len(),
                forall|j: int| 0 <= j < phis@.len() ==> m0.valid_value(#[trigger] phis@[j]) && is_phi(m0, phis@[j]),
                forall|j: int| lo <= j < hi ==> m0.valid_value(#[trigger] args@[j]) && m0.ty_of(args@[j]) == m0.ty_of(phis@[j]),
                seeded_state(m0, self.state().module, phis@, args@, pred, k as nat),
                seed_stop(m0, phis@, args@, pred, lo as nat, hi as nat) == seed_stop(m0, phis@, args@, pred, k as nat, hi as nat),
            decreases hi - k,
        {
            let ghost cur = self.state().module;
            let p = phis[k];
            let a = args[k];
            proof {
                assert(m0.valid_value(phis@[k as int]));
                assert(m0.valid_value(args@[k as int]));
                lemma_seeded_ty(m0, cur, phis@, args@, pred, k as nat, p);
                lemma_seeded_ty(m0, cur, phis@, args@, pred, k as nat, a);
                assert(phi_incoming(cur, phis@[k as int]) == Some(seeded(m0, phis@, args@, pred, phis@[k as int], k as nat)));
                assert(cur.valid_value(p) && cur.valid_value(a) && cur.valid_block(pred));
                assert(cur.values()[p.0 as int].kind is Instruction);
                assert(phi_incoming(cur, p) is Some);
                assert(cur.ty_of(a) == cur.ty_of(p));
                let inc = seeded(m0, phis@, args@, pred, p, k as nat);
                assert(phi_incoming(cur, p).unwrap() == inc);
                if seed_conflict(m0, phis@, args@, pred, k as nat) {
                    let i = choose|i: int| 0 <= i < inc.1.len() && i < inc.0.len() && #[trigger] inc.1[i] == pred && inc.0[i] != a;
                    assert(phi_incoming(cur, p).unwrap().1[i] == pred);
                    assert(phi_incoming_error(cur, p, a, pred) is Some);
                } else {
                    assert(phi_incoming_error(cur, p, a, pred) is None);
                }
            }
            let ghost cs = self.state();
            let r = self.phi_add_incoming_from_value(p, a, pred);
            if let Err(_) = r {
                assert(self.state() == cs);
                return false;
            }
            proof {
                let new = self.state().module;
                let kk = (k + 1) as nat;
                assert(new.uses() =~= m0.uses() + Seq::new(kk, |j: int| (args@[j], phis@[j])));
                assert(new.block_uses() =~= m0.block_uses() + Seq::new(kk, |j: int| (pred, phis@[j])));
                assert forall|v: ValueId| v.0 < m0.values().len() && !phis@.contains(v)
                    implies #[trigger] new.values()[v.0 as int] == m0.values()[v.0 as int] by {
                    assert(v != p);
                    assert(new.values()[v.0 as int] == cur.values()[v.0 as int]);
                }
                assert forall|j: int| 0 <= j < phis@.len() implies {
                    &&& new.values()[(#[trigger] phis@[j]).0 as int].ty == m0.values()[phis@[j].0 as int].ty
                    &&& new.values()[phis@[j].0 as int].name == m0.values()[phis@[j].0 as int].name
                    &&& inst_block(new, phis@[j]) == inst_block(m0, phis@[j])
                    &&& phi_incoming(new, phis@[j]) == Some(seeded(m0, phis@, args@, pred, phis@[j], kk))
                } by {
                    let q = phis@[j];
                    assert(seeded(m0, phis@, args@, pred, q, kk) == (if phis@[k as int] == q {
                        (seeded(m0, phis@, args@, pred, q, k as nat).0.push(args@[k as int]), seeded(m0, phis@, args@, pred, q, k as nat).1.push(pred))
                    } else {
                        seeded(m0, phis@, args@, pred, q, k as nat)
                    }));
                    if q != p {
                        assert(new.values()[q.0 as int] == cur.values()[q.0 as int]);
                    }
                }
            }
            k += 1;
        }
        true
    }

    /// `br label target` carrying `args` to the parameters of `target`:
    /// each argument becomes the incoming value of the matching parameter
    /// from the insertion block, then the block ends. The number of
    /// arguments and their types are checked first.
    pub fn br_with_args(&mut self, target: BlockId, args: &Vec<ValueId>) -> (r: IrResult<(BlockId, ValueId)>)
        requires
            old(self).wf(),
            old(self).state().block is Some,
        ensures
            final(self).folder_spec() == old(self).folder_spec(),
            seeded_branch(old(self).state(), final(self).state(), r,
                if old(self).state().module.valid_block(target) { edge_error(old(self).state().module, target, args@) }
                else { Some(IrError::ForeignValueId) },
                block_param_phis(old(self).state().module, target), args@,
                block_param_phis(old(self).state().module, target).len(), None,
                Opcode::Br, Seq::<ValueId>::empty(), seq![target]),
    {
        let ghost s0 = self.state();
        let ghost m0 = s0.module;
        if target.0 >= self.module.block_count() {
            return Err(IrError::ForeignValueId);
        }
        let phis = self.param_phis(target);
        if let Some(e) = self.check_edge(target, &phis, args) {
            return Err(e);
        }
        let pred = match self.insert_block { Some(b) => b, None => BlockId(0) };
        proof {
            lemma_param_phis(m0, target);
            lemma_seeded_none(m0, phis@, args@, pred);
        }
        if !self.seed(&phis, args, 0, phis.len(), pred, Ghost(m0)) {
            return Err(IrError::AmbiguousPhiIncoming { block: self.module.block_name(pred) });
        }
        let ghost mid = self.state().module;
        let ts = vec![target];
        assert(ts@ =~= seq![target]);
        let r = self.terminate(Opcode::Br, Vec::new(), ts);
        proof {
            assert(self.state().module == self.state().module);
            assert(with_module(s0, mid) == with_module(s0, mid));
            assert(seeded_state(m0, mid, phis@, args@, pred, phis@.len()));
        }
        Ok(r)
    }

    /// `br i1 cond, label then_bb, label else_bb` carrying `then_args` to
    /// the parameters of `then_bb` and `else_args` to those of `else_bb`.
    /// The `then` edge is checked and seeded before the `else` edge is
    /// checked, so a refused `else` edge keeps the `then` pairs.
    pub fn cond_br_with_args(&mut self, cond: ValueId, then_bb: BlockId, then_args: &Vec<ValueId>,
        else_bb: BlockId, else_args: &Vec<ValueId>) -> (r: IrResult<(BlockId, ValueId)>)
        requires
            old(self).wf(),
            old(self).state().block is Some,
        ensures
            final(self).folder_spec() == old(self).folder_spec(),
            seeded_branch(old(self).state(), final(self).state(), r,
                cond_args_error(old(self).state().module, cond, then_bb, then_args@, else_bb),
                block_param_phis(old(self).state().module, then_bb) + block_param_phis(old(self).state().module, else_bb),
                then_args@ + else_args@,
                block_param_phis(old(self).state().module, then_bb).len(),
                edge_error(old(self).state().module, else_bb, else_args@),
                Opcode::CondBr, seq![cond], seq![then_bb, else_bb]),
    {
        let ghost s0 = self.state();
        let ghost m0 = s0.module;
        if then_bb.0 >= self.module.block_count() || else_bb.0 >= self.module.block_count() {
            return Err(IrError::ForeignValueId);
        }
        if let Some(e) = self.check_bool_operand(cond) {
            return Err(e);
        }
        let pt = self.param_phis(then_bb);
        let pe = self.param_phis(else_bb);
        if let Some(e) = self.check_edge(then_bb, &pt, then_args) {
            return Err(e);
        }
        let else_err = self.check_edge(else_bb, &pe, else_args);
        let phis = concat_ids(&pt, &pe);
        let args = concat_ids(then_args, else_args);
        let pred = match self.insert_block { Some(b) => b, None => BlockId(0) };
        proof {
            lemma_param_phis(m0, then_bb);
            lemma_param_phis(m0, else_bb);
            assert forall|k: int| 0 <= k < phis@.len() implies m0.valid_value(#[trigger] phis@[k]) && is_phi(m0, phis@[k]) by {
                if k >= pt@.len() {
                    assert(phis@[k] == pe@[k - pt@.len()]);
                } else {
                    assert(phis@[k] == pt@[k]);
                }
            }
            assert forall|k: int| 0 <= k < pt@.len() implies m0.valid_value(#[trigger] args@[k]) && m0.ty_of(args@[k]) == m0.ty_of(phis@[k]) by {
                assert(args@[k] == then_args@[k]);
                assert(phis@[k] == pt@[k]);
            }
            lemma_seeded_none(m0, phis@, args@, pred);
        }
        if !self.seed(&phis, &args, 0, pt.len(), pred, Ghost(m0)) {
            return Err(IrError::AmbiguousPhiIncoming { block: self.module.block_name(pred) });
        }
        if let Some(e) = else_err {
            return Err(e);
        }
        proof {
            assert forall|k: int| pt@.len() <= k < phis@.len() implies m0.valid_value(#[trigger] args@[k]) && m0.ty_of(args@[k]) == m0.ty_of(phis@[k]) by {
                assert(args@[k] == else_args@[k - pt@.len()]);
                assert(phis@[k] == pe@[k - pt@.len()]);
            }
        }
        if !self.seed(&phis, &args, pt.len(), phis.len(), pred, Ghost(m0)) {
            return Err(IrError::AmbiguousPhiIncoming { block: self.module.block_name(pred) });
        }
        let ghost mid = self.state().module;
        let ops = vec![cond];
        assert(ops@ =~= seq![cond]);
        let ts = vec![then_bb, else_bb];
        assert(ts@ =~= seq![then_bb, else_bb]);
        proof {
            assert(bool_operand_error(m0, cond) is None);
            lemma_seeded_ty(m0, mid, phis@, args@, pred, phis@.len(), cond);
        }
        let r = self.terminate(Opcode::CondBr, ops, ts);
        proof {
            assert(seeded_state(m0, mid, phis@, args@, pred, phis@.len()));
        }
        Ok(r)
    }

    /// Appends a block to `f` whose parameters are one phi per entry of
    /// `params` (its type and name, an empty name for an unnamed phi), in
    /// order; the block gets no terminator and the insertion point does
    /// not move. Returns the block and its parameters.
    pub fn append_block_with_named_params(&mut self, f: FunctionId, params: &Vec<(TypeId, String)>, name: &str)
        -> (r: IrResult<(BlockId, Vec<ValueId>)>)
        requires
            old(self).wf(),
        ensures
            final(self).folder_spec() == old(self).folder_spec(),
            final(self).wf(),
            same_place(old(self).state(), final(self).state()),
            params_block_error(old(self).state().module, f, params@.map_values(|p: (TypeId, String)| p.0)) matches Some(e)
                ==> r == Err::<(BlockId, Vec<ValueId>), IrError>(e) && final(self).state() == old(self).state(),
            params_block_error(old(self).state().module, f, params@.map_values(|p: (TypeId, String)| p.0)) is None
                ==> (r matches Ok(p) && params_block_added(old(self).state().module, final(self).state().module, f, name@,
                    params@.map_values(|p: (TypeId, String)| p.0), params@.map_values(|p: (TypeId, String)| p.1@), p.0, p.1@)),
    {
        let ghost tys = params@.map_values(|p: (TypeId, String)| p.0);
        if f.0 >= self.module.function_count() {
            return Err(IrError::ForeignValueId);
        }
        let n = params.len();
        for k in 0..n
            invariant
                self.wf(),
                n == params@.len(),
                tys == params@.map_values(|p: (TypeId, String)| p.0),
                forall|j: int| 0 <= j < k ==> self.state().module.valid_type(#[trigger] tys[j]),
        {
            if params[k].0.0 >= self.module.type_count() {
                assert(!self.state().module.valid_type(tys[k as int]));
                return Err(IrError::ForeignValueId);
            }
        }
        assert forall|k: int| 0 <= k < params@.len() implies self.state().module.valid_type(#[trigger] params@[k].0) by {
            assert(tys[k] == params@[k].0);
        }
        Ok(self.add_params_block(f, params, name))
    }

    /// Appends a block to `f` whose parameters are one unnamed phi per
    /// entry of `param_types`, in order; the block gets no terminator and
    /// the insertion point does not move. Returns the block and its
    /// parameters.
    pub fn append_block_with_params(&mut self, f: FunctionId, param_types: &Vec<TypeId>, name: &str)
        -> (r: IrResult<(BlockId, Vec<ValueId>)>)
        requires
            old(self).wf(),
        ensures
            final(self).folder_spec() == old(self).folder_spec(),
            final(self).wf(),
            same_place(old(self).state(), final(self).state()),
            params_block_error(old(self).state().module, f, param_types@) matches Some(e)
                ==> r == Err::<(BlockId, Vec<ValueId>), IrError>(e) && final(self).state() == old(self).state(),
            params_block_error(old(self).state().module, f, param_types@) is None
                ==> (r matches Ok(p) && params_block_added(old(self).state().module, final(self).state().module, f, name@,
                    param_types@, Seq::new(param_types@.len(), |k: int| Seq::<char>::empty()), p.0, p.1@)),
    {
        let mut params: Vec<(TypeId, String)> = Vec::new();
        for k in 0..param_types.len()
            invariant
                params@.len() == k,
                forall|j: int| 0 <= j < k ==> (#[trigger] params@[j]).0 == param_types@[j] && params@[j].1@ == Seq::<char>::empty(),
        {
            params.push((param_types[k], String::new()));
        }
        proof {
            assert(params@.map_values(|p: (TypeId, String)| p.0) =~= param_types@);
            assert(params@.map_values(|p: (TypeId, String)| p.1@) =~= Seq::new(param_types@.len(), |k: int| Seq::<char>::empty()));
        }
        self.append_block_with_named_params(f, &params, name)
    }

    /// Appends to `f` a block named `name` holding one phi per entry of
    /// `params`, declared as its parameters.
    fn add_params_block(&mut self, f: FunctionId, params: &Vec<(TypeId, String)>, name: &str) -> (r: (BlockId, Vec<ValueId>))
        requires
            old(self).wf(),
            old(self).state().module.valid_function(f),
            forall|k: int| 0 <= k < params@.len() ==> old(self).state().module.valid_type(#[trigger] params@[k].0),
        ensures
            final(self).folder_spec() == old(self).folder_spec(),
            final(self).wf(),
            same_place(old(self).state(), final(self).state()),
            params_block_added(old(self).state().module, final(self).state().module, f, name@,
                params@.map_values(|p: (TypeId, String)| p.0), params@.map_values(|p: (TypeId, String)| p.1@), r.0, r.1@),
    {
        let ghost s0 = self.state();
        let ghost m0 = s0.module;
        let b = self.module.append_basic_block(f, name);
        let ghost m1 = self.state().module;
        let n = params.len();
        let mut vs: Vec<ValueId> = Vec::new();
        for k in 0..n
            invariant
                self.folder_spec() == old(self).folder_spec(),
                self.wf(),
                same_place(s0, self.state()),
                n == params@.len(),
                forall|j: int| 0 <= j < params@.len() ==> m0.valid_type(#[trigger] params@[j].0),
                b.0 == m0.blocks().len(),
                self.state().module.blocks().len() == m0.blocks().len() + 1,
                self.state().module.blocks().take(m0.blocks().len() as int) == m0.blocks(),
                self.state().module.blocks()[b.0 as int].name@ == name@,
                self.state().module.blocks()[b.0 as int].function == f,
                self.state().module.blocks()[b.0 as int].insts@ == vs@,
                vs@.len() == k,
                self.state().module.values().len() == m0.values().len() + k,
                self.state().module.values().take(m0.values().len() as int) == m0.values(),
                forall|j: int| 0 <= j < k ==> {
                    &&& (#[trigger] vs@[j]).0 == m0.values().len() + j
                    &&& self.state().module.values()[vs@[j].0 as int].ty == params@[j].0
                    &&& self.state().module.values()[vs@[j].0 as int].name@ == local_name(m0, params@[j].0, params@[j].1@)
                    &&& inst_shape(self.state().module.values()[vs@[j].0 as int].kind, Opcode::Phi, Seq::<ValueId>::empty(),
                        Seq::<BlockId>::empty(), b, no_flags())
                },
                self.state().module.types() == m0.types(),
                self.state().module.name_spec() == m0.name_spec(),
                self.state().module.functions() == m1.functions(),
        {
            let ghost cur = self.state().module;
            let ty = params[k].0;
            let v = self.module.insert_instruction(b, None, ty, Opcode::Phi, Vec::new(), Vec::new(), InstFlags::none(),
                params[k].1.as_str());
            vs.push(v);
            proof {
                let new = self.state().module;
                assert forall|j: int| 0 <= j < m0.blocks().len() implies new.blocks()[j] == cur.blocks()[j] by {
                    assert(j != b.0);
                }
                assert(new.blocks().take(m0.blocks().len() as int) =~= m0.blocks()) by {
                    assert forall|j: int| 0 <= j < m0.blocks().len() implies new.blocks()[j] == m0.blocks()[j] by {
                        assert(cur.blocks().take(m0.blocks().len() as int)[j] == cur.blocks()[j]);
                    }
                }
                assert(new.blocks()[b.0 as int].insts@ =~= vs@);
                assert(new.values().take(m0.values().len() as int) =~= m0.values()) by {
                    assert forall|j: int| 0 <= j < m0.values().len() implies new.values()[j] == m0.values()[j] by {
                        assert(new.values().take(cur.values().len() as int)[j] == new.values()[j]);
                        assert(cur.values().take(m0.values().len() as int)[j] == cur.values()[j]);
                    }
                }
                assert forall|j: int| 0 <= j < k + 1 implies {
                    &&& (#[trigger] vs@[j]).0 == m0.values().len() + j
                    &&& new.values()[vs@[j].0 as int].ty == params@[j].0
                    &&& new.values()[vs@[j].0 as int].name@ == local_name(m0, params@[j].0, params@[j].1@)
                    &&& inst_shape(new.values()[vs@[j].0 as int].kind, Opcode::Phi, Seq::<ValueId>::empty(),
                        Seq::<BlockId>::empty(), b, no_flags())
                } by {
                    if j < k {
                        assert(new.values().take(cur.values().len() as int)[vs@[j].0 as int] == new.values()[vs@[j].0 as int]);
                    }
                }
            }
        }
        let ghost m2 = self.state().module;
        self.module.set_block_params(b, n);
        proof {
            let new = self.state().module;
            assert(new.blocks().take(m0.blocks().len() as int) =~= m0.blocks()) by {
                assert forall|j: int| 0 <= j < m0.blocks().len() implies new.blocks()[j] == m0.blocks()[j] by {
                    assert(new.blocks()[j] == m2.blocks()[j]);
                    assert(m2.blocks().take(m0.blocks().len() as int)[j] == m2.blocks()[j]);
                }
            }
            let tys = params@.map_values(|p: (TypeId, String)| p.0);
            let names = params@.map_values(|p: (TypeId, String)| p.1@);
            assert forall|k: int| 0 <= k < tys.len() implies {
                &&& (#[trigger] vs@[k]).0 == m0.values().len() + k
                &&& new.values()[vs@[k].0 as int].ty == tys[k]
                &&& new.values()[vs@[k].0 as int].name@ == local_name(m0, tys[k], names[k])
                &&& inst_shape(new.values()[vs@[k].0 as int].kind, Opcode::Phi, Seq::<ValueId>::empty(), Seq::<BlockId>::empty(), b, no_flags())
            } by {
                assert(vs@[k] == vs@[k]);
            }
        }
        (b, vs)
    }
}

/// The parameters and arguments of the first `i + 1` edges are those of
/// the first `i`, then those of edge `i`.
proof fn lemma_edges_step(m: Module, edges: Seq<(BlockId, Seq<ValueId>)>, i: int)
    requires
        0 <= i < edges.len(),
    ensures
        edges_phis(m, edges.take(i + 1)) == edges_phis(m, edges.take(i)) + block_param_phis(m, edges[i].0),
        edges_args(edges.take(i + 1)) == edges_args(edges.take(i)) + edges[i].1,
{
    assert(edges.take(i + 1).drop_last() =~= edges.take(i));
    assert(edges.take(i + 1).last() == edges[i]);
}

/// The value and target of each case.
fn pairs_of(cases: &Vec<(ValueId, BlockId, Vec<ValueId>)>) -> (r: Vec<(ValueId, BlockId)>)
    ensures
        r@ == case_pairs(cases@),
{
    let mut r: Vec<(ValueId, BlockId)> = Vec::new();
    for k in 0..cases.len()
        invariant
            r@ == case_pairs(cases@.take(k as int)),
    {
        r.push((cases[k].0, cases[k].1));
        assert(r@ =~= case_pairs(cases@.take(k + 1)));
    }
    assert(cases@.take(cases@.len() as int) =~= cases@);
    r
}

/// The operands and successors of a switch.
fn switch_parts(cond: ValueId, default: BlockId, cases: &Vec<(ValueId, BlockId)>) -> (r: (Vec<ValueId>, Vec<BlockId>))
    ensures
        r.0@ == switch_operands(cond, cases@),
        r.1@ == switch_targets(default, cases@),
{
    let mut ops: Vec<ValueId> = vec![cond];
    let mut ts: Vec<BlockId> = vec![default];
    for k in 0..cases.len()
        invariant
            ops@ == switch_operands(cond, cases@.take(k as int)),
            ts@ == switch_targets(default, cases@.take(k as int)),
    {
        ops.push(cases[k].0);
        ts.push(cases[k].1);
        assert(ops@ =~= switch_operands(cond, cases@.take(k + 1)));
        assert(ts@ =~= switch_targets(default, cases@.take(k + 1)));
    }
    assert(cases@.take(cases@.len() as int) =~= cases@);
    (ops, ts)
}

impl<F: IRBuilderFolder> IrBuilder<F> {
    /// Why the cases of a switch on `cond` are refused, or `None`.
    fn check_cases(&self, cond: ValueId, cases: &Vec<(ValueId, BlockId)>) -> (r: Option<IrError>)
        requires
            self.wf(),
            self.state().module.valid_value(cond),
        ensures
            r == case_error(self.state().module, cond, cases@, 0),
            r is None ==> forall|k: int| #![trigger cases@[k]] 0 <= k < cases@.len() ==> self.state().module.valid_value(cases@[k].0)
                && self.state().module.valid_block(cases@[k].1),
    {
        let ghost m = self.state().module;
        let n = cases.len();
        let mut i: usize = 0;
        while i < n
            invariant
                self.wf(),
                self.state().module == m,
                m.valid_value(cond),
                n == cases@.len(),
                i <= n,
                case_error(m, cond, cases@, 0) == case_error(m, cond, cases@, i as nat),
                forall|k: int| #![trigger cases@[k]] 0 <= k < i ==> m.valid_value(cases@[k].0) && m.valid_block(cases@[k].1),
            decreases n - i,
        {
            let v = cases[i].0;
            let t = cases[i].1;
            if v.0 >= self.module.value_count() {
                return Some(IrError::ForeignValueId);
            }
            let vt = self.module.value_type(v);
            let ct = self.module.value_type(cond);
            if vt != ct {
                return Some(IrError::TypeMismatch { expected: self.module.kind_label(ct), got: self.module.kind_label(vt) });
            }
            if let Some(e) = self.check_plain_edge(t) {
                return Some(e);
            }
            i += 1;
        }
        None
    }

    /// Checks and emits a switch whose edges carry no argument.
    fn switch_core(&mut self, cond: ValueId, default: BlockId, cases: &Vec<(ValueId, BlockId)>, typed: bool)
        -> (r: IrResult<(BlockId, ValueId)>)
        requires
            old(self).wf(),
            old(self).state().block is Some,
        ensures
            final(self).folder_spec() == old(self).folder_spec(),
            term_emit(old(self).state(), final(self).state(), r, switch_error(old(self).state().module, cond, default, cases@, typed),
                Opcode::Switch, switch_operands(cond, cases@), switch_targets(default, cases@)),
    {
        if typed {
            if cond.0 >= self.module.value_count() {
                return Err(IrError::ForeignValueId);
            }
            let ct = self.module.value_type(cond);
            match self.module.type_data(ct) {
                TypeData::Integer { .. } => {},
                _ => {
                    return Err(IrError::TypeMismatch { expected: TypeKindLabel::Integer, got: self.module.kind_label(ct) });
                },
            }
        }
        if let Some(e) = self.check_plain_edge(default) {
            return Err(e);
        }
        if cond.0 >= self.module.value_count() {
            return Err(IrError::ForeignValueId);
        }
        if let Some(e) = self.check_cases(cond, cases) {
            return Err(e);
        }
        let (ops, ts) = switch_parts(cond, default, cases);
        proof {
            let m = self.state().module;
            assert forall|k: int| 0 <= k < ops@.len() implies m.valid_value(#[trigger] ops@[k]) by {
                if k > 0 {
                    assert(ops@[k] == cases@[k - 1].0);
                }
            }
            assert forall|k: int| 0 <= k < ts@.len() implies m.valid_block(#[trigger] ts@[k]) by {
                if k > 0 {
                    assert(ts@[k] == cases@[k - 1].1);
                }
            }
        }
        Ok(self.terminate(Opcode::Switch, ops, ts))
    }

    /// `switch cond, label default [value, label target]...` on an integer
    /// `cond`; every case value has the type of `cond` and no target has
    /// parameters. Ends the block. (A switch is void, so `name` names
    /// nothing.)
    pub fn switch(&mut self, cond: ValueId, default: BlockId, cases: &Vec<(ValueId, BlockId)>, name: &str)
        -> (r: IrResult<(BlockId, ValueId)>)
        requires
            old(self).wf(),
            old(self).state().block is Some,
        ensures
            final(self).folder_spec() == old(self).folder_spec(),
            term_emit(old(self).state(), final(self).state(), r, switch_error(old(self).state().module, cond, default, cases@, true),
                Opcode::Switch, switch_operands(cond, cases@), switch_targets(default, cases@)),
    {
        self.switch_core(cond, default, cases, true)
    }

    /// `switch` over a condition of any type; every case value has the
    /// type of `cond` and no target has parameters. Ends the block.
    pub fn switch_dyn(&mut self, cond: ValueId, default: BlockId, cases: &Vec<(ValueId, BlockId)>, name: &str)
        -> (r: IrResult<(BlockId, ValueId)>)
        requires
            old(self).wf(),
            old(self).state().block is Some,
        ensures
            final(self).folder_spec() == old(self).folder_spec(),
            term_emit(old(self).state(), final(self).state(), r, switch_error(old(self).state().module, cond, default, cases@, false),
                Opcode::Switch, switch_operands(cond, cases@), switch_targets(default, cases@)),
    {
        self.switch_core(cond, default, cases, false)
    }

    /// The parameters and arguments of the edges of a switch with
    /// arguments before the first refused edge, one edge after another,
    /// and the error of that edge if there is one.
    fn collect_edges(&self, default: &(BlockId, Vec<ValueId>), cases: &Vec<(ValueId, BlockId, Vec<ValueId>)>)
        -> (r: (Vec<ValueId>, Vec<ValueId>, Option<IrError>))
        requires
            self.wf(),
            self.state().module.valid_block(default.0),
            forall|j: int| 0 <= j < cases@.len() ==> self.state().module.valid_block(#[trigger] cases@[j].1),
        ensures
            first_bad_edge(self.state().module, switch_edges((default.0, default.1@), cases@), 0) <= cases@.len() + 1,
            r.0@ == edges_phis(self.state().module, switch_edges((default.0, default.1@), cases@).take(
                first_bad_edge(self.state().module, switch_edges((default.0, default.1@), cases@), 0) as int)),
            r.1@ == edges_args(switch_edges((default.0, default.1@), cases@).take(
                first_bad_edge(self.state().module, switch_edges((default.0, default.1@), cases@), 0) as int)),
            r.0@.len() == r.1@.len(),
            forall|j: int| 0 <= j < r.0@.len() ==> self.state().module.valid_value(#[trigger] r.0@[j]) && is_phi(self.state().module, r.0@[j])
                && self.state().module.valid_value(r.1@[j]) && self.state().module.ty_of(r.1@[j]) == self.state().module.ty_of(r.0@[j]),
            first_bad_edge(self.state().module, switch_edges((default.0, default.1@), cases@), 0) < cases@.len() + 1 ==> r.2 == edge_error(
                self.state().module,
                switch_edges((default.0, default.1@), cases@)[first_bad_edge(self.state().module, switch_edges((default.0, default.1@), cases@), 0) as int].0,
                switch_edges((default.0, default.1@), cases@)[first_bad_edge(self.state().module, switch_edges((default.0, default.1@), cases@), 0) as int].1),
            first_bad_edge(self.state().module, switch_edges((default.0, default.1@), cases@), 0) == cases@.len() + 1 <==> r.2 is None,
    {
        let ghost m0 = self.state().module;
        let ghost edges = switch_edges((default.0, default.1@), cases@);
        let n = cases.len();
        proof {
            assert(edges.len() == n + 1);
            assert(edges[0] == (default.0, default.1@));
            assert forall|j: int| 0 <= j < n implies #[trigger] edges[j + 1] == (cases@[j].1, cases@[j].2@) by {
                assert(edges[j + 1] == cases@.map_values(|c: (ValueId, BlockId, Vec<ValueId>)| (c.1, c.2@))[j]);
            }
            assert(edges.take(0) =~= Seq::<(BlockId, Seq<ValueId>)>::empty());
            lemma_edges_step(m0, edges, 0);
        }
        let empty: Vec<ValueId> = Vec::new();
        let pt0 = self.param_phis(default.0);
        if let Some(e) = self.check_edge(default.0, &pt0, &default.1) {
            proof {
                assert(first_bad_edge(m0, edges, 0) == 0);
                assert(edges_phis(m0, edges.take(0)) =~= Seq::<ValueId>::empty());
                assert(edges_args(edges.take(0)) =~= Seq::<ValueId>::empty());
            }
            return (Vec::new(), Vec::new(), Some(e));
        }
        let mut phis = concat_ids(&empty, &pt0);
        let mut args = concat_ids(&empty, &default.1);
        proof {
            lemma_param_phis(m0, default.0);
            assert(phis@ == edges_phis(m0, edges.take(1)));
            assert(args@ == edges_args(edges.take(1)));
        }
        let mut bad: Option<IrError> = None;
        let mut k: usize = 0;
        while k < n
            invariant_except_break
                bad is None,
            invariant
                self.wf(),
                self.state().module == m0,
                n == cases@.len(),
                edges == switch_edges((default.0, default.1@), cases@),
                edges.len() == n + 1,
                forall|j: int| 0 <= j < n ==> #[trigger] edges[j + 1] == (cases@[j].1, cases@[j].2@),
                forall|j: int| 0 <= j < n ==> m0.valid_block(#[trigger] cases@[j].1),
                k <= n,
                phis@ == edges_phis(m0, edges.take(k + 1)),
                args@ == edges_args(edges.take(k + 1)),
                phis@.len() == args@.len(),
                forall|j: int| 0 <= j < phis@.len() ==> m0.valid_value(#[trigger] phis@[j]) && is_phi(m0, phis@[j])
                    && m0.valid_value(args@[j]) && m0.ty_of(args@[j]) == m0.ty_of(phis@[j]),
                first_bad_edge(m0, edges, 0) == first_bad_edge(m0, edges, (k + 1) as nat),
            ensures
                bad is Some ==> k < n && first_bad_edge(m0, edges, 0) == k + 1
                    && edge_error(m0, edges[k + 1].0, edges[k + 1].1) == bad,
                bad is None ==> k == n && first_bad_edge(m0, edges, 0) == n + 1,
            decreases n - k,
        {
            let t = cases[k].1;
            let a = &cases[k].2;
            assert(a@ == edges[k + 1].1);
            assert(m0.valid_block(cases@[k as int].1));
            let pt = self.param_phis(t);
            if let Some(e) = self.check_edge(t, &pt, a) {
                bad = Some(e);
                break;
            }
            let ghost old_phis = phis@;
            let ghost old_args = args@;
            phis = concat_ids(&phis, &pt);
            args = concat_ids(&args, a);
            proof {
                lemma_edges_step(m0, edges, k + 1);
                lemma_param_phis(m0, t);
                assert forall|j: int| 0 <= j < phis@.len() implies m0.valid_value(#[trigger] phis@[j]) && is_phi(m0, phis@[j])
                    && m0.valid_value(args@[j]) && m0.ty_of(args@[j]) == m0.ty_of(phis@[j]) by {
                    if j >= old_phis.len() {
                        assert(phis@[j] == pt@[j - old_phis.len()]);
                        assert(args@[j] == a@[j - old_args.len()]);
                    } else {
                        assert(phis@[j] == old_phis[j]);
                        assert(args@[j] == old_args[j]);
                    }
                }
            }
            k += 1;
        }
        (phis, args, bad)
    }

    /// Checks and emits a switch whose edges carry arguments.
    fn switch_args_core(&mut self, cond: ValueId, default: &(BlockId, Vec<ValueId>), cases: &Vec<(ValueId, BlockId, Vec<ValueId>)>,
        typed: bool) -> (r: IrResult<(BlockId, ValueId)>)
        requires
            old(self).wf(),
            old(self).state().block is Some,
        ensures
            final(self).folder_spec() == old(self).folder_spec(),
            edges_branch(old(self).state(), final(self).state(), r,
                switch_args_error(old(self).state().module, cond, default.0, case_pairs(cases@), typed),
                switch_edges((default.0, default.1@), cases@), Opcode::Switch,
                switch_operands(cond, case_pairs(cases@)), switch_targets(default.0, case_pairs(cases@))),
    {
        let ghost s0 = self.state();
        let ghost m0 = s0.module;
        let pairs = pairs_of(cases);
        if let Some(e) = self.check_switch_args(cond, default.0, &pairs, typed) {
            return Err(e);
        }
        proof {
            assert forall|j: int| 0 <= j < cases@.len() implies m0.valid_block(#[trigger] cases@[j].1) by {
                assert(pairs@[j] == case_pairs(cases@)[j]);
            }
        }
        let (phis, args, bad) = self.collect_edges(default, cases);
        let pred = match self.insert_block { Some(b) => b, None => BlockId(0) };
        proof {
            lemma_seeded_none(m0, phis@, args@, pred);
            assert forall|j: int| 0 <= j < phis@.len() implies m0.valid_value(#[trigger] args@[j])
                && m0.ty_of(args@[j]) == m0.ty_of(phis@[j]) by {
                assert(m0.valid_value(phis@[j]));
            }
        }
        if !self.seed(&phis, &args, 0, phis.len(), pred, Ghost(m0)) {
            return Err(IrError::AmbiguousPhiIncoming { block: self.module.block_name(pred) });
        }
        if let Some(e) = bad {
            return Err(e);
        }
        let ghost mid = self.state().module;
        let (ops, ts) = switch_parts(cond, default.0, &pairs);
        proof {
            let edges = switch_edges((default.0, default.1@), cases@);
            assert(edges.take(edges.len() as int) =~= edges);
            assert forall|j: int| 0 <= j < ops@.len() implies mid.valid_value(#[trigger] ops@[j]) by {
                if j > 0 {
                    assert(ops@[j] == pairs@[j - 1].0);
                }
            }
            assert forall|j: int| 0 <= j < ts@.len() implies mid.valid_block(#[trigger] ts@[j]) by {
                if j > 0 {
                    assert(ts@[j] == pairs@[j - 1].1);
                }
            }
        }
        assert(self.state() == with_module(s0, mid));
        let r = self.terminate(Opcode::Switch, ops, ts);
        proof {
            assert(seeded_state(m0, mid, phis@, args@, pred, phis@.len()));
        }
        Ok(r)
    }

    /// Why a switch with arguments is refused before any edge is checked.
    fn check_switch_args(&self, cond: ValueId, default: BlockId, pairs: &Vec<(ValueId, BlockId)>, typed: bool) -> (r: Option<IrError>)
        requires
            self.wf(),
        ensures
            r == switch_args_error(self.state().module, cond, default, pairs@, typed),
            r is None ==> self.state().module.valid_value(cond) && self.state().module.valid_block(default),
            r is None ==> forall|j: int| #![trigger pairs@[j]] 0 <= j < pairs@.len() ==> self.state().module.valid_value(pairs@[j].0)
                && self.state().module.valid_block(pairs@[j].1),
    {
        let ghost m0 = self.state().module;
        let n = pairs.len();
        if cond.0 >= self.module.value_count() {
            return Some(IrError::ForeignValueId);
        }
        let ct = self.module.value_type(cond);
        if typed {
            match self.module.type_data(ct) {
                TypeData::Integer { .. } => {},
                _ => {
                    return Some(IrError::TypeMismatch { expected: TypeKindLabel::Integer, got: self.module.kind_label(ct) });
                },
            }
        }
        for k in 0..n
            invariant
                self.wf(),
                self.state().module == m0,
                n == pairs@.len(),
                forall|j: int| #![trigger pairs@[j]] 0 <= j < k ==> m0.valid_value(pairs@[j].0) && m0.valid_block(pairs@[j].1),
                m0.valid_value(cond),
                typed ==> m0.shape_of(cond) is Integer,
        {
            if pairs[k].0.0 >= self.module.value_count() || pairs[k].1.0 >= self.module.block_count() {
                assert(0 <= k < pairs@.len() && (!m0.valid_value(pairs@[k as int].0) || !m0.valid_block(pairs@[k as int].1)));
                return Some(IrError::ForeignValueId);
            }
        }
        if default.0 >= self.module.block_count() {
            return Some(IrError::ForeignValueId);
        }
        for k in 0..n
            invariant
                self.wf(),
                self.state().module == m0,
                n == pairs@.len(),
                m0.valid_value(cond),
                ct == m0.ty_of(cond),
                forall|j: int| #![trigger pairs@[j]] 0 <= j < n ==> m0.valid_value(pairs@[j].0) && m0.valid_block(pairs@[j].1),
                case_type_error(m0, cond, pairs@, 0) == case_type_error(m0, cond, pairs@, k as nat),
                typed ==> m0.shape_of(cond) is Integer,
                m0.valid_block(default),
        {
            let vt = self.module.value_type(pairs[k].0);
            if vt != ct {
                return Some(IrError::TypeMismatch { expected: self.module.kind_label(ct), got: self.module.kind_label(vt) });
            }
        }
        None
    }

    /// `switch` on an integer `cond` whose default edge and every case edge
    /// carry arguments to the parameters of their targets: `default` is a
    /// target and its arguments, each case a value, a target and its
    /// arguments. Everything is checked to exist and every case value to
    /// have the type of `cond`; then each edge in turn is checked and
    /// seeded as `br_with_args` does; then the block ends.
    pub fn switch_with_args(&mut self, cond: ValueId, default: &(BlockId, Vec<ValueId>), cases: &Vec<(ValueId, BlockId, Vec<ValueId>)>,
        name: &str) -> (r: IrResult<(BlockId, ValueId)>)
        requires
            old(self).wf(),
            old(self).state().block is Some,
        ensures
            final(self).folder_spec() == old(self).folder_spec(),
            edges_branch(old(self).state(), final(self).state(), r,
                switch_args_error(old(self).state().module, cond, default.0, case_pairs(cases@), true),
                switch_edges((default.0, default.1@), cases@), Opcode::Switch,
                switch_operands(cond, case_pairs(cases@)), switch_targets(default.0, case_pairs(cases@))),
    {
        self.switch_args_core(cond, default, cases, true)
    }

    /// `switch_with_args` over a condition of any type.
    pub fn switch_dyn_with_args(&mut self, cond: ValueId, default: &(BlockId, Vec<ValueId>), cases: &Vec<(ValueId, BlockId, Vec<ValueId>)>,
        name: &str) -> (r: IrResult<(BlockId, ValueId)>)
        requires
            old(self).wf(),
            old(self).state().block is Some,
        ensures
            final(self).folder_spec() == old(self).folder_spec(),
            edges_branch(old(self).state(), final(self).state(), r,
                switch_args_error(old(self).state().module, cond, default.0, case_pairs(cases@), false),
                switch_edges((default.0, default.1@), cases@), Opcode::Switch,
                switch_operands(cond, case_pairs(cases@)), switch_targets(default.0, case_pairs(cases@))),
    {
        self.switch_args_core(cond, default, cases, false)
    }
}

/// A copy of the aggregate indices `s`.
fn copy_u32s(s: &Vec<u32>) -> (r: Vec<u32>)
    ensures
        r@ == s@,
{
    let mut r: Vec<u32> = Vec::new();
    for i in 0..s.len()
        invariant
            r@ == s@.take(i as int),
    {
        r.push(s[i]);
        assert(r@ =~= s@.take(i + 1));
    }
    assert(r@ =~= s@);
    r
}

impl<F: IRBuilderFolder> IrBuilder<F> {
    /// The type reached from `t` by the aggregate indices `idx`.
    fn walk_aggregate_exec(&self, t: TypeId, idx: &Vec<u32>) -> (r: Result<TypeId, IrError>)
        requires
            self.wf(),
            self.state().module.valid_type(t),
        ensures
            r == walk_aggregate(self.state().module.types(), self.state().module.structs(), t, idx@, 0),
            r is Ok ==> self.state().module.valid_type(r->Ok_0),
    {
        let ghost m = self.state().module;
        let mut cur = t;
        let mut i: usize = 0;
        while i < idx.len()
            invariant
                self.wf(),
                self.state().module == m,
                m.valid_type(cur),
                i <= idx@.len(),
                walk_aggregate(m.types(), m.structs(), t, idx@, 0) == walk_aggregate(m.types(), m.structs(), cur, idx@, i as nat),
            decreases idx@.len() - i,
        {
            match self.module.type_data(cur) {
                TypeData::Array { elem, n } => {
                    if (idx[i] as u64) >= n {
                        return Err(IrError::AggregateIndexOutOfRange { index: idx[i], count: n });
                    }
                    proof {
                        assert(crate::ir::type_refs_below(m.types()[cur.0 as int], cur.0 as int));
                    }
                    cur = elem;
                },
                TypeData::Struct { body } => {
                    proof {
                        assert(crate::ir::struct_refs_ok(m.types()[cur.0 as int], cur.0 as int, m.structs()));
                    }
                    match self.module.struct_fields(body) {
                        Some(fs) => {
                            if (idx[i] as usize) >= fs.len() {
                                return Err(IrError::AggregateIndexOutOfRange { index: idx[i], count: fs.len() as u64 });
                            }
                            cur = fs[idx[i] as usize];
                        },
                        None => {
                            return Err(IrError::TypeMismatch { expected: TypeKindLabel::Struct, got: self.module.kind_label(cur) });
                        },
                    }
                },
                _ => {
                    return Err(IrError::TypeMismatch { expected: TypeKindLabel::Struct, got: self.module.kind_label(cur) });
                },
            }
            i += 1;
        }
        Ok(cur)
    }

    /// `extractvalue aggregate, indices...`: the member of the aggregate
    /// the indices reach, through arrays.
    pub fn extract_value_dyn(&mut self, aggregate: ValueId, indices: &Vec<u32>, name: &str) -> (r: IrResult<ValueId>)
        requires
            old(self).wf(),
            old(self).state().block is Some,
        ensures
            final(self).folder_spec() == old(self).folder_spec(),
            indexed_emit(old(self).state(), final(self).state(), r, asks_extract_value(old(self).folder_spec(), aggregate, indices@), extract_value_error(old(self).state().module, aggregate, indices@),
                walk_aggregate(old(self).state().module.types(), old(self).state().module.structs(), old(self).state().module.ty_of(aggregate), indices@, 0)->Ok_0,
                Opcode::ExtractValue, seq![aggregate], indices@, name@),
    {
        if aggregate.0 >= self.module.value_count() {
            return Err(IrError::ForeignValueId);
        }
        if indices.len() == 0 {
            return Err(IrError::InvalidOperation { message: "extractvalue indices must not be empty" });
        }
        let at = self.module.value_type(aggregate);
        let leaf = match self.walk_aggregate_exec(at, indices) {
            Ok(t) => t,
            Err(e) => {
                return Err(e);
            },
        };
        let folded = self.folder.fold_extract_value_dyn(&self.module, aggregate, indices);
        let ops = vec![aggregate];
        assert(ops@ =~= seq![aggregate]);
        match folded {
            Ok(None) => {
                let ghost s = self.state();
                let b = match self.insert_block { Some(b) => b, None => BlockId(0) };
                let ix = copy_u32s(indices);
                let v = self.module.insert_indexed(b, self.insert_before, leaf, Opcode::ExtractValue, ops, ix, name);
                proof { lemma_outcome_emitted(s, self.state().module, folded, Ok(v), asks_extract_value(old(self).folder_spec(), aggregate, indices@), leaf, Opcode::ExtractValue, seq![aggregate], no_flags(), name@); }
                Ok(v)
            },
            _ => {
                let ghost s = self.state();
                let r = self.complete_fold(folded, leaf, Opcode::ExtractValue, ops, InstFlags::none(), name);
                proof { lemma_outcome_emitted(s, self.state().module, folded, r, asks_extract_value(old(self).folder_spec(), aggregate, indices@), leaf, Opcode::ExtractValue, seq![aggregate], no_flags(), name@); }
                r
            },
        }
    }

    /// `extractvalue` with at least one index.
    pub fn extract_value(&mut self, aggregate: ValueId, indices: &Vec<u32>, name: &str) -> (r: IrResult<ValueId>)
        requires
            old(self).wf(),
            old(self).state().block is Some,
            indices@.len() > 0,
        ensures
            final(self).folder_spec() == old(self).folder_spec(),
            indexed_emit(old(self).state(), final(self).state(), r, asks_extract_value(old(self).folder_spec(), aggregate, indices@), extract_value_error(old(self).state().module, aggregate, indices@),
                walk_aggregate(old(self).state().module.types(), old(self).state().module.structs(), old(self).state().module.ty_of(aggregate), indices@, 0)->Ok_0,
                Opcode::ExtractValue, seq![aggregate], indices@, name@),
    {
        self.extract_value_dyn(aggregate, indices, name)
    }

    /// `insertvalue aggregate, value, indices...`: the aggregate with the
    /// member the indices reach replaced by `value`, of that member's type.
    pub fn insert_value_dyn(&mut self, aggregate: ValueId, value: ValueId, indices: &Vec<u32>, name: &str) -> (r: IrResult<ValueId>)
        requires
            old(self).wf(),
            old(self).state().block is Some,
        ensures
            final(self).folder_spec() == old(self).folder_spec(),
            indexed_emit(old(self).state(), final(self).state(), r, asks_insert_value(old(self).folder_spec(), aggregate, value, indices@), insert_value_error(old(self).state().module, aggregate, value, indices@),
                old(self).state().module.ty_of(aggregate), Opcode::InsertValue, seq![aggregate, value], indices@, name@),
    {
        if aggregate.0 >= self.module.value_count() || value.0 >= self.module.value_count() {
            return Err(IrError::ForeignValueId);
        }
        if indices.len() == 0 {
            return Err(IrError::InvalidOperation { message: "insertvalue indices must not be empty" });
        }
        let at = self.module.value_type(aggregate);
        let leaf = match self.walk_aggregate_exec(at, indices) {
            Ok(t) => t,
            Err(e) => {
                return Err(e);
            },
        };
        let vt = self.module.value_type(value);
        if vt != leaf {
            return Err(IrError::TypeMismatch { expected: self.module.kind_label(leaf), got: self.module.kind_label(vt) });
        }
        let folded = self.folder.fold_insert_value_dyn(&self.module, aggregate, value, indices);
        let ops = vec![aggregate, value];
        assert(ops@ =~= seq![aggregate, value]);
        match folded {
            Ok(None) => {
                let ghost s = self.state();
                let b = match self.insert_block { Some(b) => b, None => BlockId(0) };
                let ix = copy_u32s(indices);
                let v = self.module.insert_indexed(b, self.insert_before, at, Opcode::InsertValue, ops, ix, name);
                proof { lemma_outcome_emitted(s, self.state().module, folded, Ok(v), asks_insert_value(old(self).folder_spec(), aggregate, value, indices@), at, Opcode::InsertValue, seq![aggregate, value], no_flags(), name@); }
                Ok(v)
            },
            _ => {
                let ghost s = self.state();
                let r = self.complete_fold(folded, at, Opcode::InsertValue, ops, InstFlags::none(), name);
                proof { lemma_outcome_emitted(s, self.state().module, folded, r, asks_insert_value(old(self).folder_spec(), aggregate, value, indices@), at, Opcode::InsertValue, seq![aggregate, value], no_flags(), name@); }
                r
            },
        }
    }

    /// `insertvalue` with at least one index.
    pub fn insert_value(&mut self, aggregate: ValueId, value: ValueId, indices: &Vec<u32>, name: &str) -> (r: IrResult<ValueId>)
        requires
            old(self).wf(),
            old(self).state().block is Some,
            indices@.len() > 0,
        ensures
            final(self).folder_spec() == old(self).folder_spec(),
            indexed_emit(old(self).state(), final(self).state(), r, asks_insert_value(old(self).folder_spec(), aggregate, value, indices@), insert_value_error(old(self).state().module, aggregate, value, indices@),
                old(self).state().module.ty_of(aggregate), Opcode::InsertValue, seq![aggregate, value], indices@, name@),
    {
        self.insert_value_dyn(aggregate, value, indices, name)
    }

    /// Why `v` cannot stand where an array is required, or `None`.
    fn check_array_kind(&self, v: ValueId) -> (r: Option<IrError>)
        requires
            self.wf(),
        ensures
            r == array_kind_error(self.state().module, v),
    {
        if v.0 < self.module.value_count() {
            let t = self.module.value_type(v);
            match self.module.type_data(t) {
                TypeData::Array { .. } => None,
                _ => Some(IrError::TypeMismatch { expected: TypeKindLabel::Array, got: self.module.kind_label(t) }),
            }
        } else {
            None
        }
    }

    /// `extractvalue array, index` on a value of array type.
    pub fn array_extract(&mut self, array: ValueId, index: u32, name: &str) -> (r: IrResult<ValueId>)
        requires
            old(self).wf(),
            old(self).state().block is Some,
        ensures
            final(self).folder_spec() == old(self).folder_spec(),
            indexed_emit(old(self).state(), final(self).state(), r, asks_extract_value(old(self).folder_spec(), array, seq![index]),
                if array_kind_error(old(self).state().module, array) is Some { array_kind_error(old(self).state().module, array) }
                else { extract_value_error(old(self).state().module, array, seq![index]) },
                walk_aggregate(old(self).state().module.types(), old(self).state().module.structs(), old(self).state().module.ty_of(array), seq![index], 0)->Ok_0,
                Opcode::ExtractValue, seq![array], seq![index], name@),
    {
        if let Some(e) = self.check_array_kind(array) {
            return Err(e);
        }
        let ix = vec![index];
        assert(ix@ =~= seq![index]);
        self.extract_value_dyn(array, &ix, name)
    }

    /// `insertvalue array, element, index` on a value of array type, with
    /// an element of the type of its elements.
    pub fn array_insert(&mut self, array: ValueId, element: ValueId, index: u32, name: &str) -> (r: IrResult<ValueId>)
        requires
            old(self).wf(),
            old(self).state().block is Some,
        ensures
            final(self).folder_spec() == old(self).folder_spec(),
            indexed_emit(old(self).state(), final(self).state(), r, asks_insert_value(old(self).folder_spec(), array, element, seq![index]),
                if array_element_error(old(self).state().module, array, element) is Some {
                    array_element_error(old(self).state().module, array, element)
                } else {
                    insert_value_error(old(self).state().module, array, element, seq![index])
                },
                old(self).state().module.ty_of(array), Opcode::InsertValue, seq![array, element], seq![index], name@),
    {
        if let Some(e) = self.check_array_kind(array) {
            return Err(e);
        }
        if array.0 < self.module.value_count() && element.0 < self.module.value_count() {
            let at = self.module.value_type(array);
            let et = self.module.value_type(element);
            let elem = match self.module.type_data(at) {
                TypeData::Array { elem, .. } => elem,
                _ => et,
            };
            if et != elem {
                proof {
                    assert(crate::ir::type_refs_below(self.state().module.types()[at.0 as int], at.0 as int));
                }
                return Err(IrError::TypeMismatch { expected: self.module.kind_label(elem), got: self.module.kind_label(et) });
            }
        }
        let ix = vec![index];
        assert(ix@ =~= seq![index]);
        self.insert_value_dyn(array, element, &ix, name)
    }

    /// The first index that is not an integer, as an error.
    fn check_gep_indices(&self, indices: &Vec<ValueId>) -> (r: Option<IrError>)
        requires
            self.wf(),
        ensures
            r == gep_index_error(self.state().module, indices@, 0),
            r is None ==> forall|k: int| 0 <= k < indices@.len() ==> self.state().module.valid_value(#[trigger] indices@[k]),
    {
        let ghost m = self.state().module;
        let n = indices.len();
        let mut i: usize = 0;
        while i < n
            invariant
                self.wf(),
                self.state().module == m,
                n == indices@.len(),
                i <= n,
                gep_index_error(m, indices@, 0) == gep_index_error(m, indices@, i as nat),
                forall|k: int| 0 <= k < i ==> m.valid_value(#[trigger] indices@[k]),
            decreases n - i,
        {
            if let Some(e) = self.check_int_operand(indices[i]) {
                return Some(e);
            }
            i += 1;
        }
        None
    }

    /// The type a `getelementptr` over `source` with `count` indices
    /// points to.
    fn gep_indexed_exec(&self, source: TypeId, indices: &Vec<ValueId>) -> (r: Option<TypeId>)
        requires
            self.wf(),
            self.state().module.valid_type(source),
            forall|k: int| 0 <= k < indices@.len() ==> self.state().module.valid_value(#[trigger] indices@[k]),
        ensures
            r == gep_indexed(self.state().module, source, indices@, 1),
    {
        let ghost m = self.state().module;
        let mut cur = source;
        let mut i: usize = 1;
        while i < indices.len()
            invariant
                self.wf(),
                self.state().module == m,
                m.valid_type(cur),
                1 <= i,
                forall|k: int| 0 <= k < indices@.len() ==> m.valid_value(#[trigger] indices@[k]),
                gep_indexed(m, source, indices@, 1) == gep_indexed(m, cur, indices@, i as nat),
            decreases indices@.len() - i,
        {
            proof {
                assert(crate::ir::type_refs_below(m.types()[cur.0 as int], cur.0 as int));
                assert(crate::ir::struct_refs_ok(m.types()[cur.0 as int], cur.0 as int, m.structs()));
            }
            match self.module.type_data(cur) {
                TypeData::Array { elem, .. } => {
                    cur = elem;
                },
                TypeData::FixedVector { elem, .. } => {
                    cur = elem;
                },
                TypeData::Struct { body } => {
                    let fs = match self.module.struct_fields(body) {
                        Some(fs) => fs,
                        None => { return None; },
                    };
                    let nf = fs.len();
                    proof {
                        assert(nf as int <= u64::MAX) by {
                            assert(usize::MAX as int <= u64::MAX);
                        }
                    }
                    let k = match &self.module.value(indices[i]).kind {
                        ValueKind::ConstInt { value } => {
                            if value.bit_width() != 32 {
                                return None;
                            }
                            match value.try_zext_u64() {
                                Some(x) => x,
                                None => { return None; },
                            }
                        },
                        _ => { return None; },
                    };
                    if k >= nf as u64 {
                        return None;
                    }
                    cur = fs[k as usize];
                },
                _ => {
                    return None;
                },
            }
            i += 1;
        }
        Some(cur)
    }

    /// `getelementptr source_ty, ptr, indices...` with the no-wrap flags
    /// `flags`: a pointer in the address space of `ptr`. Every index is an
    /// integer; the indices after the first go into arrays, vectors, or the
    /// field of a struct that an `i32` constant names.
    pub fn gep_with_flags(&mut self, source_ty: TypeId, ptr: ValueId, indices: &Vec<ValueId>, flags: GepNoWrapFlags, name: &str)
        -> (r: IrResult<ValueId>)
        requires
            old(self).wf(),
            old(self).state().block is Some,
        ensures
            final(self).folder_spec() == old(self).folder_spec(),
            gep_emit(old(self).state(), final(self).state(), r, old(self).folder_spec(), gep_error(old(self).state().module, source_ty, ptr, indices@),
                source_ty, ptr, indices@, flags, name@),
    {
        let ghost s0 = self.state();
        if source_ty.0 >= self.module.type_count() {
            return Err(IrError::ForeignValueId);
        }
        if let Some(e) = self.check_pointer_operand(ptr) {
            return Err(e);
        }
        if let Some(e) = self.check_gep_indices(indices) {
            return Err(e);
        }
        if self.gep_indexed_exec(source_ty, indices).is_none() {
            return Err(IrError::GepInvalidIndices);
        }
        let pt = self.module.value_type(ptr);
        let addr = match self.module.type_data(pt) {
            TypeData::Pointer { addr_space } => addr_space,
            _ => 0,
        };
        let t = self.module.ptr_type(addr);
        let ghost mid = self.state().module;
        let folded = self.folder.fold_gep_dyn(&self.module, source_ty, ptr, indices, flags);
        let head = vec![ptr];
        let ops = concat_ids(&head, indices);
        proof {
            assert(head@ =~= seq![ptr]);
            assert forall|k: int| 0 <= k < ops@.len() implies mid.valid_value(#[trigger] ops@[k]) by {
                if k > 0 {
                    assert(ops@[k] == indices@[k - 1]);
                }
            }
        }
        let ghost s = self.state();
        let r = self.complete_fold(folded, t, Opcode::GetElementPtr { source: source_ty, flags }, ops, InstFlags::none(), name);
        proof {
            lemma_outcome_emitted(s, self.state().module, folded, r, asks_gep(old(self).folder_spec(), source_ty, ptr, indices@, flags), t, Opcode::GetElementPtr { source: source_ty, flags },
                seq![ptr] + indices@, no_flags(), name@);
            assert(s == with_module(s0, mid));
        }
        r
    }

    /// `getelementptr source_ty, ptr, indices...` without flags.
    pub fn gep(&mut self, source_ty: TypeId, ptr: ValueId, indices: &Vec<ValueId>, name: &str) -> (r: IrResult<ValueId>)
        requires
            old(self).wf(),
            old(self).state().block is Some,
        ensures
            final(self).folder_spec() == old(self).folder_spec(),
            gep_emit(old(self).state(), final(self).state(), r, old(self).folder_spec(), gep_error(old(self).state().module, source_ty, ptr, indices@),
                source_ty, ptr, indices@, GepNoWrapFlags { inbounds: false, nusw: false, nuw: false }, name@),
    {
        self.gep_with_flags(source_ty, ptr, indices, GepNoWrapFlags::empty(), name)
    }

    /// `getelementptr inbounds source_ty, ptr, indices...`.
    pub fn inbounds_gep(&mut self, source_ty: TypeId, ptr: ValueId, indices: &Vec<ValueId>, name: &str) -> (r: IrResult<ValueId>)
        requires
            old(self).wf(),
            old(self).state().block is Some,
        ensures
            final(self).folder_spec() == old(self).folder_spec(),
            gep_emit(old(self).state(), final(self).state(), r, old(self).folder_spec(), gep_error(old(self).state().module, source_ty, ptr, indices@),
                source_ty, ptr, indices@, GepNoWrapFlags { inbounds: true, nusw: true, nuw: false }, name@),
    {
        self.gep_with_flags(source_ty, ptr, indices, GepNoWrapFlags::inbounds(), name)
    }

    /// `getelementptr elem_ty, ptr, index`: steps `index` elements of
    /// type `elem_ty` from `ptr`.
    pub fn element_gep(&mut self, elem_ty: TypeId, ptr: ValueId, index: ValueId, name: &str) -> (r: IrResult<ValueId>)
        requires
            old(self).wf(),
            old(self).state().block is Some,
        ensures
            final(self).folder_spec() == old(self).folder_spec(),
            gep_emit(old(self).state(), final(self).state(), r, old(self).folder_spec(), gep_error(old(self).state().module, elem_ty, ptr, seq![index]),
                elem_ty, ptr, seq![index], GepNoWrapFlags { inbounds: false, nusw: false, nuw: false }, name@),
    {
        let ix = vec![index];
        assert(ix@ =~= seq![index]);
        self.gep_with_flags(elem_ty, ptr, &ix, GepNoWrapFlags::empty(), name)
    }

    /// `getelementptr inbounds elem_ty, ptr, index`.
    pub fn inbounds_element_gep(&mut self, elem_ty: TypeId, ptr: ValueId, index: ValueId, name: &str) -> (r: IrResult<ValueId>)
        requires
            old(self).wf(),
            old(self).state().block is Some,
        ensures
            final(self).folder_spec() == old(self).folder_spec(),
            gep_emit(old(self).state(), final(self).state(), r, old(self).folder_spec(), gep_error(old(self).state().module, elem_ty, ptr, seq![index]),
                elem_ty, ptr, seq![index], GepNoWrapFlags { inbounds: true, nusw: true, nuw: false }, name@),
    {
        let ix = vec![index];
        assert(ix@ =~= seq![index]);
        self.gep_with_flags(elem_ty, ptr, &ix, GepNoWrapFlags::inbounds(), name)
    }

    /// `getelementptr i8, ptr, offset`: `ptr` moved by `offset` bytes.
    pub fn ptr_add(&mut self, ptr: ValueId, offset: ValueId, name: &str) -> (r: IrResult<ValueId>)
        requires
            old(self).wf(),
            old(self).state().block is Some,
        ensures
            final(self).folder_spec() == old(self).folder_spec(),
            ptr_add_emit(old(self).state(), final(self).state(), r, old(self).folder_spec(), ptr, offset,
                GepNoWrapFlags { inbounds: false, nusw: false, nuw: false }, name@),
    {
        let ghost s0 = self.state();
        let t8 = self.module.i8_type();
        let ghost mid = self.state().module;
        let ix = vec![offset];
        assert(ix@ =~= seq![offset]);
        assert(self.state() == with_module(s0, mid));
        let r = self.gep_with_flags(t8, ptr, &ix, GepNoWrapFlags::empty(), name);
        assert(mid.types()[t8.0 as int] == (TypeData::Integer { bits: 8 }));
        r
    }

    /// `getelementptr inbounds i8, ptr, offset`.
    pub fn inbounds_ptr_add(&mut self, ptr: ValueId, offset: ValueId, name: &str) -> (r: IrResult<ValueId>)
        requires
            old(self).wf(),
            old(self).state().block is Some,
        ensures
            final(self).folder_spec() == old(self).folder_spec(),
            ptr_add_emit(old(self).state(), final(self).state(), r, old(self).folder_spec(), ptr, offset,
                GepNoWrapFlags { inbounds: true, nusw: true, nuw: false }, name@),
    {
        let ghost s0 = self.state();
        let t8 = self.module.i8_type();
        let ghost mid = self.state().module;
        let ix = vec![offset];
        assert(ix@ =~= seq![offset]);
        assert(self.state() == with_module(s0, mid));
        let r = self.gep_with_flags(t8, ptr, &ix, GepNoWrapFlags::inbounds(), name);
        assert(mid.types()[t8.0 as int] == (TypeData::Integer { bits: 8 }));
        r
    }
}

impl<F: IRBuilderFolder> IrBuilder<F> {
    /// Checks the arguments of a call of `callee`.
    fn check_call_args(&self, callee: FunctionId, args: &Vec<ValueId>) -> (r: Result<(), IrError>)
        requires
            self.wf(),
        ensures
            r is Ok <==> call_args_ok(self.state().module, callee, args@),
            r is Err ==> call_args_refusal(self.state().module, callee, args@, r->Err_0),
    {
        let ghost m = self.state().module;
        if callee.0 >= self.module.function_count() {
            return Err(IrError::ForeignValueId);
        }
        let n = args.len();
        for k in 0..n
            invariant
                self.wf(),
                self.state().module == m,
                n == args@.len(),
                m.valid_function(callee),
                forall|j: int| 0 <= j < k ==> m.valid_value(#[trigger] args@[j]),
        {
            if args[k].0 >= self.module.value_count() {
                assert(0 <= k < args@.len() && !m.valid_value(args@[k as int]));
                return Err(IrError::ForeignValueId);
            }
        }
        let params = self.module.function_params(callee);
        proof {
            assert(crate::ir::function_refs_ok(m.functions()[callee.0 as int], m.types().len(), m.values().len(), m.blocks().len()));
            assert(param_types(m, callee).len() == params@.len());
        }
        let var_arg = self.module.function_var_arg(callee);
        if (var_arg && args.len() < params.len()) || (!var_arg && args.len() != params.len()) {
            return Err(IrError::CallArgumentCountMismatch { expected: params.len() as u32, got: args.len() as u32 });
        }
        let np = params.len();
        let mut i: usize = 0;
        while i < np
            invariant
                self.wf(),
                self.state().module == m,
                n == args@.len(),
                np == params@.len(),
                np <= n,
                param_types(m, callee).len() == np,
                arity_ok(m, callee, n as nat),
                params@ == m.functions()[callee.0 as int].params@,
                m.valid_function(callee),
                forall|j: int| 0 <= j < n ==> m.valid_value(#[trigger] args@[j]),
                forall|j: int| 0 <= j < params@.len() ==> m.valid_value(#[trigger] params@[j]),
                i <= np,
                first_bad_arg(m, param_types(m, callee), args@, 0) == first_bad_arg(m, param_types(m, callee), args@, i as nat),
            decreases np - i,
        {
            let pt = self.module.value_type(params[i]);
            let at = self.module.value_type(args[i]);
            assert(param_types(m, callee)[i as int] == m.ty_of(params@[i as int]));
            if at != pt {
                let expected = type_string(&self.module, pt);
                let got = type_string(&self.module, at);
                return Err(IrError::CallArgumentTypeMismatch { index: i as u32, expected, got });
            }
            i += 1;
        }
        Ok(())
    }

    /// Inserts the call-like instruction `op args targets` of the callee's
    /// return type at the insertion point.
    fn insert_call(&mut self, callee: FunctionId, op: Opcode, args: &Vec<ValueId>, targets: Vec<BlockId>, name: &str) -> (v: ValueId)
        requires
            old(self).wf(),
            old(self).state().block is Some,
            call_args_ok(old(self).state().module, callee, args@),
            forall|k: int| 0 <= k < targets@.len() ==> old(self).state().module.valid_block(#[trigger] targets@[k]),
        ensures
            final(self).folder_spec() == old(self).folder_spec(),
            final(self).wf(),
            same_place(old(self).state(), final(self).state()),
            inst_added(old(self).state().module, final(self).state().module, v, old(self).state().block.unwrap(),
                old(self).state().before, return_type(old(self).state().module, callee), op, args@, targets@, no_flags(),
                result_name(old(self).state().module, return_type(old(self).state().module, callee), name@)),
    {
        let ghost m = self.state().module;
        let ret = self.module.function_return_type(callee);
        let is_void = match self.module.type_data(ret) {
            TypeData::Void => true,
            _ => false,
        };
        let nm: &str = if is_void { "" } else { name };
        proof {
            reveal_strlit("");
            assert(nm@ == result_name(m, ret, name@));
        }
        let empty: Vec<ValueId> = Vec::new();
        let ops = concat_ids(&empty, args);
        assert(ops@ =~= args@);
        let b = match self.insert_block { Some(b) => b, None => BlockId(0) };
        self.module.insert_instruction(b, self.insert_before, ret, op, ops, targets, InstFlags::none(), nm)
    }

    /// `call callee(args...)`: one argument of the parameter's type per
    /// parameter; the result has the callee's return type (a `void` call
    /// has no name).
    pub fn call_dyn(&mut self, callee: FunctionId, args: &Vec<ValueId>, name: &str) -> (r: IrResult<ValueId>)
        requires
            old(self).wf(),
            old(self).state().block is Some,
        ensures
            final(self).folder_spec() == old(self).folder_spec(),
            call_emit(old(self).state(), final(self).state(), r, callee, args@, name@),
    {
        if let Err(e) = self.check_call_args(callee, args) {
            return Err(e);
        }
        Ok(self.insert_call(callee, Opcode::Call { callee }, args, Vec::new(), name))
    }

    /// `call callee(args...)`, as `call_dyn`.
    pub fn call(&mut self, callee: FunctionId, args: &Vec<ValueId>, name: &str) -> (r: IrResult<ValueId>)
        requires
            old(self).wf(),
            old(self).state().block is Some,
        ensures
            final(self).folder_spec() == old(self).folder_spec(),
            call_emit(old(self).state(), final(self).state(), r, callee, args@, name@),
    {
        self.call_dyn(callee, args, name)
    }

    /// `invoke callee(args...) to label normal unwind label unwind`: a call
    /// that ends the block; neither destination may have parameters.
    pub fn invoke_dyn(&mut self, callee: FunctionId, args: &Vec<ValueId>, normal: BlockId, unwind: BlockId, name: &str)
        -> (r: IrResult<(BlockId, ValueId)>)
        requires
            old(self).wf(),
            old(self).state().block is Some,
        ensures
            final(self).folder_spec() == old(self).folder_spec(),
            call_term_emit(old(self).state(), final(self).state(), r,
                if plain_edge_error(old(self).state().module, normal) is Some { plain_edge_error(old(self).state().module, normal) }
                else { plain_edge_error(old(self).state().module, unwind) },
                callee, args@, None, Opcode::Invoke { callee }, seq![normal, unwind], name@),
    {
        if let Some(e) = self.check_plain_edge(normal) {
            return Err(e);
        }
        if let Some(e) = self.check_plain_edge(unwind) {
            return Err(e);
        }
        if let Err(e) = self.check_call_args(callee, args) {
            return Err(e);
        }
        let ts = vec![normal, unwind];
        assert(ts@ =~= seq![normal, unwind]);
        let b = match self.insert_block { Some(b) => b, None => BlockId(0) };
        let v = self.insert_call(callee, Opcode::Invoke { callee }, args, ts, name);
        self.insert_block = None;
        self.insert_before = None;
        Ok((b, v))
    }

    /// `invoke`, as `invoke_dyn`.
    pub fn invoke(&mut self, callee: FunctionId, args: &Vec<ValueId>, normal: BlockId, unwind: BlockId, name: &str)
        -> (r: IrResult<(BlockId, ValueId)>)
        requires
            old(self).wf(),
            old(self).state().block is Some,
        ensures
            final(self).folder_spec() == old(self).folder_spec(),
            call_term_emit(old(self).state(), final(self).state(), r,
                if plain_edge_error(old(self).state().module, normal) is Some { plain_edge_error(old(self).state().module, normal) }
                else { plain_edge_error(old(self).state().module, unwind) },
                callee, args@, None, Opcode::Invoke { callee }, seq![normal, unwind], name@),
    {
        self.invoke_dyn(callee, args, normal, unwind, name)
    }

    /// `invoke callee(args...) to label normal unwind label unwind`, each
    /// edge carrying block arguments into its destination's parameters;
    /// the call is checked before either edge is seeded.
    pub fn invoke_dyn_with_args(&mut self, callee: FunctionId, args: &Vec<ValueId>, normal: BlockId, normal_args: &Vec<ValueId>,
        unwind: BlockId, unwind_args: &Vec<ValueId>, name: &str) -> (r: IrResult<(BlockId, ValueId)>)
        requires
            old(self).wf(),
            old(self).state().block is Some,
        ensures
            final(self).folder_spec() == old(self).folder_spec(),
            seeded_invoke(old(self).state(), final(self).state(), r, callee, args@, normal, normal_args@, unwind, unwind_args@, name@),
    {
        let ghost s0 = self.state();
        let ghost m0 = s0.module;
        if normal.0 >= self.module.block_count() || unwind.0 >= self.module.block_count() {
            return Err(IrError::ForeignValueId);
        }
        if let Err(e) = self.check_call_args(callee, args) {
            return Err(e);
        }
        let pn = self.param_phis(normal);
        let pu = self.param_phis(unwind);
        if let Some(e) = self.check_edge(normal, &pn, normal_args) {
            return Err(e);
        }
        let unwind_err = self.check_edge(unwind, &pu, unwind_args);
        let phis = concat_ids(&pn, &pu);
        let eargs = concat_ids(normal_args, unwind_args);
        let pred = match self.insert_block { Some(b) => b, None => BlockId(0) };
        proof {
            lemma_param_phis(m0, normal);
            lemma_param_phis(m0, unwind);
            assert forall|k: int| 0 <= k < phis@.len() implies m0.valid_value(#[trigger] phis@[k]) && is_phi(m0, phis@[k]) by {
                if k >= pn@.len() {
                    assert(phis@[k] == pu@[k - pn@.len()]);
                } else {
                    assert(phis@[k] == pn@[k]);
                }
            }
            assert forall|k: int| 0 <= k < pn@.len() implies m0.valid_value(#[trigger] eargs@[k]) && m0.ty_of(eargs@[k]) == m0.ty_of(phis@[k]) by {
                assert(eargs@[k] == normal_args@[k]);
                assert(phis@[k] == pn@[k]);
            }
            lemma_seeded_none(m0, phis@, eargs@, pred);
        }
        if !self.seed(&phis, &eargs, 0, pn.len(), pred, Ghost(m0)) {
            return Err(IrError::AmbiguousPhiIncoming { block: self.module.block_name(pred) });
        }
        if let Some(e) = unwind_err {
            return Err(e);
        }
        proof {
            assert forall|k: int| pn@.len() <= k < phis@.len() implies m0.valid_value(#[trigger] eargs@[k]) && m0.ty_of(eargs@[k]) == m0.ty_of(phis@[k]) by {
                assert(eargs@[k] == unwind_args@[k - pn@.len()]);
                assert(phis@[k] == pu@[k - pn@.len()]);
            }
        }
        if !self.seed(&phis, &eargs, pn.len(), phis.len(), pred, Ghost(m0)) {
            return Err(IrError::AmbiguousPhiIncoming { block: self.module.block_name(pred) });
        }
        let ghost mid = self.state().module;
        proof {
            lemma_call_args_seeded(m0, mid, phis@, eargs@, pred, phis@.len() as nat, callee, args@);
        }
        let ts = vec![normal, unwind];
        assert(ts@ =~= seq![normal, unwind]);
        let v = self.insert_call(callee, Opcode::Invoke { callee }, args, ts, name);
        self.insert_block = None;
        self.insert_before = None;
        proof {
            assert(seeded_state(m0, mid, phis@, eargs@, pred, phis@.len() as nat));
        }
        Ok((pred, v))
    }

    /// `invoke` with block arguments on both edges, as `invoke_dyn_with_args`.
    pub fn invoke_with_args(&mut self, callee: FunctionId, args: &Vec<ValueId>, normal: BlockId, normal_args: &Vec<ValueId>,
        unwind: BlockId, unwind_args: &Vec<ValueId>, name: &str) -> (r: IrResult<(BlockId, ValueId)>)
        requires
            old(self).wf(),
            old(self).state().block is Some,
        ensures
            final(self).folder_spec() == old(self).folder_spec(),
            seeded_invoke(old(self).state(), final(self).state(), r, callee, args@, normal, normal_args@, unwind, unwind_args@, name@),
    {
        self.invoke_dyn_with_args(callee, args, normal, normal_args, unwind, unwind_args, name)
    }

    /// `callbr callee(args...) to label default [label indirect...]`: a
    /// call that ends the block; no destination may have parameters.
    pub fn callbr(&mut self, callee: FunctionId, args: &Vec<ValueId>, default: BlockId, indirect: &Vec<BlockId>, name: &str)
        -> (r: IrResult<(BlockId, ValueId)>)
        requires
            old(self).wf(),
            old(self).state().block is Some,
        ensures
            final(self).folder_spec() == old(self).folder_spec(),
            call_term_emit(old(self).state(), final(self).state(), r, plain_edge_error(old(self).state().module, default),
                callee, args@, dests_error(old(self).state().module, indirect@, 0), Opcode::CallBr { callee },
                seq![default] + indirect@, name@),
    {
        let ghost s0 = self.state();
        let ghost m = self.state().module;
        if let Some(e) = self.check_plain_edge(default) {
            return Err(e);
        }
        if let Err(e) = self.check_call_args(callee, args) {
            return Err(e);
        }
        let n = indirect.len();
        let mut i: usize = 0;
        while i < n
            invariant
                self.wf(),
                self.state() == s0,
                s0 == old(self).state(),
                s0.module == m,
                plain_edge_error(m, default) is None,
                call_args_ok(m, callee, args@),
                n == indirect@.len(),
                i <= n,
                dests_error(m, indirect@, 0) == dests_error(m, indirect@, i as nat),
                forall|j: int| 0 <= j < i ==> m.valid_block(#[trigger] indirect@[j]),
            decreases n - i,
        {
            if let Some(e) = self.check_plain_edge(indirect[i]) {
                return Err(e);
            }
            i += 1;
        }
        let head = vec![default];
        let mut ts: Vec<BlockId> = head;
        for k in 0..n
            invariant
                n == indirect@.len(),
                ts@ == seq![default] + indirect@.take(k as int),
        {
            ts.push(indirect[k]);
            assert(ts@ =~= seq![default] + indirect@.take(k + 1));
        }
        assert(indirect@.take(n as int) =~= indirect@);
        proof {
            assert forall|k: int| 0 <= k < ts@.len() implies m.valid_block(#[trigger] ts@[k]) by {
                if k > 0 {
                    assert(ts@[k] == indirect@[k - 1]);
                }
            }
        }
        let b = match self.insert_block { Some(b) => b, None => BlockId(0) };
        let v = self.insert_call(callee, Opcode::CallBr { callee }, args, ts, name);
        self.insert_block = None;
        self.insert_before = None;
        Ok((b, v))
    }
}

} // verus!
