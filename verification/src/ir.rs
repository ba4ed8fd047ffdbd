//! In-memory IR: types, values, basic blocks and functions of a module.
//!
//! Every entity lives in an arena of the [`Module`] and is named by an
//! index newtype ([`TypeId`], [`ValueId`], [`BlockId`], [`FunctionId`]).
//! Types are uniqued: asking twice for the same type gives the same id.

use vstd::prelude::*;
use crate::ap_int::ApInt;
use crate::error::{IrError, IrResult, TypeKindLabel};
use crate::fp_class::{DenormalMode, DenormalModeKind};

verus! {

/// Smallest integer width.
pub const MIN_INT_BITS: u32 = 1;

/// Largest integer width.
pub const MAX_INT_BITS: u32 = 8388608;

/// Names a type of a module.
#[derive(Debug, Clone, Copy, PartialEq, Eq, Structural)]
pub struct TypeId(pub usize);

/// Names a value (constant, argument or instruction) of a module.
#[derive(Debug, Clone, Copy, PartialEq, Eq, Structural)]
pub struct ValueId(pub usize);

/// Names a basic block of a module.
#[derive(Debug, Clone, Copy, PartialEq, Eq, Structural)]
pub struct BlockId(pub usize);

/// Names a function of a module.
#[derive(Debug, Clone, Copy, PartialEq, Eq, Structural)]
pub struct FunctionId(pub usize);

/// IEEE and target floating-point formats.
#[derive(Debug, Clone, Copy, PartialEq, Eq, Structural)]
pub enum FloatKind {
    Half,
    BFloat,
    Float,
    Double,
    X86Fp80,
    Fp128,
    PpcFp128,
}

/// Shape of a type.
#[derive(Debug, Clone, Copy, PartialEq, Eq, Structural)]
pub enum TypeData {
    Void,
    Label,
    Token,
    Integer { bits: u32 },
    Float { kind: FloatKind },
    Pointer { addr_space: u32 },
    FixedVector { elem: TypeId, n: u32 },
    Array { elem: TypeId, n: u64 },
    Struct { body: usize },
}

/// Integer binary operators and their floating-point counterparts.
#[derive(Debug, Clone, Copy, PartialEq, Eq, Structural)]
pub enum BinaryOpcode {
    Add,
    Sub,
    Mul,
    UDiv,
    SDiv,
    URem,
    SRem,
    Shl,
    LShr,
    AShr,
    And,
    Or,
    Xor,
    FAdd,
    FSub,
    FMul,
    FDiv,
    FRem,
}

/// Unary operators.
#[derive(Debug, Clone, Copy, PartialEq, Eq, Structural)]
pub enum UnaryOpcode {
    FNeg,
}

/// Conversion operators.
#[derive(Debug, Clone, Copy, PartialEq, Eq, Structural)]
pub enum CastOpcode {
    Trunc,
    ZExt,
    SExt,
    FPTrunc,
    FPExt,
    FPToUI,
    FPToSI,
    UIToFP,
    SIToFP,
    PtrToInt,
    PtrToAddr,
    IntToPtr,
    BitCast,
    AddrSpaceCast,
}

/// Integer comparison predicates.
#[derive(Debug, Clone, Copy, PartialEq, Eq, Structural)]
pub enum IntPredicate {
    Eq,
    Ne,
    Ugt,
    Uge,
    Ult,
    Ule,
    Sgt,
    Sge,
    Slt,
    Sle,
}

/// Floating-point comparison predicates.
#[derive(Debug, Clone, Copy, PartialEq, Eq, Structural)]
pub enum FloatPredicate {
    False,
    Oeq,
    Ogt,
    Oge,
    Olt,
    Ole,
    One,
    Ord,
    Uno,
    Ueq,
    Ugt,
    Uge,
    Ult,
    Ule,
    Une,
    True,
}

/// Fast-math flags, one bit per flag.
#[derive(Debug, Clone, Copy, PartialEq, Eq, Structural)]
pub struct FastMathFlags {
    pub bits: u8,
}

impl FastMathFlags {
    /// No flag set.
    pub fn empty() -> (r: FastMathFlags)
        ensures
            r.bits == 0,
    {
        FastMathFlags { bits: 0 }
    }

    /// Every flag set.
    pub fn fast() -> (r: FastMathFlags)
        ensures
            r.bits == 0x7f,
    {
        FastMathFlags { bits: 0x7f }
    }
}

/// Flags carried by an instruction.
#[derive(Debug, Clone, Copy, PartialEq, Eq, Structural)]
pub struct InstFlags {
    pub nuw: bool,
    pub nsw: bool,
    pub exact: bool,
    pub disjoint: bool,
    pub nneg: bool,
    pub samesign: bool,
    pub fmf: FastMathFlags,
}

impl InstFlags {
    /// No flag set.
    pub fn none() -> (r: InstFlags)
        ensures
            r == no_flags(),
    {
        InstFlags { nuw: false, nsw: false, exact: false, disjoint: false, nneg: false, samesign: false, fmf: FastMathFlags { bits: 0 } }
    }
}

/// The flag set with nothing set.
pub open spec fn no_flags() -> InstFlags {
    InstFlags { nuw: false, nsw: false, exact: false, disjoint: false, nneg: false, samesign: false, fmf: FastMathFlags { bits: 0 } }
}

/// One lane of a `shufflevector` mask: a lane of the two operands taken as
/// one vector, or poison.
#[derive(Debug, Clone, Copy, PartialEq, Eq, Structural)]
pub enum ShuffleMaskElem {
    Lane(u32),
    Poison,
}

/// The no-wrap flags of a `getelementptr`.
#[derive(Debug, Clone, Copy, PartialEq, Eq, Structural)]
pub struct GepNoWrapFlags {
    pub inbounds: bool,
    pub nusw: bool,
    pub nuw: bool,
}

impl GepNoWrapFlags {
    /// No flag.
    pub fn empty() -> (r: GepNoWrapFlags)
        ensures
            r == (GepNoWrapFlags { inbounds: false, nusw: false, nuw: false }),
    {
        GepNoWrapFlags { inbounds: false, nusw: false, nuw: false }
    }

    /// `inbounds`, which implies `nusw`.
    pub fn inbounds() -> (r: GepNoWrapFlags)
        ensures
            r == (GepNoWrapFlags { inbounds: true, nusw: true, nuw: false }),
    {
        GepNoWrapFlags { inbounds: true, nusw: true, nuw: false }
    }
}

/// Operation performed by an instruction.
#[derive(Debug, Clone, Copy, PartialEq, Eq, Structural)]
pub enum Opcode {
    Binary(BinaryOpcode),
    Unary(UnaryOpcode),
    Cast(CastOpcode),
    ICmp(IntPredicate),
    FCmp(FloatPredicate),
    Select,
    Freeze,
    VaArg,
    LandingPad { cleanup: bool },
    Resume,
    IndirectBr,
    CleanupPad { within: bool },
    CatchPad,
    CatchRet,
    CleanupRet,
    CatchSwitch { within: bool },
    ExtractElement,
    InsertElement,
    ShuffleVector,
    ExtractValue,
    InsertValue,
    GetElementPtr { source: TypeId, flags: GepNoWrapFlags },
    Call { callee: FunctionId },
    Invoke { callee: FunctionId },
    CallBr { callee: FunctionId },
    Phi,
    Alloca { allocated: TypeId },
    Load,
    Store,
    Br,
    CondBr,
    Switch,
    Ret,
    Unreachable,
}

/// True for the opcodes that end a basic block.
pub open spec fn is_terminator_op(op: Opcode) -> bool {
    match op {
        Opcode::Br | Opcode::CondBr | Opcode::Switch | Opcode::Invoke { .. } | Opcode::CallBr { .. } | Opcode::Ret
            | Opcode::Unreachable | Opcode::Resume | Opcode::IndirectBr | Opcode::CatchRet | Opcode::CleanupRet
            | Opcode::CatchSwitch { .. } => true,
        _ => false,
    }
}

/// What a value is.
pub enum ValueKind {
    ConstInt { value: ApInt },
    ConstFloat { bits: u64 },
    ConstNull,
    Undef,
    Poison,
    Argument { function: FunctionId, index: u32 },
    Instruction { op: Opcode, operands: Vec<ValueId>, targets: Vec<BlockId>, block: BlockId, flags: InstFlags,
        mask: Vec<ShuffleMaskElem>, indices: Vec<u32> },
}

/// A value with its type and local name.
pub struct ValueData {
    pub ty: TypeId,
    pub kind: ValueKind,
    pub name: String,
}

/// A basic block: its name, parent function, instructions in order and
/// number of parameters (its leading phis that branches into it seed).
pub struct BlockData {
    pub name: String,
    pub function: FunctionId,
    pub insts: Vec<ValueId>,
    pub params: usize,
}

/// A function: name, return type, parameter values, blocks in order, and
/// whether calls may pass arguments past its parameters (`var_arg`), the
/// intrinsic it is when it is one, and
/// how it treats denormals: `denormal_mode` for every format, unless
/// `denormal_mode_f32` is set for single precision.
pub struct FunctionData {
    pub name: String,
    pub ret: TypeId,
    pub params: Vec<ValueId>,
    pub blocks: Vec<BlockId>,
    pub var_arg: bool,
    pub denormal_mode: DenormalMode,
    pub denormal_mode_f32: Option<DenormalMode>,
    pub intrinsic: Option<Intrinsic>,
}

/// The intrinsic functions whose meaning the analyses know.
#[derive(Debug, Clone, Copy, PartialEq, Eq, Structural)]
pub enum Intrinsic {
    Fma,
    FmulAdd,
    VectorReduceFmax,
    VectorReduceFmin,
    VectorReduceFmaximum,
    VectorReduceFminimum,
    Fabs,
    Copysign,
    Sqrt,
    MinNum,
    MaxNum,
    Minimum,
    Maximum,
    MinimumNum,
    MaximumNum,
    Canonicalize,
    Trunc,
    Floor,
    Ceil,
    Rint,
    NearbyInt,
    Round,
    RoundEven,
    Exp,
    Exp2,
    Exp10,
    Log,
    Log2,
    Log10,
    IsFpclass,
}

/// A named struct type: its name and its field types, or no fields at all
/// for an opaque struct whose body is not known.
pub struct StructBody {
    pub name: String,
    pub fields: Option<Vec<TypeId>>,
}

/// A module: the arenas of every type, struct body, value, block and
/// function, and its uses: each (used value, user) pair and each (used
/// block, user) pair, in the order they were made.
pub struct Module {
    name: String,
    types: Vec<TypeData>,
    structs: Vec<StructBody>,
    values: Vec<ValueData>,
    blocks: Vec<BlockData>,
    functions: Vec<FunctionData>,
    uses: Vec<(ValueId, ValueId)>,
    block_uses: Vec<(BlockId, ValueId)>,
}

/// The struct type at index `t` has a body among `structs`, whose fields
/// come before it.
pub open spec fn struct_refs_ok(t: TypeData, bound: int, structs: Seq<StructBody>) -> bool {
    match t {
        TypeData::Struct { body } => body < structs.len() && match structs[body as int].fields {
            Some(fs) => forall|k: int| 0 <= k < fs@.len() ==> (#[trigger] fs@[k]).0 < bound,
            None => true,
        },
        _ => true,
    }
}

/// How a function `fd` treats denormals of the format `kind`.
pub open spec fn denormal_mode_for(fd: FunctionData, kind: FloatKind) -> DenormalMode {
    match (kind, fd.denormal_mode_f32) {
        (FloatKind::Float, Some(md)) => md,
        _ => fd.denormal_mode,
    }
}

/// The types a type refers to come before it.
pub open spec fn type_refs_below(t: TypeData, bound: int) -> bool {
    match t {
        TypeData::FixedVector { elem, .. } => elem.0 < bound,
        TypeData::Array { elem, .. } => elem.0 < bound,
        _ => true,
    }
}

/// The ids a value refers to are in range.
pub open spec fn value_refs_ok(v: ValueData, nt: nat, nv: nat, nb: nat, nf: nat) -> bool {
    &&& v.ty.0 < nt
    &&& match v.kind {
        ValueKind::Argument { function, .. } => function.0 < nf,
        ValueKind::Instruction { operands, targets, block, .. } => {
            &&& block.0 < nb
            &&& forall|k: int| 0 <= k < operands@.len() ==> (#[trigger] operands@[k]).0 < nv
            &&& forall|k: int| 0 <= k < targets@.len() ==> (#[trigger] targets@[k]).0 < nb
        },
        _ => true,
    }
}

/// The ids a block refers to are in range.
pub open spec fn block_refs_ok(b: BlockData, nv: nat, nf: nat) -> bool {
    &&& b.function.0 < nf
    &&& forall|k: int| 0 <= k < b.insts@.len() ==> (#[trigger] b.insts@[k]).0 < nv
}

/// The ids a function refers to are in range.
pub open spec fn function_refs_ok(f: FunctionData, nt: nat, nv: nat, nb: nat) -> bool {
    &&& f.ret.0 < nt
    &&& forall|k: int| 0 <= k < f.params@.len() ==> (#[trigger] f.params@[k]).0 < nv
    &&& forall|k: int| 0 <= k < f.blocks@.len() ==> (#[trigger] f.blocks@[k]).0 < nb
}

/// Coarse kind of a type shape.
pub open spec fn kind_label_of(t: TypeData) -> TypeKindLabel {
    match t {
        TypeData::Void => TypeKindLabel::Void,
        TypeData::Label => TypeKindLabel::Label,
        TypeData::Token => TypeKindLabel::Token,
        TypeData::Integer { .. } => TypeKindLabel::Integer,
        TypeData::Float { kind } => match kind {
            FloatKind::Half => TypeKindLabel::Half,
            FloatKind::BFloat => TypeKindLabel::BFloat,
            FloatKind::Float => TypeKindLabel::Float,
            FloatKind::Double => TypeKindLabel::Double,
            FloatKind::X86Fp80 => TypeKindLabel::X86Fp80,
            FloatKind::Fp128 => TypeKindLabel::Fp128,
            FloatKind::PpcFp128 => TypeKindLabel::PpcFp128,
        },
        TypeData::Pointer { .. } => TypeKindLabel::Pointer,
        TypeData::FixedVector { .. } => TypeKindLabel::FixedVector,
        TypeData::Array { .. } => TypeKindLabel::Array,
        TypeData::Struct { .. } => TypeKindLabel::Struct,
    }
}

/// The error for a value of type `got` where `expected` was required, or
/// success when they are the same type.
pub open spec fn match_result(types: Seq<TypeData>, expected: TypeId, got: TypeId) -> IrResult<()> {
    if expected == got {
        Ok(())
    } else {
        Err(type_mismatch(types, expected, got))
    }
}

/// The error for a value of type `got` where the different type `expected`
/// was required: the two widths when both are integers, else the two kinds.
pub open spec fn type_mismatch(types: Seq<TypeData>, expected: TypeId, got: TypeId) -> IrError {
    match (types[expected.0 as int], types[got.0 as int]) {
        (TypeData::Integer { bits: a }, TypeData::Integer { bits: b }) =>
            IrError::OperandWidthMismatch { lhs: a, rhs: b },
        (te, tg) => IrError::TypeMismatch { expected: kind_label_of(te), got: kind_label_of(tg) },
    }
}

/// `ty` is an integer or a vector of integers.
pub open spec fn is_int_or_int_vector(types: Seq<TypeData>, ty: TypeId) -> bool {
    match types[ty.0 as int] {
        TypeData::Integer { .. } => true,
        TypeData::FixedVector { elem, .. } => types[elem.0 as int] is Integer,
        _ => false,
    }
}

/// `ty` is a floating-point type or a vector of them.
pub open spec fn is_fp_or_fp_vector(types: Seq<TypeData>, ty: TypeId) -> bool {
    match types[ty.0 as int] {
        TypeData::Float { .. } => true,
        TypeData::FixedVector { elem, .. } => types[elem.0 as int] is Float,
        _ => false,
    }
}

/// The last instruction of the block ends it.
pub open spec fn block_is_terminated(values: Seq<ValueData>, b: BlockData) -> bool {
    b.insts@.len() > 0 && match values[b.insts@.last().0 as int].kind {
        ValueKind::Instruction { op, .. } => is_terminator_op(op),
        _ => false,
    }
}

impl Module {
    /// Types in id order.
    pub closed spec fn types(&self) -> Seq<TypeData> {
        self.types@
    }

    /// Struct bodies in id order.
    pub closed spec fn structs(&self) -> Seq<StructBody> {
        self.structs@
    }

    /// Every (used value, user) pair, oldest first.
    pub closed spec fn uses(&self) -> Seq<(ValueId, ValueId)> {
        self.uses@
    }

    /// Every (used block, user) pair, oldest first.
    pub closed spec fn block_uses(&self) -> Seq<(BlockId, ValueId)> {
        self.block_uses@
    }

    /// Values in id order.
    pub closed spec fn values(&self) -> Seq<ValueData> {
        self.values@
    }

    /// Blocks in id order.
    pub closed spec fn blocks(&self) -> Seq<BlockData> {
        self.blocks@
    }

    /// Functions in id order.
    pub closed spec fn functions(&self) -> Seq<FunctionData> {
        self.functions@
    }

    /// Module name.
    pub closed spec fn name_spec(&self) -> Seq<char> {
        self.name@
    }

    /// Every id stored in the module is in range, and types only refer to
    /// earlier types.
    pub open spec fn wf(&self) -> bool {
        &&& forall|t: int| 0 <= t < self.types().len() ==> type_refs_below(#[trigger] self.types()[t], t)
        &&& forall|t: int| 0 <= t < self.types().len() ==> struct_refs_ok(#[trigger] self.types()[t], t, self.structs())
        &&& forall|v: int| 0 <= v < self.values().len() ==> value_refs_ok(#[trigger] self.values()[v],
            self.types().len(), self.values().len(), self.blocks().len(), self.functions().len())
        &&& forall|b: int| 0 <= b < self.blocks().len() ==> block_refs_ok(#[trigger] self.blocks()[b],
            self.values().len(), self.functions().len())
        &&& forall|f: int| 0 <= f < self.functions().len() ==> function_refs_ok(#[trigger] self.functions()[f],
            self.types().len(), self.values().len(), self.blocks().len())
    }

    /// `t` names a type of this module.
    pub open spec fn valid_type(&self, t: TypeId) -> bool {
        t.0 < self.types().len()
    }

    /// `v` names a value of this module.
    pub open spec fn valid_value(&self, v: ValueId) -> bool {
        v.0 < self.values().len()
    }

    /// `b` names a block of this module.
    pub open spec fn valid_block(&self, b: BlockId) -> bool {
        b.0 < self.blocks().len()
    }

    /// `f` names a function of this module.
    pub open spec fn valid_function(&self, f: FunctionId) -> bool {
        f.0 < self.functions().len()
    }

    /// Type of value `v`.
    pub open spec fn ty_of(&self, v: ValueId) -> TypeId {
        self.values()[v.0 as int].ty
    }

    /// Shape of the type of value `v`.
    pub open spec fn shape_of(&self, v: ValueId) -> TypeData {
        self.types()[self.ty_of(v).0 as int]
    }

    /// An empty module named `name`.
    pub fn new(name: &str) -> (m: Module)
        ensures
            m.wf(),
            m.name_spec() == name@,
            m.types().len() == 0,
            m.values().len() == 0,
            m.blocks().len() == 0,
            m.functions().len() == 0,
    {
        Module { name: name.to_owned(), types: Vec::new(), structs: Vec::new(), values: Vec::new(), blocks: Vec::new(),
            functions: Vec::new(), uses: Vec::new(), block_uses: Vec::new() }
    }

    /// Module name.
    pub fn name(&self) -> (r: &str)
        ensures
            r@ == self.name_spec(),
    {
        self.name.as_str()
    }

    /// Shape of type `t`.
    pub fn type_data(&self, t: TypeId) -> (r: TypeData)
        requires
            self.valid_type(t),
        ensures
            r == self.types()[t.0 as int],
    {
        self.types[t.0]
    }

    /// Coarse kind of type `t`.
    pub fn kind_label(&self, t: TypeId) -> (r: TypeKindLabel)
        requires
            self.valid_type(t),
        ensures
            r == kind_label_of(self.types()[t.0 as int]),
    {
        match self.types[t.0] {
            TypeData::Void => TypeKindLabel::Void,
            TypeData::Label => TypeKindLabel::Label,
            TypeData::Token => TypeKindLabel::Token,
            TypeData::Integer { .. } => TypeKindLabel::Integer,
            TypeData::Float { kind } => match kind {
                FloatKind::Half => TypeKindLabel::Half,
                FloatKind::BFloat => TypeKindLabel::BFloat,
                FloatKind::Float => TypeKindLabel::Float,
                FloatKind::Double => TypeKindLabel::Double,
                FloatKind::X86Fp80 => TypeKindLabel::X86Fp80,
                FloatKind::Fp128 => TypeKindLabel::Fp128,
                FloatKind::PpcFp128 => TypeKindLabel::PpcFp128,
            },
            TypeData::Pointer { .. } => TypeKindLabel::Pointer,
            TypeData::FixedVector { .. } => TypeKindLabel::FixedVector,
            TypeData::Array { .. } => TypeKindLabel::Array,
            TypeData::Struct { .. } => TypeKindLabel::Struct,
        }
    }

    /// Succeeds when `got` is `expected`; otherwise reports the two widths
    /// when both are integers, or the two kinds.
    pub fn require_match(&self, expected: TypeId, got: TypeId) -> (r: IrResult<()>)
        requires
            self.valid_type(expected),
            self.valid_type(got),
        ensures
            r == match_result(self.types(), expected, got),
    {
        if expected == got {
            return Ok(());
        }
        match (self.types[expected.0], self.types[got.0]) {
            (TypeData::Integer { bits: a }, TypeData::Integer { bits: b }) =>
                Err(IrError::OperandWidthMismatch { lhs: a, rhs: b }),
            _ => Err(IrError::TypeMismatch { expected: self.kind_label(expected), got: self.kind_label(got) }),
        }
    }

    /// Type of value `v`.
    pub fn value_type(&self, v: ValueId) -> (r: TypeId)
        requires
            self.wf(),
            self.valid_value(v),
        ensures
            r == self.ty_of(v),
            self.valid_type(r),
    {
        self.values[v.0].ty
    }

    /// Number of values.
    pub fn value_count(&self) -> (r: usize)
        ensures
            r == self.values().len(),
    {
        self.values.len()
    }

    /// Number of types.
    pub fn type_count(&self) -> (r: usize)
        ensures
            r == self.types().len(),
    {
        self.types.len()
    }

    /// Number of blocks.
    pub fn block_count(&self) -> (r: usize)
        ensures
            r == self.blocks().len(),
    {
        self.blocks.len()
    }

    /// Number of functions.
    pub fn function_count(&self) -> (r: usize)
        ensures
            r == self.functions().len(),
    {
        self.functions.len()
    }

    /// The value record of `v`.
    pub fn value(&self, v: ValueId) -> (r: &ValueData)
        requires
            self.valid_value(v),
        ensures
            *r == self.values()[v.0 as int],
    {
        &self.values[v.0]
    }

    /// Instructions of block `b`, in order.
    pub fn block_instructions(&self, b: BlockId) -> (r: &Vec<ValueId>)
        requires
            self.valid_block(b),
        ensures
            r@ == self.blocks()[b.0 as int].insts@,
    {
        &self.blocks[b.0].insts
    }

    /// How `f` treats denormals of the format `kind`: its single-precision
    /// mode for `float` when one is set, else its general mode.
    pub fn function_denormal_mode(&self, f: FunctionId, kind: FloatKind) -> (r: DenormalMode)
        requires
            self.valid_function(f),
        ensures
            r == denormal_mode_for(self.functions()[f.0 as int], kind),
    {
        let fd = &self.functions[f.0];
        match kind {
            FloatKind::Float => match fd.denormal_mode_f32 {
                Some(md) => md,
                None => fd.denormal_mode,
            },
            _ => fd.denormal_mode,
        }
    }

    /// Sets how `f` treats denormals (`f32` only when `only_f32`).
    pub fn set_denormal_mode(&mut self, f: FunctionId, mode: DenormalMode, only_f32: bool)
        requires
            old(self).wf(),
            old(self).valid_function(f),
        ensures
            final(self).wf(),
            final(self).types() == old(self).types(),
            final(self).structs() == old(self).structs(),
            final(self).values() == old(self).values(),
            final(self).blocks() == old(self).blocks(),
            final(self).name_spec() == old(self).name_spec(),
            final(self).functions().len() == old(self).functions().len(),
            forall|g: int| 0 <= g < old(self).functions().len() && g != f.0 ==> final(self).functions()[g] == old(self).functions()[g],
            final(self).functions()[f.0 as int].name == old(self).functions()[f.0 as int].name,
            final(self).functions()[f.0 as int].ret == old(self).functions()[f.0 as int].ret,
            final(self).functions()[f.0 as int].params == old(self).functions()[f.0 as int].params,
            final(self).functions()[f.0 as int].blocks == old(self).functions()[f.0 as int].blocks,
            final(self).functions()[f.0 as int].var_arg == old(self).functions()[f.0 as int].var_arg,
            only_f32 ==> final(self).functions()[f.0 as int].denormal_mode_f32 == Some(mode)
                && final(self).functions()[f.0 as int].denormal_mode == old(self).functions()[f.0 as int].denormal_mode,
            !only_f32 ==> final(self).functions()[f.0 as int].denormal_mode == mode
                && final(self).functions()[f.0 as int].denormal_mode_f32 == old(self).functions()[f.0 as int].denormal_mode_f32,
    {
        let mut fd = self.functions.remove(f.0);
        if only_f32 {
            fd.denormal_mode_f32 = Some(mode);
        } else {
            fd.denormal_mode = mode;
        }
        self.functions.insert(f.0, fd);
        proof {
            let m = &*self;
            assert forall|g: int| 0 <= g < m.functions().len() implies function_refs_ok(#[trigger] m.functions()[g],
                m.types().len(), m.values().len(), m.blocks().len()) by {
                assert(function_refs_ok(old(self).functions()[g], old(self).types().len(), old(self).values().len(),
                    old(self).blocks().len()));
            }
            assert forall|v: int| 0 <= v < m.values().len() implies value_refs_ok(#[trigger] m.values()[v],
                m.types().len(), m.values().len(), m.blocks().len(), m.functions().len()) by {
                assert(value_refs_ok(old(self).values()[v], old(self).types().len(), old(self).values().len(),
                    old(self).blocks().len(), old(self).functions().len()));
            }
            assert forall|b: int| 0 <= b < m.blocks().len() implies block_refs_ok(#[trigger] m.blocks()[b],
                m.values().len(), m.functions().len()) by {
                assert(block_refs_ok(old(self).blocks()[b], old(self).values().len(), old(self).functions().len()));
            }
        }
    }

    /// The intrinsic `f` is, if it is one.
    pub fn function_intrinsic(&self, f: FunctionId) -> (r: Option<Intrinsic>)
        requires
            self.valid_function(f),
        ensures
            r == self.functions()[f.0 as int].intrinsic,
    {
        self.functions[f.0].intrinsic
    }

    /// Whether calls of `f` may pass arguments past its parameters.
    pub fn function_var_arg(&self, f: FunctionId) -> (r: bool)
        requires
            self.valid_function(f),
        ensures
            r == self.functions()[f.0 as int].var_arg,
    {
        self.functions[f.0].var_arg
    }

    /// Name of the struct body `body`.
    pub fn struct_name(&self, body: usize) -> (r: &String)
        requires
            body < self.structs().len(),
        ensures
            r@ == self.structs()[body as int].name@,
    {
        &self.structs[body].name
    }

    /// Fields of the struct body `body`, `None` for an opaque struct.
    pub fn struct_fields(&self, body: usize) -> (r: &Option<Vec<TypeId>>)
        requires
            body < self.structs().len(),
        ensures
            *r == self.structs()[body as int].fields,
    {
        &self.structs[body].fields
    }

    /// The users of `v`, in the order they came to use it (once per use).
    pub fn users(&self, v: ValueId) -> (r: Vec<ValueId>)
        ensures
            r@ == users_of(*self, v),
    {
        let mut r: Vec<ValueId> = Vec::new();
        let n = self.uses.len();
        for i in 0..n
            invariant
                n == self.uses@.len(),
                r@ == self.uses@.take(i as int).filter(use_of(v)).map_values(|p: (ValueId, ValueId)| user_in(p)),
        {
            let (used, user) = self.uses[i];
            proof {
                reveal(Seq::filter);
                assert(self.uses@.take(i + 1).drop_last() =~= self.uses@.take(i as int));
            }
            if used == v {
                r.push(user);
            }
            assert(r@ =~= self.uses@.take(i + 1).filter(use_of(v)).map_values(|p: (ValueId, ValueId)| user_in(p)));
        }
        assert(self.uses@.take(n as int) =~= self.uses@);
        r
    }

    /// Name of block `b`.
    pub fn block_name(&self, b: BlockId) -> (r: String)
        requires
            self.valid_block(b),
        ensures
            r == self.blocks()[b.0 as int].name,
    {
        self.blocks[b.0].name.clone()
    }

    /// Parent function of block `b`.
    pub fn block_function(&self, b: BlockId) -> (r: FunctionId)
        requires
            self.valid_block(b),
        ensures
            r == self.blocks()[b.0 as int].function,
    {
        self.blocks[b.0].function
    }

    /// Blocks of function `f`, in order.
    pub fn function_blocks(&self, f: FunctionId) -> (r: &Vec<BlockId>)
        requires
            self.valid_function(f),
        ensures
            r@ == self.functions()[f.0 as int].blocks@,
    {
        &self.functions[f.0].blocks
    }

    /// Parameter values of function `f`, in order.
    pub fn function_params(&self, f: FunctionId) -> (r: &Vec<ValueId>)
        requires
            self.valid_function(f),
        ensures
            r@ == self.functions()[f.0 as int].params@,
    {
        &self.functions[f.0].params
    }

    /// Return type of function `f`.
    pub fn function_return_type(&self, f: FunctionId) -> (r: TypeId)
        requires
            self.valid_function(f),
        ensures
            r == self.functions()[f.0 as int].ret,
    {
        self.functions[f.0].ret
    }

    /// True when the last instruction of block `b` ends it.
    pub fn is_terminated(&self, b: BlockId) -> (r: bool)
        requires
            self.wf(),
            self.valid_block(b),
        ensures
            r == block_is_terminated(self.values(), self.blocks()[b.0 as int]),
    {
        let insts = &self.blocks[b.0].insts;
        let n = insts.len();
        if n == 0 {
            return false;
        }
        let last = insts[n - 1];
        proof {
            assert(self.blocks()[b.0 as int].insts@[n - 1] == last);
        }
        match &self.values[last.0].kind {
            ValueKind::Instruction { op, .. } => match op {
                Opcode::Br | Opcode::CondBr | Opcode::Switch | Opcode::Invoke { .. } | Opcode::CallBr { .. } | Opcode::Ret
                    | Opcode::Unreachable | Opcode::Resume | Opcode::IndirectBr | Opcode::CatchRet | Opcode::CleanupRet
            | Opcode::CatchSwitch { .. } => true,
                _ => false,
            },
            _ => false,
        }
    }

    /// Id of the type `t`, added to the module when not yet present.
    pub fn intern_type(&mut self, t: TypeData) -> (r: TypeId)
        requires
            old(self).wf(),
            type_refs_below(t, old(self).types().len() as int),
            !(t is Struct),
        ensures
            final(self).wf(),
            final(self).valid_type(r),
            final(self).types()[r.0 as int] == t,
            final(self).types() == old(self).types() || final(self).types() == old(self).types().push(t),
            module_grew_types(*old(self), *final(self)),
    {
        let n = self.types.len();
        proof { assert(self.types().take(n as int) =~= self.types()); }
        for i in 0..n
            invariant
                n == self.types@.len(),
                *self == *old(self),
                self.wf(),
                self.types().take(n as int) == self.types(),
                forall|j: int| 0 <= j < i ==> self.types@[j] != t,
        {
            if self.types[i] == t {
                return TypeId(i);
            }
        }
        self.types.push(t);
        proof {
            let m = &*self;
            assert forall|tt: int| 0 <= tt < m.types().len() implies type_refs_below(#[trigger] m.types()[tt], tt) by {
                if tt < n {
                    assert(m.types()[tt] == old(self).types()[tt]);
                }
            }
            assert forall|v: int| 0 <= v < m.values().len() implies value_refs_ok(#[trigger] m.values()[v],
                m.types().len(), m.values().len(), m.blocks().len(), m.functions().len()) by {
                assert(value_refs_ok(old(self).values()[v], old(self).types().len(), old(self).values().len(),
                    old(self).blocks().len(), old(self).functions().len()));
            }
            assert forall|f: int| 0 <= f < m.functions().len() implies function_refs_ok(#[trigger] m.functions()[f],
                m.types().len(), m.values().len(), m.blocks().len()) by {
                assert(function_refs_ok(old(self).functions()[f], old(self).types().len(), old(self).values().len(),
                    old(self).blocks().len()));
            }
            assert(m.types().take(n as int) =~= old(self).types());
        }
        TypeId(n)
    }

    /// The `void` type.
    pub fn void_type(&mut self) -> (r: TypeId)
        requires
            old(self).wf(),
        ensures
            module_grew_types(*old(self), *final(self)),
            final(self).valid_type(r),
            final(self).types()[r.0 as int] == TypeData::Void,
    {
        self.intern_type(TypeData::Void)
    }

    /// The `label` type of basic blocks.
    pub fn label_type(&mut self) -> (r: TypeId)
        requires
            old(self).wf(),
        ensures
            module_grew_types(*old(self), *final(self)),
            final(self).valid_type(r),
            final(self).types()[r.0 as int] == TypeData::Label,
    {
        self.intern_type(TypeData::Label)
    }

    /// The `token` type of exception-handling pads.
    pub fn token_type(&mut self) -> (r: TypeId)
        requires
            old(self).wf(),
        ensures
            module_grew_types(*old(self), *final(self)),
            final(self).valid_type(r),
            final(self).types()[r.0 as int] == TypeData::Token,
    {
        self.intern_type(TypeData::Token)
    }

    /// The integer type of `bits` bits, for a width between
    /// [`MIN_INT_BITS`] and [`MAX_INT_BITS`].
    pub fn custom_width_int_type(&mut self, bits: u32) -> (r: IrResult<TypeId>)
        requires
            old(self).wf(),
        ensures
            module_grew_types(*old(self), *final(self)),
            (MIN_INT_BITS <= bits <= MAX_INT_BITS) <==> r is Ok,
            r matches Ok(t) ==> final(self).valid_type(t) && final(self).types()[t.0 as int] == (TypeData::Integer { bits }),
            r is Err ==> r == Err::<TypeId, IrError>(IrError::InvalidIntegerWidth { bits }) && *final(self) == *old(self),
    {
        if bits < MIN_INT_BITS || bits > MAX_INT_BITS {
            proof { assert(self.types().take(self.types().len() as int) =~= self.types()); }
            return Err(IrError::InvalidIntegerWidth { bits });
        }
        Ok(self.intern_type(TypeData::Integer { bits }))
    }

    /// The integer type of `bits` bits, for a width known to be valid.
    pub fn int_type(&mut self, bits: u32) -> (r: TypeId)
        requires
            old(self).wf(),
            MIN_INT_BITS <= bits <= MAX_INT_BITS,
        ensures
            module_grew_types(*old(self), *final(self)),
            final(self).valid_type(r),
            final(self).types()[r.0 as int] == (TypeData::Integer { bits }),
    {
        self.intern_type(TypeData::Integer { bits })
    }

    /// `i1`.
    pub fn bool_type(&mut self) -> (r: TypeId)
        requires
            old(self).wf(),
        ensures
            module_grew_types(*old(self), *final(self)),
            final(self).valid_type(r),
            final(self).types()[r.0 as int] == (TypeData::Integer { bits: 1 }),
    {
        self.int_type(1)
    }

    /// `i8`.
    pub fn i8_type(&mut self) -> (r: TypeId)
        requires
            old(self).wf(),
        ensures
            module_grew_types(*old(self), *final(self)),
            final(self).valid_type(r),
            final(self).types()[r.0 as int] == (TypeData::Integer { bits: 8 }),
    {
        self.int_type(8)
    }

    /// `i16`.
    pub fn i16_type(&mut self) -> (r: TypeId)
        requires
            old(self).wf(),
        ensures
            module_grew_types(*old(self), *final(self)),
            final(self).valid_type(r),
            final(self).types()[r.0 as int] == (TypeData::Integer { bits: 16 }),
    {
        self.int_type(16)
    }

    /// `i32`.
    pub fn i32_type(&mut self) -> (r: TypeId)
        requires
            old(self).wf(),
        ensures
            module_grew_types(*old(self), *final(self)),
            final(self).valid_type(r),
            final(self).types()[r.0 as int] == (TypeData::Integer { bits: 32 }),
    {
        self.int_type(32)
    }

    /// `i64`.
    pub fn i64_type(&mut self) -> (r: TypeId)
        requires
            old(self).wf(),
        ensures
            module_grew_types(*old(self), *final(self)),
            final(self).valid_type(r),
            final(self).types()[r.0 as int] == (TypeData::Integer { bits: 64 }),
    {
        self.int_type(64)
    }

    /// The floating-point type of format `kind`.
    pub fn float_type(&mut self, kind: FloatKind) -> (r: TypeId)
        requires
            old(self).wf(),
        ensures
            module_grew_types(*old(self), *final(self)),
            final(self).valid_type(r),
            final(self).types()[r.0 as int] == (TypeData::Float { kind }),
    {
        self.intern_type(TypeData::Float { kind })
    }

    /// `float`.
    pub fn f32_type(&mut self) -> (r: TypeId)
        requires
            old(self).wf(),
        ensures
            module_grew_types(*old(self), *final(self)),
            final(self).valid_type(r),
            final(self).types()[r.0 as int] == (TypeData::Float { kind: FloatKind::Float }),
    {
        self.float_type(FloatKind::Float)
    }

    /// `double`.
    pub fn f64_type(&mut self) -> (r: TypeId)
        requires
            old(self).wf(),
        ensures
            module_grew_types(*old(self), *final(self)),
            final(self).valid_type(r),
            final(self).types()[r.0 as int] == (TypeData::Float { kind: FloatKind::Double }),
    {
        self.float_type(FloatKind::Double)
    }

    /// The pointer type of address space `addr_space`.
    pub fn ptr_type(&mut self, addr_space: u32) -> (r: TypeId)
        requires
            old(self).wf(),
        ensures
            module_grew_types(*old(self), *final(self)),
            final(self).valid_type(r),
            final(self).types()[r.0 as int] == (TypeData::Pointer { addr_space }),
    {
        self.intern_type(TypeData::Pointer { addr_space })
    }

    /// The vector of `n` elements of type `elem`.
    pub fn fixed_vector_type(&mut self, elem: TypeId, n: u32) -> (r: TypeId)
        requires
            old(self).wf(),
            old(self).valid_type(elem),
        ensures
            module_grew_types(*old(self), *final(self)),
            final(self).valid_type(r),
            final(self).types()[r.0 as int] == (TypeData::FixedVector { elem, n }),
    {
        self.intern_type(TypeData::FixedVector { elem, n })
    }

    /// The array type of `n` elements of type `elem`.
    pub fn array_type(&mut self, elem: TypeId, n: u64) -> (r: TypeId)
        requires
            old(self).wf(),
            old(self).valid_type(elem),
        ensures
            module_grew_types(*old(self), *final(self)),
            final(self).valid_type(r),
            final(self).types()[r.0 as int] == (TypeData::Array { elem, n }),
    {
        self.intern_type(TypeData::Array { elem, n })
    }

    /// Appends the struct type with body `sb`.
    fn push_struct(&mut self, sb: StructBody) -> (r: TypeId)
        requires
            old(self).wf(),
            sb.fields matches Some(fs) ==> forall|k: int| 0 <= k < fs@.len() ==> old(self).valid_type(#[trigger] fs@[k]),
        ensures
            final(self).wf(),
            r.0 == old(self).types().len(),
            final(self).types() == old(self).types().push(TypeData::Struct { body: old(self).structs().len() as usize }),
            final(self).structs() == old(self).structs().push(sb),
            final(self).values() == old(self).values(),
            final(self).blocks() == old(self).blocks(),
            final(self).functions() == old(self).functions(),
            final(self).name_spec() == old(self).name_spec(),
    {
        let body = self.structs.len();
        let n = self.types.len();
        self.structs.push(sb);
        self.types.push(TypeData::Struct { body });
        proof {
            let m = &*self;
            assert forall|t: int| 0 <= t < m.types().len() implies type_refs_below(#[trigger] m.types()[t], t) by {
                if t < n {
                    assert(m.types()[t] == old(self).types()[t]);
                }
            }
            assert forall|t: int| 0 <= t < m.types().len() implies struct_refs_ok(#[trigger] m.types()[t], t, m.structs()) by {
                if t < n {
                    assert(m.types()[t] == old(self).types()[t]);
                    assert(struct_refs_ok(old(self).types()[t], t, old(self).structs()));
                    if let TypeData::Struct { body: b } = m.types()[t] {
                        assert(m.structs()[b as int] == old(self).structs()[b as int]);
                    }
                } else {
                    assert(m.structs()[body as int] == m.structs().last());
                }
            }
            assert forall|v: int| 0 <= v < m.values().len() implies value_refs_ok(#[trigger] m.values()[v],
                m.types().len(), m.values().len(), m.blocks().len(), m.functions().len()) by {
                assert(value_refs_ok(old(self).values()[v], old(self).types().len(), old(self).values().len(),
                    old(self).blocks().len(), old(self).functions().len()));
            }
            assert forall|f: int| 0 <= f < m.functions().len() implies function_refs_ok(#[trigger] m.functions()[f],
                m.types().len(), m.values().len(), m.blocks().len()) by {
                assert(function_refs_ok(old(self).functions()[f], old(self).types().len(), old(self).values().len(),
                    old(self).blocks().len()));
            }
            assert forall|b: int| 0 <= b < m.blocks().len() implies block_refs_ok(#[trigger] m.blocks()[b],
                m.values().len(), m.functions().len()) by {
                assert(block_refs_ok(old(self).blocks()[b], old(self).values().len(), old(self).functions().len()));
            }
        }
        TypeId(n)
    }

    /// A new struct type named `name` with the fields `fields`, in order;
    /// `ForeignValueId` when a field is no type of this module.
    pub fn struct_type(&mut self, name: &str, fields: &Vec<TypeId>) -> (r: IrResult<TypeId>)
        requires
            old(self).wf(),
        ensures
            final(self).wf(),
            (exists|k: int| 0 <= k < fields@.len() && !old(self).valid_type(#[trigger] fields@[k]))
                ==> r == Err::<TypeId, IrError>(IrError::ForeignValueId) && *final(self) == *old(self),
            (forall|k: int| 0 <= k < fields@.len() ==> old(self).valid_type(#[trigger] fields@[k])) ==> {
                &&& r == Ok::<TypeId, IrError>(TypeId(old(self).types().len() as usize))
                &&& final(self).types() == old(self).types().push(TypeData::Struct { body: old(self).structs().len() as usize })
                &&& final(self).structs().len() == old(self).structs().len() + 1
                &&& final(self).structs().take(old(self).structs().len() as int) == old(self).structs()
                &&& final(self).structs().last().name@ == name@
                &&& final(self).structs().last().fields matches Some(fs) && fs@ == fields@
                &&& module_grew_types(*old(self), *final(self))
            },
    {
        let n = fields.len();
        for k in 0..n
            invariant
                n == fields@.len(),
                *self == *old(self),
                forall|j: int| 0 <= j < k ==> self.valid_type(#[trigger] fields@[j]),
                self.wf(),
        {
            if fields[k].0 >= self.types.len() {
                return Err(IrError::ForeignValueId);
            }
        }
        let mut fs: Vec<TypeId> = Vec::new();
        for k in 0..n
            invariant
                n == fields@.len(),
                fs@ == fields@.take(k as int),
        {
            fs.push(fields[k]);
            assert(fs@ =~= fields@.take(k + 1));
        }
        assert(fs@ =~= fields@);
        let t = self.push_struct(StructBody { name: name.to_owned(), fields: Some(fs) });
        proof {
            assert(self.structs().take(old(self).structs().len() as int) =~= old(self).structs());
            assert(self.types().take(old(self).types().len() as int) =~= old(self).types());
        }
        Ok(t)
    }

    /// A new opaque struct type named `name`, whose fields are not known.
    pub fn opaque_struct_type(&mut self, name: &str) -> (r: TypeId)
        requires
            old(self).wf(),
        ensures
            final(self).wf(),
            r.0 == old(self).types().len(),
            final(self).types() == old(self).types().push(TypeData::Struct { body: old(self).structs().len() as usize }),
            final(self).structs().len() == old(self).structs().len() + 1,
            final(self).structs().take(old(self).structs().len() as int) == old(self).structs(),
            final(self).structs().last().name@ == name@,
            final(self).structs().last().fields is None,
            module_grew_types(*old(self), *final(self)),
    {
        let t = self.push_struct(StructBody { name: name.to_owned(), fields: None });
        proof {
            assert(self.structs().take(old(self).structs().len() as int) =~= old(self).structs());
            assert(self.types().take(old(self).types().len() as int) =~= old(self).types());
        }
        t
    }

    /// Appends a value record.
    fn push_value(&mut self, vd: ValueData) -> (r: ValueId)
        requires
            old(self).wf(),
            value_refs_ok(vd, old(self).types().len(), old(self).values().len() + 1,
                old(self).blocks().len(), old(self).functions().len()),
        ensures
            final(self).wf(),
            r.0 == old(self).values().len(),
            final(self).values() == old(self).values().push(vd),
            final(self).types() == old(self).types(),
            final(self).blocks() == old(self).blocks(),
            final(self).functions() == old(self).functions(),
            final(self).name_spec() == old(self).name_spec(),
            final(self).uses() == old(self).uses(),
            final(self).block_uses() == old(self).block_uses(),
    {
        let n = self.values.len();
        self.values.push(vd);
        proof {
            let m = &*self;
            let o = old(self);
            assert forall|v: int| 0 <= v < m.values().len() implies value_refs_ok(#[trigger] m.values()[v],
                m.types().len(), m.values().len(), m.blocks().len(), m.functions().len()) by {
                if v < n {
                    assert(value_refs_ok(o.values()[v], o.types().len(), o.values().len(),
                        o.blocks().len(), o.functions().len()));
                    assert(m.values()[v] == o.values()[v]);
                }
            }
            assert forall|b: int| 0 <= b < m.blocks().len() implies block_refs_ok(#[trigger] m.blocks()[b],
                m.values().len(), m.functions().len()) by {
                assert(block_refs_ok(o.blocks()[b], o.values().len(), o.functions().len()));
            }
            assert forall|f: int| 0 <= f < m.functions().len() implies function_refs_ok(#[trigger] m.functions()[f],
                m.types().len(), m.values().len(), m.blocks().len()) by {
                assert(function_refs_ok(o.functions()[f], o.types().len(), o.values().len(), o.blocks().len()));
            }
        }
        ValueId(n)
    }

    /// Adds a constant value of kind `kind` and type `ty`.
    fn push_constant(&mut self, ty: TypeId, kind: ValueKind) -> (r: ValueId)
        requires
            old(self).wf(),
            old(self).valid_type(ty),
            !(kind is Instruction),
            !(kind is Argument),
        ensures
            final(self).wf(),
            r.0 == old(self).values().len(),
            final(self).values().len() == old(self).values().len() + 1,
            final(self).values()[r.0 as int].ty == ty,
            final(self).values()[r.0 as int].kind == kind,
            final(self).values()[r.0 as int].name@ == Seq::<char>::empty(),
            final(self).values().take(old(self).values().len() as int) == old(self).values(),
            final(self).types() == old(self).types(),
            final(self).blocks() == old(self).blocks(),
            final(self).functions() == old(self).functions(),
            final(self).name_spec() == old(self).name_spec(),
    {
        let vd = ValueData { ty, kind, name: String::new() };
        let r = self.push_value(vd);
        proof {
            assert(self.values().take(old(self).values().len() as int) =~= old(self).values());
        }
        r
    }

    /// The integer constant `value` of integer type `ty` (truncated to the
    /// width of `ty`).
    pub fn const_int(&mut self, ty: TypeId, value: u64) -> (r: IrResult<ValueId>)
        requires
            old(self).wf(),
            old(self).valid_type(ty),
        ensures
            final(self).wf(),
            old(self).types()[ty.0 as int] is Integer ==> (r matches Ok(v) && constant_added(*old(self), *final(self), v, ty)
                && const_bits(*final(self), v) == Some(crate::bitseq::from_nat(old(self).types()[ty.0 as int]->bits as nat, value as nat))),
            !(old(self).types()[ty.0 as int] is Integer) ==> r == Err::<ValueId, IrError>(IrError::TypeMismatch {
                expected: TypeKindLabel::Integer, got: kind_label_of(old(self).types()[ty.0 as int]) })
                && *final(self) == *old(self),
    {
        match self.types[ty.0] {
            TypeData::Integer { bits } => {
                let c = ApInt::from_u64(bits, value);
                Ok(self.push_constant(ty, ValueKind::ConstInt { value: c }))
            },
            _ => Err(IrError::TypeMismatch { expected: TypeKindLabel::Integer, got: self.kind_label(ty) }),
        }
    }

    /// The integer constant of integer type `ty` with the bits of `value`,
    /// whose width must be that of `ty`.
    pub fn const_int_ap(&mut self, ty: TypeId, value: ApInt) -> (r: IrResult<ValueId>)
        requires
            old(self).wf(),
            old(self).valid_type(ty),
        ensures
            final(self).wf(),
            (old(self).types()[ty.0 as int] is Integer && old(self).types()[ty.0 as int]->bits == value@.len())
                ==> (r matches Ok(v) && constant_added(*old(self), *final(self), v, ty)
                    && final(self).values()[v.0 as int].kind == (ValueKind::ConstInt { value })),
            !(old(self).types()[ty.0 as int] is Integer) ==> r == Err::<ValueId, IrError>(IrError::TypeMismatch {
                expected: TypeKindLabel::Integer, got: kind_label_of(old(self).types()[ty.0 as int]) })
                && *final(self) == *old(self),
            (old(self).types()[ty.0 as int] is Integer && old(self).types()[ty.0 as int]->bits != value@.len())
                ==> r == Err::<ValueId, IrError>(IrError::OperandWidthMismatch {
                    lhs: old(self).types()[ty.0 as int]->bits, rhs: value@.len() as u32 })
                && *final(self) == *old(self),
    {
        match self.types[ty.0] {
            TypeData::Integer { bits } => {
                let w = value.bit_width();
                if w != bits {
                    return Err(IrError::OperandWidthMismatch { lhs: bits, rhs: w });
                }
                Ok(self.push_constant(ty, ValueKind::ConstInt { value }))
            },
            _ => Err(IrError::TypeMismatch { expected: TypeKindLabel::Integer, got: self.kind_label(ty) }),
        }
    }

    /// The all-zero constant of integer type `ty`.
    pub fn const_zero(&mut self, ty: TypeId) -> (r: IrResult<ValueId>)
        requires
            old(self).wf(),
            old(self).valid_type(ty),
        ensures
            final(self).wf(),
            old(self).types()[ty.0 as int] is Integer ==> (r matches Ok(v) && constant_added(*old(self), *final(self), v, ty)
                && const_bits(*final(self), v) == Some(crate::bitseq::splat(old(self).types()[ty.0 as int]->bits as nat, false))),
            !(old(self).types()[ty.0 as int] is Integer) ==> r is Err && *final(self) == *old(self),
    {
        match self.types[ty.0] {
            TypeData::Integer { bits } => {
                let c = ApInt::zero(bits);
                Ok(self.push_constant(ty, ValueKind::ConstInt { value: c }))
            },
            _ => Err(IrError::TypeMismatch { expected: TypeKindLabel::Integer, got: self.kind_label(ty) }),
        }
    }

    /// The all-ones constant of integer type `ty`.
    pub fn const_all_ones(&mut self, ty: TypeId) -> (r: IrResult<ValueId>)
        requires
            old(self).wf(),
            old(self).valid_type(ty),
        ensures
            final(self).wf(),
            old(self).types()[ty.0 as int] is Integer ==> (r matches Ok(v) && constant_added(*old(self), *final(self), v, ty)
                && const_bits(*final(self), v) == Some(crate::bitseq::splat(old(self).types()[ty.0 as int]->bits as nat, true))),
            !(old(self).types()[ty.0 as int] is Integer) ==> r is Err && *final(self) == *old(self),
    {
        match self.types[ty.0] {
            TypeData::Integer { bits } => {
                let c = ApInt::all_ones(bits);
                Ok(self.push_constant(ty, ValueKind::ConstInt { value: c }))
            },
            _ => Err(IrError::TypeMismatch { expected: TypeKindLabel::Integer, got: self.kind_label(ty) }),
        }
    }

    /// The floating-point constant with bit pattern `bits` of float type `ty`.
    pub fn const_float_bits(&mut self, ty: TypeId, bits: u64) -> (r: IrResult<ValueId>)
        requires
            old(self).wf(),
            old(self).valid_type(ty),
        ensures
            final(self).wf(),
            old(self).types()[ty.0 as int] is Float ==> (r matches Ok(v) && constant_added(*old(self), *final(self), v, ty)
                && final(self).values()[v.0 as int].kind == (ValueKind::ConstFloat { bits })),
            !(old(self).types()[ty.0 as int] is Float) ==> r == Err::<ValueId, IrError>(IrError::TypeMismatch {
                expected: TypeKindLabel::Double, got: kind_label_of(old(self).types()[ty.0 as int]) })
                && *final(self) == *old(self),
    {
        match self.types[ty.0] {
            TypeData::Float { .. } => Ok(self.push_constant(ty, ValueKind::ConstFloat { bits })),
            _ => Err(IrError::TypeMismatch { expected: TypeKindLabel::Double, got: self.kind_label(ty) }),
        }
    }

    /// The null pointer of pointer type `ty`.
    pub fn const_null(&mut self, ty: TypeId) -> (r: IrResult<ValueId>)
        requires
            old(self).wf(),
            old(self).valid_type(ty),
        ensures
            final(self).wf(),
            old(self).types()[ty.0 as int] is Pointer ==> (r matches Ok(v) && constant_added(*old(self), *final(self), v, ty)
                && final(self).values()[v.0 as int].kind == ValueKind::ConstNull),
            !(old(self).types()[ty.0 as int] is Pointer) ==> r == Err::<ValueId, IrError>(IrError::TypeMismatch {
                expected: TypeKindLabel::Pointer, got: kind_label_of(old(self).types()[ty.0 as int]) })
                && *final(self) == *old(self),
    {
        match self.types[ty.0] {
            TypeData::Pointer { .. } => Ok(self.push_constant(ty, ValueKind::ConstNull)),
            _ => Err(IrError::TypeMismatch { expected: TypeKindLabel::Pointer, got: self.kind_label(ty) }),
        }
    }

    /// An `undef` of type `ty`.
    pub fn undef(&mut self, ty: TypeId) -> (r: ValueId)
        requires
            old(self).wf(),
            old(self).valid_type(ty),
        ensures
            final(self).wf(),
            constant_added(*old(self), *final(self), r, ty),
            final(self).values()[r.0 as int].kind == ValueKind::Undef,
    {
        self.push_constant(ty, ValueKind::Undef)
    }

    /// A `poison` of type `ty`.
    pub fn poison(&mut self, ty: TypeId) -> (r: ValueId)
        requires
            old(self).wf(),
            old(self).valid_type(ty),
        ensures
            final(self).wf(),
            constant_added(*old(self), *final(self), r, ty),
            final(self).values()[r.0 as int].kind == ValueKind::Poison,
    {
        self.push_constant(ty, ValueKind::Poison)
    }
}

/// Bits of the integer constant `v`, if it is one.
pub open spec fn const_bits(m: Module, v: ValueId) -> Option<Seq<bool>> {
    match m.values()[v.0 as int].kind {
        ValueKind::ConstInt { value } => Some(value@),
        _ => None,
    }
}

/// `new` differs from `old` at most by types appended at the end.
pub open spec fn module_grew_types(old: Module, new: Module) -> bool {
    &&& new.wf()
    &&& new.types().len() >= old.types().len()
    &&& new.types().take(old.types().len() as int) == old.types()
    &&& new.values() == old.values()
    &&& new.blocks() == old.blocks()
    &&& new.functions() == old.functions()
    &&& new.name_spec() == old.name_spec()
}

/// `new` is `old` with the constant `v` of type `ty` appended.
pub open spec fn constant_added(old: Module, new: Module, v: ValueId, ty: TypeId) -> bool {
    &&& new.wf()
    &&& v.0 == old.values().len()
    &&& new.values().len() == old.values().len() + 1
    &&& new.values().take(old.values().len() as int) == old.values()
    &&& new.values()[v.0 as int].ty == ty
    &&& new.values()[v.0 as int].name@ == Seq::<char>::empty()
    &&& new.types() == old.types()
    &&& new.blocks() == old.blocks()
    &&& new.functions() == old.functions()
    &&& new.name_spec() == old.name_spec()
}


/// Index of the first occurrence of `a` in `s`.
pub open spec fn first_index(s: Seq<ValueId>, a: ValueId, p: int) -> bool {
    0 <= p < s.len() && s[p] == a && forall|j: int| 0 <= j < p ==> s[j] != a
}

/// `new` is `old` with `v` placed before the first occurrence of the
/// anchor `before`, or at the end when there is no anchor or it is absent.
pub open spec fn placed(old: Seq<ValueId>, new: Seq<ValueId>, v: ValueId, before: Option<ValueId>) -> bool {
    match before {
        Some(a) => if old.contains(a) {
            exists|p: int| first_index(old, a, p) && new == old.insert(p, v)
        } else {
            new == old.push(v)
        },
        None => new == old.push(v),
    }
}

/// The value kind is an instruction with exactly these parts.
pub open spec fn inst_shape(k: ValueKind, op: Opcode, operands: Seq<ValueId>, targets: Seq<BlockId>, b: BlockId, flags: InstFlags) -> bool {
    match k {
        ValueKind::Instruction { op: o, operands: ops, targets: ts, block, flags: f, .. } =>
            o == op && ops@ == operands && ts@ == targets && block == b && f == flags,
        _ => false,
    }
}

/// `new` is `old` with the instruction `v` added to block `b` at the
/// insertion point given by `before`.
pub open spec fn inst_added(old: Module, new: Module, v: ValueId, b: BlockId, before: Option<ValueId>,
    ty: TypeId, op: Opcode, operands: Seq<ValueId>, targets: Seq<BlockId>, flags: InstFlags, name: Seq<char>) -> bool
{
    &&& new.wf()
    &&& v.0 == old.values().len()
    &&& new.values().len() == old.values().len() + 1
    &&& new.values().take(old.values().len() as int) == old.values()
    &&& new.values()[v.0 as int].ty == ty
    &&& new.values()[v.0 as int].name@ == local_name(old, ty, name)
    &&& inst_shape(new.values()[v.0 as int].kind, op, operands, targets, b, flags)
    &&& new.types() == old.types()
    &&& new.functions() == old.functions()
    &&& new.name_spec() == old.name_spec()
    &&& new.blocks().len() == old.blocks().len()
    &&& forall|j: int| 0 <= j < old.blocks().len() && j != b.0 ==> #[trigger] new.blocks()[j] == old.blocks()[j]
    &&& new.blocks()[b.0 as int].name == old.blocks()[b.0 as int].name
    &&& new.blocks()[b.0 as int].function == old.blocks()[b.0 as int].function
    &&& new.blocks()[b.0 as int].params == old.blocks()[b.0 as int].params
    &&& placed(old.blocks()[b.0 as int].insts@, new.blocks()[b.0 as int].insts@, v, before)
    &&& new.uses() == old.uses() + operands.map_values(|o: ValueId| (o, v))
    &&& new.block_uses() == old.block_uses() + targets.map_values(|t: BlockId| (t, v))
}

/// The local name a new value of type `ty` asked to be named `name` gets:
/// none for `void`.
pub open spec fn local_name(m: Module, ty: TypeId, name: Seq<char>) -> Seq<char> {
    if m.types()[ty.0 as int] == TypeData::Void { Seq::<char>::empty() } else { name }
}

/// A use is of the value `v`.
pub open spec fn use_of(v: ValueId) -> spec_fn((ValueId, ValueId)) -> bool {
    |p: (ValueId, ValueId)| p.0 == v
}

/// The user of a use.
pub open spec fn user_in(p: (ValueId, ValueId)) -> ValueId {
    p.1
}

/// The users of `v`, in the order they came to use it (once per use).
pub open spec fn users_of(m: Module, v: ValueId) -> Seq<ValueId> {
    m.uses().filter(use_of(v)).map_values(|p: (ValueId, ValueId)| user_in(p))
}

/// A new instruction is a user of each of its operands, and every value
/// keeps the users it had before, in their order.
pub proof fn law_new_instruction_uses_its_operands(old: Module, new: Module, v: ValueId, b: BlockId,
    before: Option<ValueId>, ty: TypeId, op: Opcode, operands: Seq<ValueId>, targets: Seq<BlockId>, flags: InstFlags,
    name: Seq<char>, x: ValueId)
    requires
        inst_added(old, new, v, b, before, ty, op, operands, targets, flags, name),
    ensures
        forall|k: int| 0 <= k < operands.len() ==> users_of(new, #[trigger] operands[k]).contains(v),
        users_of(new, x).take(users_of(old, x).len() as int) == users_of(old, x),
{
    let added = operands.map_values(|o: ValueId| (o, v));
    assert forall|k: int| 0 <= k < operands.len() implies users_of(new, #[trigger] operands[k]).contains(v) by {
        let y = operands[k];
        let pred = use_of(y);
        let i = old.uses().len() + k;
        assert(new.uses()[i] == (y, v));
        new.uses().lemma_filter_contains(pred, i);
        let f = new.uses().filter(pred);
        let j = choose|j: int| 0 <= j < f.len() && f[j] == (y, v);
        assert(users_of(new, y)[j] == v);
    }
    let pred = use_of(x);
    let fo = old.uses().filter(pred);
    Seq::filter_distributes_over_add(old.uses(), added, pred);
    assert(new.uses().filter(pred) == fo + added.filter(pred));
    assert(users_of(new, x).take(users_of(old, x).len() as int) =~= users_of(old, x));
}

impl Module {
    /// Adds a function named `name` returning `ret` with parameters of the
    /// types `params`, one argument value per parameter, and no blocks.
    pub fn add_function(&mut self, name: &str, ret: TypeId, params: &Vec<TypeId>) -> (r: IrResult<FunctionId>)
        requires
            old(self).wf(),
            params@.len() <= u32::MAX,
        ensures
            final(self).wf(),
            !old(self).valid_type(ret) || (exists|k: int| 0 <= k < params@.len() && !old(self).valid_type(#[trigger] params@[k]))
                ==> r == Err::<FunctionId, IrError>(IrError::ForeignValueId) && *final(self) == *old(self),
            r matches Ok(f) ==> {
                &&& f.0 == old(self).functions().len()
                &&& final(self).functions().len() == old(self).functions().len() + 1
                &&& final(self).functions().take(old(self).functions().len() as int) == old(self).functions()
                &&& final(self).functions()[f.0 as int].name@ == name@
                &&& final(self).functions()[f.0 as int].ret == ret
                &&& final(self).functions()[f.0 as int].blocks@.len() == 0
                &&& !final(self).functions()[f.0 as int].var_arg
                &&& final(self).functions()[f.0 as int].intrinsic is None
                &&& final(self).functions()[f.0 as int].denormal_mode == (DenormalMode { output: DenormalModeKind::Ieee, input: DenormalModeKind::Ieee })
                &&& final(self).functions()[f.0 as int].denormal_mode_f32 is None
                &&& final(self).functions()[f.0 as int].params@.len() == params@.len()
                &&& forall|k: int| 0 <= k < params@.len() ==> {
                    let a = #[trigger] final(self).functions()[f.0 as int].params@[k];
                    &&& a.0 == old(self).values().len() + k
                    &&& final(self).values()[a.0 as int].ty == params@[k]
                    &&& final(self).values()[a.0 as int].kind == (ValueKind::Argument { function: f, index: k as u32 })
                }
                &&& final(self).values().len() == old(self).values().len() + params@.len()
                &&& final(self).values().take(old(self).values().len() as int) == old(self).values()
                &&& final(self).types() == old(self).types()
                &&& final(self).blocks() == old(self).blocks()
            },
            (old(self).valid_type(ret) && forall|k: int| 0 <= k < params@.len() ==> old(self).valid_type(#[trigger] params@[k]))
                ==> r is Ok,
    {
        self.add_function_core(name, ret, params, false, None)
    }

    /// Adds a function `name` returning `ret` whose calls may pass
    /// arguments past the parameters `params`; as [`Module::add_function`].
    pub fn add_var_arg_function(&mut self, name: &str, ret: TypeId, params: &Vec<TypeId>) -> (r: IrResult<FunctionId>)
        requires
            old(self).wf(),
            params@.len() <= u32::MAX,
        ensures
            final(self).wf(),
            !old(self).valid_type(ret) || (exists|k: int| 0 <= k < params@.len() && !old(self).valid_type(#[trigger] params@[k]))
                ==> r == Err::<FunctionId, IrError>(IrError::ForeignValueId) && *final(self) == *old(self),
            r matches Ok(f) ==> {
                &&& f.0 == old(self).functions().len()
                &&& final(self).functions().len() == old(self).functions().len() + 1
                &&& final(self).functions().take(old(self).functions().len() as int) == old(self).functions()
                &&& final(self).functions()[f.0 as int].name@ == name@
                &&& final(self).functions()[f.0 as int].ret == ret
                &&& final(self).functions()[f.0 as int].blocks@.len() == 0
                &&& final(self).functions()[f.0 as int].var_arg
                &&& final(self).functions()[f.0 as int].intrinsic is None
                &&& final(self).functions()[f.0 as int].denormal_mode == (DenormalMode { output: DenormalModeKind::Ieee, input: DenormalModeKind::Ieee })
                &&& final(self).functions()[f.0 as int].denormal_mode_f32 is None
                &&& final(self).functions()[f.0 as int].params@.len() == params@.len()
                &&& forall|k: int| 0 <= k < params@.len() ==> {
                    let a = #[trigger] final(self).functions()[f.0 as int].params@[k];
                    &&& a.0 == old(self).values().len() + k
                    &&& final(self).values()[a.0 as int].ty == params@[k]
                    &&& final(self).values()[a.0 as int].kind == (ValueKind::Argument { function: f, index: k as u32 })
                }
                &&& final(self).values().len() == old(self).values().len() + params@.len()
                &&& final(self).values().take(old(self).values().len() as int) == old(self).values()
                &&& final(self).types() == old(self).types()
                &&& final(self).blocks() == old(self).blocks()
            },
            (old(self).valid_type(ret) && forall|k: int| 0 <= k < params@.len() ==> old(self).valid_type(#[trigger] params@[k]))
                ==> r is Ok,
    {
        self.add_function_core(name, ret, params, true, None)
    }

    /// Declares the intrinsic `id` as a function `name` returning `ret`
    /// with the parameters `params`; as [`Module::add_function`].
    pub fn add_intrinsic(&mut self, id: Intrinsic, name: &str, ret: TypeId, params: &Vec<TypeId>) -> (r: IrResult<FunctionId>)
        requires
            old(self).wf(),
            params@.len() <= u32::MAX,
        ensures
            final(self).wf(),
            !old(self).valid_type(ret) || (exists|k: int| 0 <= k < params@.len() && !old(self).valid_type(#[trigger] params@[k]))
                ==> r == Err::<FunctionId, IrError>(IrError::ForeignValueId) && *final(self) == *old(self),
            r matches Ok(f) ==> {
                &&& f.0 == old(self).functions().len()
                &&& final(self).functions().len() == old(self).functions().len() + 1
                &&& final(self).functions().take(old(self).functions().len() as int) == old(self).functions()
                &&& final(self).functions()[f.0 as int].name@ == name@
                &&& final(self).functions()[f.0 as int].ret == ret
                &&& final(self).functions()[f.0 as int].blocks@.len() == 0
                &&& !final(self).functions()[f.0 as int].var_arg
                &&& final(self).functions()[f.0 as int].intrinsic == Some(id)
                &&& final(self).functions()[f.0 as int].denormal_mode == (DenormalMode { output: DenormalModeKind::Ieee, input: DenormalModeKind::Ieee })
                &&& final(self).functions()[f.0 as int].denormal_mode_f32 is None
                &&& final(self).functions()[f.0 as int].params@.len() == params@.len()
                &&& forall|k: int| 0 <= k < params@.len() ==> {
                    let a = #[trigger] final(self).functions()[f.0 as int].params@[k];
                    &&& a.0 == old(self).values().len() + k
                    &&& final(self).values()[a.0 as int].ty == params@[k]
                    &&& final(self).values()[a.0 as int].kind == (ValueKind::Argument { function: f, index: k as u32 })
                }
                &&& final(self).values().len() == old(self).values().len() + params@.len()
                &&& final(self).values().take(old(self).values().len() as int) == old(self).values()
                &&& final(self).types() == old(self).types()
                &&& final(self).blocks() == old(self).blocks()
            },
            (old(self).valid_type(ret) && forall|k: int| 0 <= k < params@.len() ==> old(self).valid_type(#[trigger] params@[k]))
                ==> r is Ok,
    {
        self.add_function_core(name, ret, params, false, Some(id))
    }

    /// Adds a function, with `var_arg` telling whether it takes further
    /// arguments past its parameters.
    fn add_function_core(&mut self, name: &str, ret: TypeId, params: &Vec<TypeId>, var_arg: bool, intrinsic: Option<Intrinsic>) -> (r: IrResult<FunctionId>)
        requires
            old(self).wf(),
            params@.len() <= u32::MAX,
        ensures
            final(self).wf(),
            !old(self).valid_type(ret) || (exists|k: int| 0 <= k < params@.len() && !old(self).valid_type(#[trigger] params@[k]))
                ==> r == Err::<FunctionId, IrError>(IrError::ForeignValueId) && *final(self) == *old(self),
            r matches Ok(f) ==> {
                &&& f.0 == old(self).functions().len()
                &&& final(self).functions().len() == old(self).functions().len() + 1
                &&& final(self).functions().take(old(self).functions().len() as int) == old(self).functions()
                &&& final(self).functions()[f.0 as int].name@ == name@
                &&& final(self).functions()[f.0 as int].ret == ret
                &&& final(self).functions()[f.0 as int].blocks@.len() == 0
                &&& final(self).functions()[f.0 as int].var_arg == var_arg
                &&& final(self).functions()[f.0 as int].intrinsic == intrinsic
                &&& final(self).functions()[f.0 as int].denormal_mode == (DenormalMode { output: DenormalModeKind::Ieee, input: DenormalModeKind::Ieee })
                &&& final(self).functions()[f.0 as int].denormal_mode_f32 is None
                &&& final(self).functions()[f.0 as int].params@.len() == params@.len()
                &&& forall|k: int| 0 <= k < params@.len() ==> {
                    let a = #[trigger] final(self).functions()[f.0 as int].params@[k];
                    &&& a.0 == old(self).values().len() + k
                    &&& final(self).values()[a.0 as int].ty == params@[k]
                    &&& final(self).values()[a.0 as int].kind == (ValueKind::Argument { function: f, index: k as u32 })
                }
                &&& final(self).values().len() == old(self).values().len() + params@.len()
                &&& final(self).values().take(old(self).values().len() as int) == old(self).values()
                &&& final(self).types() == old(self).types()
                &&& final(self).blocks() == old(self).blocks()
            },
            (old(self).valid_type(ret) && forall|k: int| 0 <= k < params@.len() ==> old(self).valid_type(#[trigger] params@[k]))
                ==> r is Ok,
    {
        if ret.0 >= self.types.len() {
            return Err(IrError::ForeignValueId);
        }
        let np = params.len();
        for k in 0..np
            invariant
                np == params@.len(),
                *self == *old(self),
                self.wf(),
                forall|j: int| 0 <= j < k ==> (#[trigger] params@[j]).0 < self.types@.len(),
        {
            if params[k].0 >= self.types.len() {
                return Err(IrError::ForeignValueId);
            }
        }
        let fid = FunctionId(self.functions.len());
        let base = self.values.len();
        let ghost old_m = *self;
        let mut args: Vec<ValueId> = Vec::new();
        for k in 0..np
            invariant
                np == params@.len(),
                np <= u32::MAX,
                fid.0 == old_m.functions().len(),
                base == old_m.values().len(),
                forall|j: int| 0 <= j < np ==> (#[trigger] params@[j]).0 < self.types@.len(),
                self.types() == old_m.types(),
                self.blocks() == old_m.blocks(),
                self.functions() == old_m.functions(),
                self.name_spec() == old_m.name_spec(),
                self.values().len() == base + k,
                self.values().take(base as int) == old_m.values(),
                args@.len() == k,
                forall|j: int| 0 <= j < k ==> {
                    let a = #[trigger] args@[j];
                    &&& a.0 == base + j
                    &&& self.values()[a.0 as int].ty == params@[j]
                    &&& self.values()[a.0 as int].kind == (ValueKind::Argument { function: fid, index: j as u32 })
                },
                forall|t: int| 0 <= t < self.types().len() ==> type_refs_below(#[trigger] self.types()[t], t),
                forall|t: int| 0 <= t < self.types().len() ==> struct_refs_ok(#[trigger] self.types()[t], t, self.structs()),
                forall|v: int| 0 <= v < self.values().len() ==> value_refs_ok(#[trigger] self.values()[v],
                    self.types().len(), self.values().len(), self.blocks().len(), self.functions().len() + 1),
                forall|b: int| 0 <= b < self.blocks().len() ==> block_refs_ok(#[trigger] self.blocks()[b],
                    self.values().len(), self.functions().len()),
                forall|f: int| 0 <= f < self.functions().len() ==> function_refs_ok(#[trigger] self.functions()[f],
                    self.types().len(), self.values().len(), self.blocks().len()),
        {
            let ghost before = *self;
            let vd = ValueData { ty: params[k], kind: ValueKind::Argument { function: fid, index: k as u32 }, name: String::new() };
            let n = self.values.len();
            self.values.push(vd);
            proof {
                let m = &*self;
                assert forall|v: int| 0 <= v < m.values().len() implies value_refs_ok(#[trigger] m.values()[v],
                    m.types().len(), m.values().len(), m.blocks().len(), m.functions().len() + 1) by {
                    if v < n {
                        assert(value_refs_ok(before.values()[v], before.types().len(), before.values().len(),
                            before.blocks().len(), before.functions().len() + 1));
                        assert(m.values()[v] == before.values()[v]);
                    }
                }
                assert forall|b: int| 0 <= b < m.blocks().len() implies block_refs_ok(#[trigger] m.blocks()[b],
                    m.values().len(), m.functions().len()) by {
                    assert(block_refs_ok(before.blocks()[b], before.values().len(), before.functions().len()));
                }
                assert forall|f: int| 0 <= f < m.functions().len() implies function_refs_ok(#[trigger] m.functions()[f],
                    m.types().len(), m.values().len(), m.blocks().len()) by {
                    assert(function_refs_ok(before.functions()[f], before.types().len(), before.values().len(), before.blocks().len()));
                }
                assert(m.values().take(base as int) =~= old_m.values()) by {
                    assert(before.values().take(base as int) == old_m.values());
                }
            }
            args.push(ValueId(n));
            proof {
                assert forall|j: int| 0 <= j < k + 1 implies {
                    let a = #[trigger] args@[j];
                    &&& a.0 == base + j
                    &&& self.values()[a.0 as int].ty == params@[j]
                    &&& self.values()[a.0 as int].kind == (ValueKind::Argument { function: fid, index: j as u32 })
                } by {
                    if j < k {
                        assert(self.values()[base + j] == before.values()[base + j]);
                    }
                }
            }
        }
        let fd = FunctionData { name: name.to_owned(), ret, params: args, blocks: Vec::new(), var_arg,
            denormal_mode: DenormalMode::ieee(), denormal_mode_f32: None, intrinsic };
        let ghost before = *self;
        self.functions.push(fd);
        proof {
            let m = &*self;
            assert forall|v: int| 0 <= v < m.values().len() implies value_refs_ok(#[trigger] m.values()[v],
                m.types().len(), m.values().len(), m.blocks().len(), m.functions().len()) by {
                assert(value_refs_ok(before.values()[v], before.types().len(), before.values().len(),
                    before.blocks().len(), before.functions().len() + 1));
            }
            assert forall|b: int| 0 <= b < m.blocks().len() implies block_refs_ok(#[trigger] m.blocks()[b],
                m.values().len(), m.functions().len()) by {
                assert(block_refs_ok(before.blocks()[b], before.values().len(), before.functions().len()));
            }
            assert forall|f: int| 0 <= f < m.functions().len() implies function_refs_ok(#[trigger] m.functions()[f],
                m.types().len(), m.values().len(), m.blocks().len()) by {
                if f < fid.0 {
                    assert(function_refs_ok(before.functions()[f], before.types().len(), before.values().len(), before.blocks().len()));
                    assert(m.functions()[f] == before.functions()[f]);
                }
            }
            assert(m.functions().take(old_m.functions().len() as int) =~= old_m.functions());
        }
        Ok(fid)
    }

    /// Appends an empty basic block named `name` to function `f`.
    pub fn append_basic_block(&mut self, f: FunctionId, name: &str) -> (r: BlockId)
        requires
            old(self).wf(),
            old(self).valid_function(f),
        ensures
            final(self).wf(),
            r.0 == old(self).blocks().len(),
            final(self).blocks() == old(self).blocks().push(BlockData { name: final(self).blocks()[r.0 as int].name, function: f, insts: final(self).blocks()[r.0 as int].insts, params: 0 }),
            final(self).blocks()[r.0 as int].name@ == name@,
            final(self).blocks()[r.0 as int].insts@.len() == 0,
            final(self).blocks()[r.0 as int].function == f,
            final(self).blocks()[r.0 as int].params == 0,
            final(self).functions().len() == old(self).functions().len(),
            final(self).functions()[f.0 as int].blocks@ == old(self).functions()[f.0 as int].blocks@.push(r),
            final(self).functions()[f.0 as int].name == old(self).functions()[f.0 as int].name,
            final(self).functions()[f.0 as int].ret == old(self).functions()[f.0 as int].ret,
            final(self).functions()[f.0 as int].params == old(self).functions()[f.0 as int].params,
            forall|g: int| 0 <= g < old(self).functions().len() && g != f.0 ==> #[trigger] final(self).functions()[g] == old(self).functions()[g],
            final(self).values() == old(self).values(),
            final(self).types() == old(self).types(),
            final(self).name_spec() == old(self).name_spec(),
    {
        let bid = BlockId(self.blocks.len());
        let bd = BlockData { name: name.to_owned(), function: f, insts: Vec::new(), params: 0 };
        let ghost before = *self;
        self.blocks.push(bd);
        self.functions[f.0].blocks.push(bid);
        proof {
            let m = &*self;
            assert forall|v: int| 0 <= v < m.values().len() implies value_refs_ok(#[trigger] m.values()[v],
                m.types().len(), m.values().len(), m.blocks().len(), m.functions().len()) by {
                assert(value_refs_ok(before.values()[v], before.types().len(), before.values().len(),
                    before.blocks().len(), before.functions().len()));
            }
            assert forall|b: int| 0 <= b < m.blocks().len() implies block_refs_ok(#[trigger] m.blocks()[b],
                m.values().len(), m.functions().len()) by {
                if b < bid.0 {
                    assert(block_refs_ok(before.blocks()[b], before.values().len(), before.functions().len()));
                    assert(m.blocks()[b] == before.blocks()[b]);
                }
            }
            assert forall|g: int| 0 <= g < m.functions().len() implies function_refs_ok(#[trigger] m.functions()[g],
                m.types().len(), m.values().len(), m.blocks().len()) by {
                assert(function_refs_ok(before.functions()[g], before.types().len(), before.values().len(), before.blocks().len()));
                if g == f.0 {
                    let fb = m.functions()[g].blocks@;
                    assert forall|k: int| 0 <= k < fb.len() implies (#[trigger] fb[k]).0 < m.blocks().len() by {
                        if k < fb.len() - 1 {
                            assert(fb[k] == before.functions()[g].blocks@[k]);
                        }
                    }
                }
            }
        }
        bid
    }

    /// Position of the first occurrence of `anchor` in block `b`, if any.
    fn find_in_block(&self, b: BlockId, anchor: ValueId) -> (r: Option<usize>)
        requires
            self.valid_block(b),
        ensures
            r matches Some(p) ==> first_index(self.blocks()[b.0 as int].insts@, anchor, p as int),
            r is None ==> !self.blocks()[b.0 as int].insts@.contains(anchor),
    {
        let insts = &self.blocks[b.0].insts;
        let n = insts.len();
        for i in 0..n
            invariant
                n == insts@.len(),
                insts@ == self.blocks()[b.0 as int].insts@,
                forall|j: int| 0 <= j < i ==> insts@[j] != anchor,
        {
            if insts[i] == anchor {
                return Some(i);
            }
        }
        None
    }

    /// Adds an instruction to block `b`, before the first occurrence of
    /// `before` when given and present, else at the end.
    pub fn insert_instruction(&mut self, b: BlockId, before: Option<ValueId>, ty: TypeId, op: Opcode,
        operands: Vec<ValueId>, targets: Vec<BlockId>, flags: InstFlags, name: &str) -> (r: ValueId)
        requires
            old(self).wf(),
            old(self).valid_block(b),
            old(self).valid_type(ty),
            forall|k: int| 0 <= k < operands@.len() ==> old(self).valid_value(#[trigger] operands@[k]),
            forall|k: int| 0 <= k < targets@.len() ==> old(self).valid_block(#[trigger] targets@[k]),
        ensures
            inst_added(*old(self), *final(self), r, b, before, ty, op, operands@, targets@, flags, name@),
            final(self).values()[r.0 as int].kind->mask@.len() == 0,
            final(self).values()[r.0 as int].kind->indices@.len() == 0,
    {
        self.insert_with_extra(b, before, ty, op, operands, targets, flags, Vec::new(), Vec::new(), name)
    }

    /// Adds an instruction `op operands` of type `ty` carrying the
    /// aggregate indices `indices` to block `b` at the insertion point
    /// `before`.
    pub fn insert_indexed(&mut self, b: BlockId, before: Option<ValueId>, ty: TypeId, op: Opcode, operands: Vec<ValueId>,
        indices: Vec<u32>, name: &str) -> (r: ValueId)
        requires
            old(self).wf(),
            old(self).valid_block(b),
            old(self).valid_type(ty),
            forall|k: int| 0 <= k < operands@.len() ==> old(self).valid_value(#[trigger] operands@[k]),
        ensures
            inst_added(*old(self), *final(self), r, b, before, ty, op, operands@, Seq::<BlockId>::empty(), no_flags(), name@),
            final(self).values()[r.0 as int].kind->mask@.len() == 0,
            final(self).values()[r.0 as int].kind->indices@ == indices@,
    {
        self.insert_with_extra(b, before, ty, op, operands, Vec::new(), InstFlags::none(), Vec::new(), indices, name)
    }

    /// Adds `shufflevector lhs, rhs, mask` of type `ty` to block `b` at the
    /// insertion point `before`.
    pub fn insert_shuffle(&mut self, b: BlockId, before: Option<ValueId>, ty: TypeId, lhs: ValueId, rhs: ValueId,
        mask: Vec<ShuffleMaskElem>, name: &str) -> (r: ValueId)
        requires
            old(self).wf(),
            old(self).valid_block(b),
            old(self).valid_type(ty),
            old(self).valid_value(lhs),
            old(self).valid_value(rhs),
        ensures
            inst_added(*old(self), *final(self), r, b, before, ty, Opcode::ShuffleVector, seq![lhs, rhs],
                Seq::<BlockId>::empty(), no_flags(), name@),
            final(self).values()[r.0 as int].kind->mask@ == mask@,
            final(self).values()[r.0 as int].kind->indices@.len() == 0,
    {
        let ops = vec![lhs, rhs];
        assert(ops@ =~= seq![lhs, rhs]);
        self.insert_with_extra(b, before, ty, Opcode::ShuffleVector, ops, Vec::new(), InstFlags::none(), mask, Vec::new(), name)
    }

    /// Adds an instruction carrying the shuffle mask `mask` and the
    /// aggregate indices `indices`.
    fn insert_with_extra(&mut self, b: BlockId, before: Option<ValueId>, ty: TypeId, op: Opcode,
        operands: Vec<ValueId>, targets: Vec<BlockId>, flags: InstFlags, mask: Vec<ShuffleMaskElem>, indices: Vec<u32>,
        name: &str) -> (r: ValueId)
        requires
            old(self).wf(),
            old(self).valid_block(b),
            old(self).valid_type(ty),
            forall|k: int| 0 <= k < operands@.len() ==> old(self).valid_value(#[trigger] operands@[k]),
            forall|k: int| 0 <= k < targets@.len() ==> old(self).valid_block(#[trigger] targets@[k]),
        ensures
            inst_added(*old(self), *final(self), r, b, before, ty, op, operands@, targets@, flags, name@),
            final(self).values()[r.0 as int].kind->mask@ == mask@,
            final(self).values()[r.0 as int].kind->indices@ == indices@,
    {
        let pos = match before {
            Some(a) => self.find_in_block(b, a),
            None => None,
        };
        let ghost ops = operands@;
        let ghost ts = targets@;
        let is_void = match self.types[ty.0] {
            TypeData::Void => true,
            _ => false,
        };
        let id = ValueId(self.values.len());
        let mut vu: Vec<(ValueId, ValueId)> = Vec::new();
        for k in 0..operands.len()
            invariant
                vu@ == operands@.take(k as int).map_values(|o: ValueId| (o, id)),
        {
            vu.push((operands[k], id));
            assert(vu@ =~= operands@.take(k + 1).map_values(|o: ValueId| (o, id)));
        }
        assert(operands@.take(operands@.len() as int) =~= operands@);
        let mut bu: Vec<(BlockId, ValueId)> = Vec::new();
        for k in 0..targets.len()
            invariant
                bu@ == targets@.take(k as int).map_values(|t: BlockId| (t, id)),
        {
            bu.push((targets[k], id));
            assert(bu@ =~= targets@.take(k + 1).map_values(|t: BlockId| (t, id)));
        }
        assert(targets@.take(targets@.len() as int) =~= targets@);
        let vd = ValueData { ty, kind: ValueKind::Instruction { op, operands, targets, block: b, flags, mask, indices },
            name: if is_void { String::new() } else { name.to_owned() } };
        let v = self.push_value(vd);
        self.uses.append(&mut vu);
        self.block_uses.append(&mut bu);
        let ghost mid = *self;
        match pos {
            Some(p) => {
                self.blocks[b.0].insts.insert(p, v);
            },
            None => {
                self.blocks[b.0].insts.push(v);
            },
        }
        proof {
            let m = &*self;
            assert forall|bb: int| 0 <= bb < m.blocks().len() implies block_refs_ok(#[trigger] m.blocks()[bb],
                m.values().len(), m.functions().len()) by {
                assert(block_refs_ok(mid.blocks()[bb], mid.values().len(), mid.functions().len()));
                if bb == b.0 {
                    let is = m.blocks()[bb].insts@;
                    let os = mid.blocks()[bb].insts@;
                    assert forall|k: int| 0 <= k < is.len() implies (#[trigger] is[k]).0 < m.values().len() by {
                        match pos {
                            Some(p) => {
                                if k < p {
                                    assert(is[k] == os[k]);
                                } else if k > p {
                                    assert(is[k] == os[k - 1]);
                                }
                            },
                            None => {
                                if k < os.len() {
                                    assert(is[k] == os[k]);
                                }
                            },
                        }
                    }
                }
            }
            assert forall|vv: int| 0 <= vv < m.values().len() implies value_refs_ok(#[trigger] m.values()[vv],
                m.types().len(), m.values().len(), m.blocks().len(), m.functions().len()) by {
                assert(value_refs_ok(mid.values()[vv], mid.types().len(), mid.values().len(),
                    mid.blocks().len(), mid.functions().len()));
            }
            assert forall|f: int| 0 <= f < m.functions().len() implies function_refs_ok(#[trigger] m.functions()[f],
                m.types().len(), m.values().len(), m.blocks().len()) by {
                assert(function_refs_ok(mid.functions()[f], mid.types().len(), mid.values().len(), mid.blocks().len()));
            }
            assert(m.values().take(old(self).values().len() as int) =~= old(self).values());
            match before {
                Some(a) => {
                    match pos {
                        Some(p) => {
                            assert(old(self).blocks()[b.0 as int].insts@.contains(a));
                        },
                        None => {},
                    }
                },
                None => {},
            }
        }
        v
    }
}

/// The incoming values and blocks of the phi `v`, if it is one.
pub open spec fn phi_incoming(m: Module, v: ValueId) -> Option<(Seq<ValueId>, Seq<BlockId>)> {
    match m.values()[v.0 as int].kind {
        ValueKind::Instruction { op: Opcode::Phi, operands, targets, .. } => Some((operands@, targets@)),
        _ => None,
    }
}

impl Module {
    /// Adds the incoming pair (`value`, `block`) to the phi `phi`.
    pub fn add_phi_incoming(&mut self, phi: ValueId, value: ValueId, block: BlockId)
        requires
            old(self).wf(),
            old(self).valid_value(phi),
            old(self).valid_value(value),
            old(self).valid_block(block),
            phi_incoming(*old(self), phi) is Some,
        ensures
            final(self).wf(),
            final(self).types() == old(self).types(),
            final(self).blocks() == old(self).blocks(),
            final(self).functions() == old(self).functions(),
            final(self).name_spec() == old(self).name_spec(),
            final(self).values().len() == old(self).values().len(),
            forall|k: int| 0 <= k < old(self).values().len() && k != phi.0 ==> #[trigger] final(self).values()[k] == old(self).values()[k],
            final(self).values()[phi.0 as int].ty == old(self).values()[phi.0 as int].ty,
            final(self).values()[phi.0 as int].name == old(self).values()[phi.0 as int].name,
            inst_block(*final(self), phi) == inst_block(*old(self), phi),
            phi_incoming(*final(self), phi) == Some((phi_incoming(*old(self), phi).unwrap().0.push(value),
                phi_incoming(*old(self), phi).unwrap().1.push(block))),
            final(self).uses() == old(self).uses().push((value, phi)),
            final(self).block_uses() == old(self).block_uses().push((block, phi)),
    {
        let ghost o = *self;
        let (ty, blk, flags) = match &self.values[phi.0].kind {
            ValueKind::Instruction { block: b, flags: f, .. } => (self.values[phi.0].ty, *b, *f),
            _ => (self.values[phi.0].ty, BlockId(0), InstFlags::none()),
        };
        let mut ops: Vec<ValueId> = Vec::new();
        let mut ts: Vec<BlockId> = Vec::new();
        let mut mk: Vec<ShuffleMaskElem> = Vec::new();
        let mut ix: Vec<u32> = Vec::new();
        match &self.values[phi.0].kind {
            ValueKind::Instruction { operands, targets, mask, indices, .. } => {
                for i in 0..indices.len()
                    invariant
                        ix@ == indices@.take(i as int),
                {
                    ix.push(indices[i]);
                    assert(ix@ =~= indices@.take(i + 1));
                }
                assert(ix@ =~= indices@);
                for i in 0..mask.len()
                    invariant
                        mk@ == mask@.take(i as int),
                {
                    mk.push(mask[i]);
                    assert(mk@ =~= mask@.take(i + 1));
                }
                assert(mk@ =~= mask@);
                let n = operands.len();
                for i in 0..n
                    invariant
                        n == operands@.len(),
                        ops@ == operands@.take(i as int),
                {
                    ops.push(operands[i]);
                    assert(ops@ =~= operands@.take(i + 1));
                }
                let k = targets.len();
                for i in 0..k
                    invariant
                        k == targets@.len(),
                        ts@ == targets@.take(i as int),
                {
                    ts.push(targets[i]);
                    assert(ts@ =~= targets@.take(i + 1));
                }
                assert(ops@ =~= operands@);
                assert(ts@ =~= targets@);
            },
            _ => {},
        }
        ops.push(value);
        ts.push(block);
        let name = self.values[phi.0].name.clone();
        proof {
            assert(value_refs_ok(o.values()[phi.0 as int], o.types().len(), o.values().len(), o.blocks().len(), o.functions().len()));
        }
        self.values[phi.0] = ValueData { ty, kind: ValueKind::Instruction { op: Opcode::Phi, operands: ops, targets: ts, block: blk, flags, mask: mk, indices: ix }, name };
        self.uses.push((value, phi));
        self.block_uses.push((block, phi));
        proof {
            let m = &*self;
            assert forall|v: int| 0 <= v < m.values().len() implies value_refs_ok(#[trigger] m.values()[v],
                m.types().len(), m.values().len(), m.blocks().len(), m.functions().len()) by {
                if v != phi.0 {
                    assert(m.values()[v] == o.values()[v]);
                    assert(value_refs_ok(o.values()[v], o.types().len(), o.values().len(), o.blocks().len(), o.functions().len()));
                }
            }
            assert forall|b: int| 0 <= b < m.blocks().len() implies block_refs_ok(#[trigger] m.blocks()[b],
                m.values().len(), m.functions().len()) by {
                assert(block_refs_ok(o.blocks()[b], o.values().len(), o.functions().len()));
            }
            assert forall|f: int| 0 <= f < m.functions().len() implies function_refs_ok(#[trigger] m.functions()[f],
                m.types().len(), m.values().len(), m.blocks().len()) by {
                assert(function_refs_ok(o.functions()[f], o.types().len(), o.values().len(), o.blocks().len()));
            }
        }
    }
}

/// Block of the instruction `v`, if `v` is one.
pub open spec fn inst_block(m: Module, v: ValueId) -> Option<BlockId> {
    match m.values()[v.0 as int].kind {
        ValueKind::Instruction { block, .. } => Some(block),
        _ => None,
    }
}

impl Module {
    /// Number of parameters of block `b`.
    pub fn block_params(&self, b: BlockId) -> (r: usize)
        requires
            self.valid_block(b),
        ensures
            r == self.blocks()[b.0 as int].params,
    {
        self.blocks[b.0].params
    }

    /// Sets the number of parameters of block `b` to `n`.
    pub fn set_block_params(&mut self, b: BlockId, n: usize)
        requires
            old(self).wf(),
            old(self).valid_block(b),
        ensures
            final(self).wf(),
            final(self).blocks().len() == old(self).blocks().len(),
            final(self).blocks()[b.0 as int].params == n,
            final(self).blocks()[b.0 as int].name == old(self).blocks()[b.0 as int].name,
            final(self).blocks()[b.0 as int].function == old(self).blocks()[b.0 as int].function,
            final(self).blocks()[b.0 as int].insts == old(self).blocks()[b.0 as int].insts,
            forall|j: int| 0 <= j < old(self).blocks().len() && j != b.0 ==> #[trigger] final(self).blocks()[j] == old(self).blocks()[j],
            final(self).values() == old(self).values(),
            final(self).types() == old(self).types(),
            final(self).functions() == old(self).functions(),
            final(self).name_spec() == old(self).name_spec(),
    {
        let ghost o = *self;
        self.blocks[b.0].params = n;
        proof {
            let m = &*self;
            assert forall|v: int| 0 <= v < m.values().len() implies value_refs_ok(#[trigger] m.values()[v],
                m.types().len(), m.values().len(), m.blocks().len(), m.functions().len()) by {
                assert(value_refs_ok(o.values()[v], o.types().len(), o.values().len(), o.blocks().len(), o.functions().len()));
            }
            assert forall|bb: int| 0 <= bb < m.blocks().len() implies block_refs_ok(#[trigger] m.blocks()[bb],
                m.values().len(), m.functions().len()) by {
                assert(block_refs_ok(o.blocks()[bb], o.values().len(), o.functions().len()));
            }
            assert forall|f: int| 0 <= f < m.functions().len() implies function_refs_ok(#[trigger] m.functions()[f],
                m.types().len(), m.values().len(), m.blocks().len()) by {
                assert(function_refs_ok(o.functions()[f], o.types().len(), o.values().len(), o.blocks().len()));
            }
        }
    }
}

} // verus!
