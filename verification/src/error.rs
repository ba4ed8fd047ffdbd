//! Errors reported by IR construction and analysis.

use vstd::prelude::*;

verus! {

/// Coarse kind of an IR type, used to name types in errors.
#[derive(Debug, Clone, Copy, PartialEq, Eq, Structural)]
pub enum TypeKindLabel {
    Void,
    Half,
    BFloat,
    Float,
    Double,
    X86Fp80,
    Fp128,
    PpcFp128,
    Label,
    Token,
    Integer,
    Pointer,
    Function,
    Struct,
    Array,
    FixedVector,
    ScalableVector,
}

/// Error raised by a rejected IR operation.
#[allow(inconsistent_fields)]
#[derive(Debug, Clone, PartialEq, Eq)]
pub enum IrError {
    /// Two integer operands (or an operand and a result) differ in width.
    OperandWidthMismatch { lhs: u32, rhs: u32 },
    /// A value of one kind of type was given where another was expected.
    TypeMismatch { expected: TypeKindLabel, got: TypeKindLabel },
    /// The operation is not allowed in the current state.
    InvalidOperation { message: &'static str },
    /// A value id does not name a value of this module.
    ForeignValueId,
    /// A `ret` does not match the function's return type.
    ReturnTypeMismatch { expected: TypeKindLabel, got: TypeKindLabel },
    /// A call passes the wrong number of arguments.
    CallArgumentCountMismatch { expected: u32, got: u32 },
    /// A call argument has another type than its parameter; the types are
    /// given in their textual form.
    CallArgumentTypeMismatch { index: u32, expected: String, got: String },
    /// Integer width outside the supported range.
    InvalidIntegerWidth { bits: u32 },
    /// An aggregate index is past the end of the aggregate.
    AggregateIndexOutOfRange { index: u32, count: u64 },
    /// The indices of a `getelementptr` do not index into its source type.
    GepInvalidIndices,
    /// A phi gets two different values from one predecessor block,
    /// named `block`.
    AmbiguousPhiIncoming { block: String },
    /// A branch carries a number of arguments other than the number of
    /// parameters of its target block.
    PhiArgArityMismatch { expected: usize, got: usize },
}

/// Result of an IR operation.
pub type IrResult<T> = Result<T, IrError>;

} // verus!
