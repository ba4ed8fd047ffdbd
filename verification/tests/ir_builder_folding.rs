use lib::error::{IrError, IrResult, TypeKindLabel};
use lib::ir::{BinaryOpcode, CastOpcode, FastMathFlags, Module, TypeId, ValueId};
use lib::ir_builder::folder::{Folded, IRBuilderFolder};
use lib::ir_builder::IrBuilder;

/// A folder whose typed integer hooks always answer with the same stored
/// value, whatever width the builder asked for.
#[derive(Debug, Clone, Copy)]
struct HostileTypedFolder {
    stored: ValueId,
}

impl IRBuilderFolder for HostileTypedFolder {
    fn fold_int_bin_op(&self, _m: &Module, _opcode: BinaryOpcode, _lhs: ValueId, _rhs: ValueId) -> IrResult<Option<Folded>> {
        Ok(Some(Folded::Value(self.stored)))
    }

    fn fold_cast_to_int(&self, _m: &Module, _opcode: CastOpcode, _value: ValueId, _dest_ty: TypeId) -> IrResult<Option<Folded>> {
        Ok(Some(Folded::Value(self.stored)))
    }
}

/// Float twin of [`HostileTypedFolder`]: its typed float hooks always
/// answer with a stored `double`.
#[derive(Debug, Clone, Copy)]
struct HostileTypedFpFolder {
    stored: ValueId,
}

impl IRBuilderFolder for HostileTypedFpFolder {
    fn fold_fp_bin_op(&self, _m: &Module, _opcode: BinaryOpcode, _lhs: ValueId, _rhs: ValueId, _fmf: FastMathFlags) -> IrResult<Option<Folded>> {
        Ok(Some(Folded::Value(self.stored)))
    }

    fn fold_cast_to_fp(&self, _m: &Module, _opcode: CastOpcode, _value: ValueId, _dest_ty: TypeId) -> IrResult<Option<Folded>> {
        Ok(Some(Folded::Value(self.stored)))
    }
}

fn block_len<F: IRBuilderFolder>(b: &IrBuilder<F>) -> usize {
    b.module().block_instructions(b.insert_block().unwrap()).len()
}

#[test]
fn hostile_native_typed_override_wrong_width_rejected_by_accept_folded_int() -> Result<(), IrError> {
    let mut m = Module::new("hostile-typed-folder");
    let i32_dyn_ty = m.custom_width_int_type(32)?;
    let i64_dyn_ty = m.custom_width_int_type(64)?;
    let ret = m.i32_type();
    let f = m.add_function("f", ret, &vec![])?;
    let entry = m.append_basic_block(f, "entry");

    let stored = m.const_zero(i64_dyn_ty)?;
    let lhs = m.const_int(i32_dyn_ty, 1)?;
    let rhs = m.const_int(i32_dyn_ty, 2)?;
    let folder = HostileTypedFolder { stored };
    let mut b = IrBuilder::with_folder(m, folder).position_at_end(entry);

    let err = b
        .int_add(lhs, rhs, "sum")
        .expect_err("wrong-width native-override fold result is rejected");

    assert_eq!(err, IrError::OperandWidthMismatch { lhs: 32, rhs: 64 });
    assert_eq!(block_len(&b), 0);
    Ok(())
}

#[test]
fn hostile_native_typed_override_wrong_width_rejected_at_static_width() -> Result<(), IrError> {
    let mut m = Module::new("hostile-typed-folder-static");
    let i32_ty = m.i32_type();
    let i64_ty = m.i64_type();
    let ret = m.i32_type();
    let f = m.add_function("f", ret, &vec![])?;
    let entry = m.append_basic_block(f, "entry");

    let stored = m.const_zero(i64_ty)?;
    let lhs = m.const_int(i32_ty, 1)?;
    let rhs = m.const_int(i32_ty, 2)?;
    let folder = HostileTypedFolder { stored };
    let mut b = IrBuilder::with_folder(m, folder).position_at_end(entry);

    let err = b
        .int_add(lhs, rhs, "sum")
        .expect_err("wrong-width fold result must be rejected at a static width too");

    assert_eq!(err, IrError::OperandWidthMismatch { lhs: 32, rhs: 64 });
    assert_eq!(block_len(&b), 0);
    Ok(())
}

#[test]
fn hostile_native_typed_override_wrong_width_rejected_by_accept_folded_cast_int() -> Result<(), IrError> {
    let mut m = Module::new("hostile-typed-folder-cast-int");
    let i32_ty = m.i32_type();
    let i64_ty = m.i64_type();
    let ret = m.i32_type();
    let f = m.add_function("f", ret, &vec![])?;
    let entry = m.append_basic_block(f, "entry");

    let stored = m.const_zero(i64_ty)?;
    let src = m.const_int(i64_ty, 1)?;
    let folder = HostileTypedFolder { stored };
    let mut b = IrBuilder::with_folder(m, folder).position_at_end(entry);

    let err = b
        .trunc(src, i32_ty, "narrowed")
        .expect_err("wrong-width cast fold result must be rejected at a static width");

    assert_eq!(err, IrError::OperandWidthMismatch { lhs: 32, rhs: 64 });
    assert_eq!(block_len(&b), 0);
    Ok(())
}

#[test]
fn hostile_native_typed_override_wrong_kind_rejected_by_accept_folded_fp() -> Result<(), IrError> {
    let mut m = Module::new("hostile-typed-fp-folder");
    let f32_ty = m.f32_type();
    let f64_ty = m.f64_type();
    let ret = m.i32_type();
    let f = m.add_function("f", ret, &vec![])?;
    let entry = m.append_basic_block(f, "entry");

    let stored = m.const_float_bits(f64_ty, 0.0_f64.to_bits())?;
    let lhs = m.const_float_bits(f32_ty, u64::from(1.0_f32.to_bits()))?;
    let rhs = m.const_float_bits(f32_ty, u64::from(2.0_f32.to_bits()))?;
    let folder = HostileTypedFpFolder { stored };
    let mut b = IrBuilder::with_folder(m, folder).position_at_end(entry);

    let err = b
        .fp_add(lhs, rhs, "sum")
        .expect_err("wrong-kind fold result must be rejected at a static kind");

    assert_eq!(
        err,
        IrError::TypeMismatch {
            expected: TypeKindLabel::Float,
            got: TypeKindLabel::Double,
        }
    );
    assert_eq!(block_len(&b), 0);
    Ok(())
}

#[test]
fn hostile_native_typed_override_wrong_kind_rejected_by_accept_folded_cast_fp() -> Result<(), IrError> {
    let mut m = Module::new("hostile-typed-fp-folder-cast");
    let f32_ty = m.f32_type();
    let f64_ty = m.f64_type();
    let ret = m.i32_type();
    let f = m.add_function("f", ret, &vec![])?;
    let entry = m.append_basic_block(f, "entry");

    let stored = m.const_float_bits(f64_ty, 0.0_f64.to_bits())?;
    let src = m.const_float_bits(f64_ty, 1.0_f64.to_bits())?;
    let folder = HostileTypedFpFolder { stored };
    let mut b = IrBuilder::with_folder(m, folder).position_at_end(entry);

    let err = b
        .fp_trunc(src, f32_ty, "narrowed")
        .expect_err("wrong-kind cast fold result must be rejected at a static kind");

    assert_eq!(
        err,
        IrError::TypeMismatch {
            expected: TypeKindLabel::Float,
            got: TypeKindLabel::Double,
        }
    );
    assert_eq!(block_len(&b), 0);
    Ok(())
}
