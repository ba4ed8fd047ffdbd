use lib::error::{IrError, TypeKindLabel};
use lib::ir::{BlockId, FunctionId, IntPredicate, InstFlags, Module, Opcode, TypeId, ValueId, ValueKind};
use lib::ir_builder::no_folder::NoFolder;
use lib::ir_builder::{InsertPoint, IrBuilder};
use lib::iter::BlockCursor;

struct Fixture {
    m: Module,
    f: FunctionId,
    entry: BlockId,
    i8_ty: TypeId,
    i32_ty: TypeId,
    f32_ty: TypeId,
    arg: ValueId,
}

fn fixture() -> Fixture {
    let mut m = Module::new("ops");
    let i8_ty = m.i8_type();
    let i32_ty = m.i32_type();
    let f32_ty = m.f32_type();
    let f = m.add_function("f", i32_ty, &vec![i32_ty]).unwrap();
    let entry = m.append_basic_block(f, "entry");
    let arg = m.function_params(f)[0];
    Fixture { m, f, entry, i8_ty, i32_ty, f32_ty, arg }
}

fn const_u64(m: &Module, v: ValueId) -> Option<u64> {
    match &m.value(v).kind {
        ValueKind::ConstInt { value } => value.try_zext_u64(),
        _ => None,
    }
}

fn opcode(m: &Module, v: ValueId) -> Option<Opcode> {
    match &m.value(v).kind {
        ValueKind::Instruction { op, .. } => Some(*op),
        _ => None,
    }
}

#[test]
fn default_folder_folds_constant_arithmetic() {
    let mut fx = fixture();
    let a = fx.m.const_int(fx.i32_ty, 40).unwrap();
    let b = fx.m.const_int(fx.i32_ty, 2).unwrap();
    let mut bld = IrBuilder::new(fx.m).position_at_end(fx.entry);
    let sum = bld.int_add(a, b, "sum").unwrap();
    let prod = bld.int_mul(sum, b, "prod").unwrap();
    let m = bld.module();
    assert_eq!(const_u64(m, sum), Some(42));
    assert_eq!(const_u64(m, prod), Some(84));
    assert_eq!(m.block_instructions(fx.entry).len(), 0);
}

#[test]
fn default_folder_wraps_and_declines_division_by_zero() {
    let mut fx = fixture();
    let a = fx.m.const_int(fx.i8_ty, 250).unwrap();
    let b = fx.m.const_int(fx.i8_ty, 10).unwrap();
    let z = fx.m.const_int(fx.i8_ty, 0).unwrap();
    let mut bld = IrBuilder::new(fx.m).position_at_end(fx.entry);
    let sum = bld.int_add(a, b, "sum").unwrap();
    assert_eq!(const_u64(bld.module(), sum), Some(4));
    let q = bld.int_udiv(a, z, "q").unwrap();
    assert_eq!(opcode(bld.module(), q), Some(Opcode::Binary(lib::ir::BinaryOpcode::UDiv)));
    assert_eq!(bld.module().block_instructions(fx.entry).len(), 1);
}

#[test]
fn default_folder_folds_comparisons_and_casts() {
    let mut fx = fixture();
    let a = fx.m.const_int(fx.i32_ty, 3).unwrap();
    let b = fx.m.const_int(fx.i32_ty, 5).unwrap();
    let big = fx.m.const_int(fx.i32_ty, 0x1ff).unwrap();
    let mut bld = IrBuilder::new(fx.m).position_at_end(fx.entry);
    let lt = bld.icmp_ult(a, b, "lt").unwrap();
    assert_eq!(const_u64(bld.module(), lt), Some(1));
    let t = bld.trunc(big, fx.i8_ty, "t").unwrap();
    assert_eq!(const_u64(bld.module(), t), Some(0xff));
    let sel = bld.select(lt, a, b, "sel").unwrap();
    assert_eq!(sel, a);
}

#[test]
fn no_folder_always_emits() {
    let mut fx = fixture();
    let a = fx.m.const_int(fx.i32_ty, 40).unwrap();
    let b = fx.m.const_int(fx.i32_ty, 2).unwrap();
    let mut bld = IrBuilder::with_folder(fx.m, NoFolder).position_at_end(fx.entry);
    let sum = bld.int_add(a, b, "sum").unwrap();
    let m = bld.module();
    assert_eq!(m.block_instructions(fx.entry), &vec![sum]);
    match &m.value(sum).kind {
        ValueKind::Instruction { operands, .. } => assert_eq!(operands, &vec![a, b]),
        _ => panic!("not an instruction"),
    }
    assert_eq!(m.value(sum).ty, fx.i32_ty);
}

#[test]
fn operand_errors_leave_the_block_untouched() {
    let mut fx = fixture();
    let small = fx.m.const_int(fx.i8_ty, 1).unwrap();
    let fl = fx.m.const_float_bits(fx.f32_ty, u64::from(1.5_f32.to_bits())).unwrap();
    let mut bld = IrBuilder::new(fx.m).position_at_end(fx.entry);
    assert_eq!(bld.int_add(fx.arg, ValueId(999), "x"), Err(IrError::ForeignValueId));
    assert_eq!(bld.int_add(fx.arg, small, "x"), Err(IrError::OperandWidthMismatch { lhs: 32, rhs: 8 }));
    assert_eq!(
        bld.int_add(fl, fl, "x"),
        Err(IrError::TypeMismatch { expected: TypeKindLabel::Integer, got: TypeKindLabel::Float })
    );
    assert!(matches!(bld.int_add_dyn(fx.arg, small, "x"), Err(IrError::InvalidOperation { .. })));
    assert!(matches!(
        bld.int_binop_erased(lib::ir::BinaryOpcode::FAdd, fx.arg, fx.arg, InstFlags::none(), "x"),
        Err(IrError::InvalidOperation { .. })
    ));
    assert_eq!(bld.trunc(fx.arg, fx.i32_ty, "x"), Err(IrError::OperandWidthMismatch { lhs: 32, rhs: 32 }));
    assert_eq!(bld.module().block_instructions(fx.entry).len(), 0);
}

#[test]
fn negation_and_complement_of_an_argument() {
    let fx = fixture();
    let mut bld = IrBuilder::new(fx.m).position_at_end(fx.entry);
    let n = bld.int_neg(fx.arg, "n").unwrap();
    let x = bld.int_not(fx.arg, "x").unwrap();
    let m = bld.module();
    assert_eq!(opcode(m, n), Some(Opcode::Binary(lib::ir::BinaryOpcode::Sub)));
    assert_eq!(opcode(m, x), Some(Opcode::Binary(lib::ir::BinaryOpcode::Xor)));
    match &m.value(x).kind {
        ValueKind::Instruction { operands, .. } => assert_eq!(const_u64(m, operands[1]), Some(0xffff_ffff)),
        _ => panic!("not an instruction"),
    }
}

#[test]
fn comparison_yields_i1() {
    let fx = fixture();
    let mut bld = IrBuilder::new(fx.m).position_at_end(fx.entry);
    let c = bld.int_cmp(IntPredicate::Slt, fx.arg, fx.arg, "c").unwrap();
    let m = bld.module();
    assert_eq!(m.type_data(m.value(c).ty), lib::ir::TypeData::Integer { bits: 1 });
}

#[test]
fn instructions_go_before_the_anchor() {
    let fx = fixture();
    let mut bld = IrBuilder::with_folder(fx.m, NoFolder).position_at_end(fx.entry);
    let first = bld.int_add(fx.arg, fx.arg, "first").unwrap();
    let mut bld = bld.position_before(first);
    let second = bld.int_mul(fx.arg, fx.arg, "second").unwrap();
    assert_eq!(bld.module().block_instructions(fx.entry), &vec![second, first]);
}

#[test]
fn phis_stay_at_the_head_of_the_block() {
    let fx = fixture();
    let mut bld = IrBuilder::with_folder(fx.m, NoFolder).position_at_end(fx.entry);
    let add = bld.int_add(fx.arg, fx.arg, "add").unwrap();
    let p1 = bld.int_phi_dyn(fx.i32_ty, "p1").unwrap();
    let p2 = bld.int_phi_dyn(fx.i32_ty, "p2").unwrap();
    assert_eq!(bld.module().block_instructions(fx.entry), &vec![p1, p2, add]);
    assert_eq!(bld.phi_add_incoming_from_value(p1, fx.arg, fx.entry), Ok(()));
    assert_eq!(bld.phi_add_incoming_from_value(p1, fx.arg, fx.entry), Ok(()));
    assert_eq!(bld.phi_add_incoming_from_value(p1, add, fx.entry), Err(IrError::AmbiguousPhiIncoming { block: "entry".to_string() }));
    assert!(matches!(bld.phi_add_incoming_from_value(add, fx.arg, fx.entry), Err(IrError::InvalidOperation { .. })));
    assert_eq!(
        bld.int_phi_dyn(fx.f32_ty, "bad"),
        Err(IrError::TypeMismatch { expected: TypeKindLabel::Integer, got: TypeKindLabel::Float })
    );
}

#[test]
fn terminators_end_the_block_and_unposition() {
    let mut fx = fixture();
    let other = fx.m.append_basic_block(fx.f, "other");
    let mut bld = IrBuilder::new(fx.m).position_at_end(fx.entry);
    assert_eq!(
        bld.ret_void(),
        Err(IrError::ReturnTypeMismatch { expected: TypeKindLabel::Integer, got: TypeKindLabel::Void })
    );
    let (b, _br) = bld.br(other).unwrap();
    assert_eq!(b, fx.entry);
    assert_eq!(bld.insert_block(), None);
    assert!(bld.module().is_terminated(fx.entry));
    assert!(matches!(bld.position_at_end_dyn(fx.entry), Err(IrError::InvalidOperation { .. })));
    assert_eq!(bld.position_at_end_dyn(BlockId(77)), Err(IrError::ForeignValueId));
    assert_eq!(bld.position_at_end_dyn(other), Ok(()));
    let (b, ret) = bld.ret(fx.arg).unwrap();
    assert_eq!(b, other);
    assert_eq!(opcode(bld.module(), ret), Some(Opcode::Ret));
}

#[test]
fn insert_points_round_trip() {
    let fx = fixture();
    let mut bld = IrBuilder::new(fx.m).position_at_end(fx.entry);
    let ip = bld.save_insert_point();
    assert_eq!(ip, InsertPoint { block_id: Some(fx.entry), before: None });
    let mut bld = bld.unposition();
    assert!(matches!(
        bld.restore_insert_point(InsertPoint { block_id: None, before: None }),
        Err(IrError::InvalidOperation { .. })
    ));
    assert_eq!(bld.restore_insert_point(ip), Ok(()));
    assert_eq!(bld.insert_block(), Some(fx.entry));
}

#[test]
fn memory_instructions() {
    let fx = fixture();
    let mut bld = IrBuilder::new(fx.m).position_at_end(fx.entry);
    let slot = bld.alloca(fx.i32_ty, "slot").unwrap();
    let st = bld.store(fx.arg, slot).unwrap();
    let ld = bld.int_load_dyn(fx.i32_ty, slot, "ld").unwrap();
    assert_eq!(
        bld.load(fx.i32_ty, fx.arg, "bad"),
        Err(IrError::TypeMismatch { expected: TypeKindLabel::Pointer, got: TypeKindLabel::Integer })
    );
    let m = bld.module();
    assert_eq!(m.block_instructions(fx.entry), &vec![slot, st, ld]);
    assert_eq!(m.type_data(m.value(slot).ty), lib::ir::TypeData::Pointer { addr_space: 0 });
    assert_eq!(m.value(ld).ty, fx.i32_ty);
}

#[test]
fn block_cursor_walks_a_snapshot() {
    let fx = fixture();
    let mut bld = IrBuilder::with_folder(fx.m, NoFolder).position_at_end(fx.entry);
    let a = bld.int_add(fx.arg, fx.arg, "a").unwrap();
    let b = bld.int_sub(fx.arg, fx.arg, "b").unwrap();
    let cursor = BlockCursor::at_start(bld.module(), fx.entry);
    let (first, cursor) = cursor.next().unwrap();
    let (second, cursor) = cursor.next().unwrap();
    assert_eq!((first, second), (a, b));
    assert_eq!(cursor.into_block(), fx.entry);
    let cursor = BlockCursor::at_start(bld.module(), fx.entry);
    let (_, cursor) = cursor.next().unwrap();
    let (_, cursor) = cursor.next().unwrap();
    assert!(cursor.next().is_none());
}

#[test]
fn erased_cast_checks_vector_shape() {
    let mut fx = fixture();
    let v4i32 = fx.m.fixed_vector_type(fx.i32_ty, 4);
    let v4i8 = fx.m.fixed_vector_type(fx.i8_ty, 4);
    let v2i8 = fx.m.fixed_vector_type(fx.i8_ty, 2);
    let u = fx.m.undef(v4i32);
    let mut bld = IrBuilder::with_folder(fx.m, NoFolder).position_at_end(fx.entry);
    let t = bld.int_cast_erased(lib::ir::CastOpcode::Trunc, u, v4i8, InstFlags::none(), "t").unwrap();
    assert_eq!(bld.module().value(t).ty, v4i8);
    assert!(matches!(
        bld.int_cast_erased(lib::ir::CastOpcode::Trunc, u, v2i8, InstFlags::none(), "t"),
        Err(IrError::InvalidOperation { .. })
    ));
    assert!(matches!(
        bld.int_cast_erased(lib::ir::CastOpcode::FPExt, u, v4i8, InstFlags::none(), "t"),
        Err(IrError::InvalidOperation { .. })
    ));
}

#[test]
fn instructions_and_phis_register_as_users() {
    let fx = fixture();
    let mut bld = IrBuilder::with_folder(fx.m, NoFolder).position_at_end(fx.entry);
    assert_eq!(bld.module().users(fx.arg), vec![]);
    let add = bld.int_add(fx.arg, fx.arg, "add").unwrap();
    let mul = bld.int_mul(add, fx.arg, "mul").unwrap();
    assert_eq!(bld.module().users(fx.arg), vec![add, add, mul]);
    assert_eq!(bld.module().users(add), vec![mul]);
    let p = bld.int_phi_dyn(fx.i32_ty, "p").unwrap();
    assert_eq!(bld.phi_add_incoming_from_value(p, mul, fx.entry), Ok(()));
    assert_eq!(bld.module().users(mul), vec![p]);
    // A refused pair registers nothing.
    assert!(bld.phi_add_incoming_from_value(p, add, fx.entry).is_err());
    assert_eq!(bld.module().users(add), vec![mul]);
    assert_eq!(bld.module().users(mul), vec![p]);
}

#[test]
fn vector_select_needs_matching_lengths() {
    let mut m = Module::new("vsel");
    let i1 = m.bool_type();
    let i32_ty = m.i32_type();
    let c2 = m.fixed_vector_type(i1, 2);
    let v4 = m.fixed_vector_type(i32_ty, 4);
    let f = m.add_function("f", i32_ty, &vec![c2, v4]).unwrap();
    let entry = m.append_basic_block(f, "entry");
    let ps = m.function_params(f).clone();
    let mut bld = IrBuilder::new(m).position_at_end(entry);
    assert_eq!(
        bld.select_erased(ps[0], ps[1], ps[1], "s").err(),
        Some(IrError::InvalidOperation {
            message: "vector select requires selected vectors to have the same vector length as select condition"
        })
    );
}

#[test]
fn block_cursor_ignores_changes_made_during_the_walk() {
    let fx = fixture();
    let mut bld = IrBuilder::with_folder(fx.m, NoFolder).position_at_end(fx.entry);
    let a = bld.int_add(fx.arg, fx.arg, "a").unwrap();
    let b = bld.int_sub(fx.arg, fx.arg, "b").unwrap();
    let cursor = BlockCursor::at_start(bld.module(), fx.entry);
    let (first, cursor) = cursor.next().unwrap();
    // Insert before the instruction just yielded and at the end.
    let mut bld = bld.position_before(first);
    let c = bld.int_mul(fx.arg, fx.arg, "c").unwrap();
    let mut bld = bld.position_at_end(fx.entry);
    let d = bld.int_xor(fx.arg, fx.arg, "d").unwrap();
    assert_eq!(bld.module().block_instructions(fx.entry), &vec![c, a, b, d]);
    let (second, cursor) = cursor.next().unwrap();
    assert_eq!((first, second), (a, b));
    assert!(cursor.next().is_none());
}
