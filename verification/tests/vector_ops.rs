use lib::error::{IrError, TypeKindLabel};
use lib::ir::{BlockId, Module, Opcode, ShuffleMaskElem, TypeData, TypeId, ValueId, ValueKind};
use lib::ir_builder::IrBuilder;

struct Fixture {
    m: Module,
    entry: BlockId,
    i32_ty: TypeId,
    v4i32: TypeId,
    a: ValueId,
    b: ValueId,
    x: ValueId,
}

fn fixture() -> Fixture {
    let mut m = Module::new("vec");
    let i32_ty = m.i32_type();
    let v4i32 = m.fixed_vector_type(i32_ty, 4);
    let f = m.add_function("f", i32_ty, &vec![v4i32, v4i32, i32_ty]).unwrap();
    let entry = m.append_basic_block(f, "entry");
    let ps = m.function_params(f).clone();
    Fixture { m, entry, i32_ty, v4i32, a: ps[0], b: ps[1], x: ps[2] }
}

fn parts(m: &Module, v: ValueId) -> (Opcode, Vec<ValueId>, Vec<ShuffleMaskElem>) {
    match &m.value(v).kind {
        ValueKind::Instruction { op, operands, mask, .. } => (*op, operands.clone(), mask.clone()),
        _ => panic!("not an instruction"),
    }
}

#[test]
fn shuffle_has_one_lane_per_mask_entry() {
    let fx = fixture();
    let mut bld = IrBuilder::new(fx.m).position_at_end(fx.entry);
    let mask = vec![ShuffleMaskElem::Lane(0), ShuffleMaskElem::Lane(5), ShuffleMaskElem::Poison];
    let s = bld.shuffle_vector(fx.a, fx.b, &mask, "s").unwrap();
    let m = bld.module();
    let (op, ops, got_mask) = parts(m, s);
    assert_eq!(op, Opcode::ShuffleVector);
    assert_eq!(ops, vec![fx.a, fx.b]);
    assert_eq!(got_mask, mask);
    assert_eq!(m.type_data(m.value_type(s)), TypeData::FixedVector { elem: fx.i32_ty, n: 3 });
    assert_eq!(m.value(s).name, "s");
}

#[test]
fn shuffle_refuses_mismatched_or_scalar_operands() {
    let fx = fixture();
    let mut bld = IrBuilder::new(fx.m).position_at_end(fx.entry);
    let mask = vec![ShuffleMaskElem::Lane(0)];
    assert_eq!(
        bld.shuffle_vector(fx.a, fx.x, &mask, "s").err(),
        Some(IrError::TypeMismatch { expected: TypeKindLabel::FixedVector, got: TypeKindLabel::Integer })
    );
    assert_eq!(
        bld.shuffle_vector(fx.x, fx.x, &mask, "s").err(),
        Some(IrError::TypeMismatch { expected: TypeKindLabel::FixedVector, got: TypeKindLabel::Integer })
    );
    assert_eq!(bld.shuffle_vector(ValueId(999), fx.a, &mask, "s").err(), Some(IrError::ForeignValueId));
    assert_eq!(bld.module().block_instructions(fx.entry).len(), 0);
}

#[test]
fn splat_inserts_then_shuffles_lane_zero() {
    let fx = fixture();
    let mut bld = IrBuilder::new(fx.m).position_at_end(fx.entry);
    let s = bld.vector_splat_dyn(4, fx.x, "v").unwrap();
    let m = bld.module();
    let insts = m.block_instructions(fx.entry).clone();
    assert_eq!(insts.len(), 2);
    assert_eq!(insts[1], s);
    let (op0, ops0, _) = parts(m, insts[0]);
    assert_eq!(op0, Opcode::InsertElement);
    assert_eq!(ops0[1], fx.x);
    assert!(matches!(m.value(ops0[0]).kind, ValueKind::Poison));
    assert_eq!(m.value(insts[0]).name, "v.splatinsert");
    let (op1, ops1, mask) = parts(m, s);
    assert_eq!(op1, Opcode::ShuffleVector);
    assert_eq!(ops1, vec![insts[0], ops0[0]]);
    assert_eq!(mask, vec![ShuffleMaskElem::Lane(0); 4]);
    assert_eq!(m.value(s).name, "v.splat");
    assert_eq!(m.value_type(s), fx.v4i32);
}

#[test]
fn splat_names_default_and_zero_lanes() {
    let fx = fixture();
    let mut bld = IrBuilder::new(fx.m).position_at_end(fx.entry);
    let s = bld.vector_splat_dyn(2, fx.x, "").unwrap();
    assert_eq!(bld.module().value(s).name, "splat");
    assert_eq!(
        bld.vector_splat_dyn(0, fx.x, "z").err(),
        Some(IrError::InvalidOperation { message: "vector_splat_dyn requires at least one lane" })
    );
    assert_eq!(
        bld.vector_splat(4, fx.a, "w").err(),
        Some(IrError::TypeMismatch { expected: TypeKindLabel::Integer, got: TypeKindLabel::FixedVector })
    );
}

#[test]
fn typed_lane_access_checks_the_vector_and_element() {
    let mut fx = fixture();
    let i64_ty = fx.m.i64_type();
    let idx = fx.m.const_int(fx.i32_ty, 1).unwrap();
    let wide = fx.m.const_int(i64_ty, 3).unwrap();
    let mut bld = IrBuilder::new(fx.m).position_at_end(fx.entry);
    assert_eq!(
        bld.vector_extract(fx.x, idx, "e").err(),
        Some(IrError::TypeMismatch { expected: TypeKindLabel::FixedVector, got: TypeKindLabel::Integer })
    );
    assert_eq!(
        bld.vector_insert(fx.a, wide, idx, "i").err(),
        Some(IrError::TypeMismatch { expected: TypeKindLabel::Integer, got: TypeKindLabel::Integer })
    );
    let e = bld.vector_extract(fx.a, idx, "e").unwrap();
    assert_eq!(bld.module().value_type(e), fx.i32_ty);
    let i = bld.vector_insert(fx.a, fx.x, idx, "i").unwrap();
    assert_eq!(bld.module().value_type(i), fx.v4i32);
}
