use lib::error::{IrError, TypeKindLabel};
use lib::ir::{BlockId, GepNoWrapFlags, Module, Opcode, TypeData, TypeId, ValueId, ValueKind};
use lib::ir_builder::IrBuilder;

struct Fixture {
    m: Module,
    entry: BlockId,
    i32_ty: TypeId,
    i64_ty: TypeId,
    arr: TypeId,
    nested: TypeId,
    ptr: ValueId,
    agg: ValueId,
    deep: ValueId,
    x: ValueId,
}

fn fixture() -> Fixture {
    let mut m = Module::new("agg");
    let i32_ty = m.i32_type();
    let i64_ty = m.i64_type();
    let arr = m.array_type(i32_ty, 4);
    let nested = m.array_type(arr, 2);
    let ptr_ty = m.ptr_type(3);
    let f = m.add_function("f", i32_ty, &vec![ptr_ty, arr, nested, i32_ty]).unwrap();
    let entry = m.append_basic_block(f, "entry");
    let ps = m.function_params(f).clone();
    Fixture { m, entry, i32_ty, i64_ty, arr, nested, ptr: ps[0], agg: ps[1], deep: ps[2], x: ps[3] }
}

fn parts(m: &Module, v: ValueId) -> (Opcode, Vec<ValueId>, Vec<u32>) {
    match &m.value(v).kind {
        ValueKind::Instruction { op, operands, indices, .. } => (*op, operands.clone(), indices.clone()),
        _ => panic!("not an instruction"),
    }
}

#[test]
fn extract_value_walks_nested_arrays() {
    let fx = fixture();
    let mut bld = IrBuilder::new(fx.m).position_at_end(fx.entry);
    let e = bld.extract_value(fx.deep, &vec![1, 3], "e").unwrap();
    let m = bld.module();
    assert_eq!(m.value_type(e), fx.i32_ty);
    assert_eq!(parts(m, e), (Opcode::ExtractValue, vec![fx.deep], vec![1, 3]));
    let row = bld.extract_value_dyn(fx.deep, &vec![0], "row").unwrap();
    assert_eq!(bld.module().value_type(row), fx.arr);
}

#[test]
fn extract_value_refuses_bad_indices() {
    let fx = fixture();
    let mut bld = IrBuilder::new(fx.m).position_at_end(fx.entry);
    assert_eq!(
        bld.extract_value_dyn(fx.agg, &vec![4], "e").err(),
        Some(IrError::AggregateIndexOutOfRange { index: 4, count: 4 })
    );
    assert_eq!(
        bld.extract_value_dyn(fx.agg, &vec![0, 0], "e").err(),
        Some(IrError::TypeMismatch { expected: TypeKindLabel::Struct, got: TypeKindLabel::Integer })
    );
    assert_eq!(
        bld.extract_value_dyn(fx.agg, &vec![], "e").err(),
        Some(IrError::InvalidOperation { message: "extractvalue indices must not be empty" })
    );
    assert_eq!(bld.module().block_instructions(fx.entry).len(), 0);
}

#[test]
fn insert_value_keeps_the_aggregate_type() {
    let mut fx = fixture();
    let wide = fx.m.const_int(fx.i64_ty, 1).unwrap();
    let mut bld = IrBuilder::new(fx.m).position_at_end(fx.entry);
    let v = bld.insert_value(fx.agg, fx.x, &vec![2], "v").unwrap();
    assert_eq!(bld.module().value_type(v), fx.arr);
    assert_eq!(parts(bld.module(), v), (Opcode::InsertValue, vec![fx.agg, fx.x], vec![2]));
    assert_eq!(
        bld.insert_value_dyn(fx.agg, wide, &vec![2], "v").err(),
        Some(IrError::TypeMismatch { expected: TypeKindLabel::Integer, got: TypeKindLabel::Integer })
    );
    assert_eq!(
        bld.insert_value_dyn(fx.agg, fx.x, &vec![], "v").err(),
        Some(IrError::InvalidOperation { message: "insertvalue indices must not be empty" })
    );
}

#[test]
fn typed_array_access() {
    let fx = fixture();
    let mut bld = IrBuilder::new(fx.m).position_at_end(fx.entry);
    let e = bld.array_extract(fx.agg, 3, "e").unwrap();
    assert_eq!(bld.module().value_type(e), fx.i32_ty);
    assert_eq!(
        bld.array_extract(fx.x, 0, "e").err(),
        Some(IrError::TypeMismatch { expected: TypeKindLabel::Array, got: TypeKindLabel::Integer })
    );
    assert_eq!(
        bld.array_insert(fx.deep, fx.x, 0, "i").err(),
        Some(IrError::TypeMismatch { expected: TypeKindLabel::Array, got: TypeKindLabel::Integer })
    );
    let i = bld.array_insert(fx.agg, fx.x, 1, "i").unwrap();
    assert_eq!(bld.module().value_type(i), fx.arr);
}

#[test]
fn gep_points_into_the_source_type() {
    let mut fx = fixture();
    let zero = fx.m.const_int(fx.i32_ty, 0).unwrap();
    let two = fx.m.const_int(fx.i64_ty, 2).unwrap();
    let mut bld = IrBuilder::new(fx.m).position_at_end(fx.entry);
    let g = bld.gep(fx.nested, fx.ptr, &vec![zero, two, fx.x], "g").unwrap();
    let m = bld.module();
    assert_eq!(m.type_data(m.value_type(g)), TypeData::Pointer { addr_space: 3 });
    let (op, ops, _) = parts(m, g);
    assert_eq!(op, Opcode::GetElementPtr { source: fx.nested, flags: GepNoWrapFlags::empty() });
    assert_eq!(ops, vec![fx.ptr, zero, two, fx.x]);
    let h = bld.inbounds_gep(fx.arr, fx.ptr, &vec![zero], "h").unwrap();
    let (op, _, _) = parts(bld.module(), h);
    assert_eq!(op, Opcode::GetElementPtr { source: fx.arr, flags: GepNoWrapFlags::inbounds() });
}

#[test]
fn gep_refuses_bad_operands() {
    let fx = fixture();
    let mut bld = IrBuilder::new(fx.m).position_at_end(fx.entry);
    assert_eq!(bld.gep(fx.i32_ty, fx.ptr, &vec![fx.x, fx.x], "g").err(), Some(IrError::GepInvalidIndices));
    assert_eq!(
        bld.gep(fx.i32_ty, fx.x, &vec![fx.x], "g").err(),
        Some(IrError::TypeMismatch { expected: TypeKindLabel::Pointer, got: TypeKindLabel::Integer })
    );
    assert_eq!(
        bld.gep(fx.arr, fx.ptr, &vec![fx.x, fx.agg], "g").err(),
        Some(IrError::TypeMismatch { expected: TypeKindLabel::Integer, got: TypeKindLabel::Array })
    );
    assert_eq!(bld.module().block_instructions(fx.entry).len(), 0);
}

#[test]
fn byte_offsets_step_over_i8() {
    let fx = fixture();
    let mut bld = IrBuilder::new(fx.m).position_at_end(fx.entry);
    let p = bld.ptr_add(fx.ptr, fx.x, "p").unwrap();
    let q = bld.inbounds_ptr_add(fx.ptr, fx.x, "q").unwrap();
    let e = bld.element_gep(fx.i32_ty, fx.ptr, fx.x, "e").unwrap();
    let m = bld.module();
    match parts(m, p).0 {
        Opcode::GetElementPtr { source, flags } => {
            assert_eq!(m.type_data(source), TypeData::Integer { bits: 8 });
            assert_eq!(flags, GepNoWrapFlags::empty());
        }
        _ => panic!("not a gep"),
    }
    match parts(m, q).0 {
        Opcode::GetElementPtr { flags, .. } => assert_eq!(flags, GepNoWrapFlags::inbounds()),
        _ => panic!("not a gep"),
    }
    assert_eq!(parts(m, e).1, vec![fx.ptr, fx.x]);
}

#[test]
fn aggregate_indices_walk_struct_fields() {
    let mut m = Module::new("structs");
    let i32_ty = m.i32_type();
    let i64_ty = m.i64_type();
    let arr = m.array_type(i32_ty, 2);
    let pair = m.struct_type("pair", &vec![i64_ty, arr]).unwrap();
    let opaque = m.opaque_struct_type("handle");
    assert_eq!(m.struct_type("bad", &vec![TypeId(999)]), Err(IrError::ForeignValueId));
    assert_eq!(lib::type_text::type_string(&m, pair), "%pair");
    assert_eq!(m.type_data(opaque), TypeData::Struct { body: 1 });
    let f = m.add_function("f", i32_ty, &vec![pair, opaque, i64_ty]).unwrap();
    let entry = m.append_basic_block(f, "entry");
    let ps = m.function_params(f).clone();
    let mut bld = IrBuilder::new(m).position_at_end(entry);
    let first = bld.extract_value_dyn(ps[0], &vec![0], "first").unwrap();
    assert_eq!(bld.module().value_type(first), i64_ty);
    let inner = bld.extract_value(ps[0], &vec![1, 1], "inner").unwrap();
    assert_eq!(bld.module().value_type(inner), i32_ty);
    assert_eq!(
        bld.extract_value_dyn(ps[0], &vec![2], "e").err(),
        Some(IrError::AggregateIndexOutOfRange { index: 2, count: 2 })
    );
    assert_eq!(
        bld.extract_value_dyn(ps[1], &vec![0], "e").err(),
        Some(IrError::TypeMismatch { expected: TypeKindLabel::Struct, got: TypeKindLabel::Struct })
    );
    let updated = bld.insert_value_dyn(ps[0], ps[2], &vec![0], "u").unwrap();
    assert_eq!(bld.module().value_type(updated), pair);
    assert_eq!(parts(bld.module(), updated), (Opcode::InsertValue, vec![ps[0], ps[2]], vec![0]));
    assert_eq!(
        bld.insert_value_dyn(ps[0], ps[2], &vec![1, 0], "u").err(),
        Some(IrError::TypeMismatch { expected: TypeKindLabel::Integer, got: TypeKindLabel::Integer })
    );
}

#[test]
fn gep_steps_into_struct_fields_by_constant_index() {
    let mut m = Module::new("sgep");
    let i32_ty = m.i32_type();
    let i64_ty = m.i64_type();
    let arr = m.array_type(i64_ty, 3);
    let pair = m.struct_type("pair", &vec![i32_ty, arr]).unwrap();
    let opaque = m.opaque_struct_type("handle");
    let ptr_ty = m.ptr_type(0);
    let f = m.add_function("f", i32_ty, &vec![ptr_ty, i32_ty]).unwrap();
    let entry = m.append_basic_block(f, "entry");
    let ps = m.function_params(f).clone();
    let zero = m.const_int(i32_ty, 0).unwrap();
    let one = m.const_int(i32_ty, 1).unwrap();
    let two = m.const_int(i32_ty, 2).unwrap();
    let wide_one = m.const_int(i64_ty, 1).unwrap();
    let mut bld = IrBuilder::new(m).position_at_end(entry);
    let g = bld.gep(pair, ps[0], &vec![zero, one, ps[1]], "g").unwrap();
    assert_eq!(parts(bld.module(), g).1, vec![ps[0], zero, one, ps[1]]);
    // A struct index must be an in-range i32 constant.
    assert_eq!(bld.gep(pair, ps[0], &vec![zero, two], "g").err(), Some(IrError::GepInvalidIndices));
    assert_eq!(bld.gep(pair, ps[0], &vec![zero, ps[1]], "g").err(), Some(IrError::GepInvalidIndices));
    assert_eq!(bld.gep(pair, ps[0], &vec![zero, wide_one], "g").err(), Some(IrError::GepInvalidIndices));
    assert_eq!(bld.gep(opaque, ps[0], &vec![zero, zero], "g").err(), Some(IrError::GepInvalidIndices));
}
