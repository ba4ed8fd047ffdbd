use lib::error::{IrError, TypeKindLabel};
use lib::ir::{BlockId, FunctionId, Module, Opcode, TypeId, ValueId, ValueKind};
use lib::ir_builder::IrBuilder;

struct Fixture {
    m: Module,
    f: FunctionId,
    entry: BlockId,
    a: BlockId,
    b: BlockId,
    i32_ty: TypeId,
    x: ValueId,
    one: ValueId,
    two: ValueId,
}

fn fixture() -> Fixture {
    let mut m = Module::new("sw");
    let i32_ty = m.i32_type();
    let f = m.add_function("f", i32_ty, &vec![i32_ty]).unwrap();
    let entry = m.append_basic_block(f, "entry");
    let a = m.append_basic_block(f, "a");
    let b = m.append_basic_block(f, "b");
    let x = m.function_params(f)[0];
    let one = m.const_int(i32_ty, 1).unwrap();
    let two = m.const_int(i32_ty, 2).unwrap();
    Fixture { m, f, entry, a, b, i32_ty, x, one, two }
}

fn parts(m: &Module, v: ValueId) -> (Opcode, Vec<ValueId>, Vec<BlockId>) {
    match &m.value(v).kind {
        ValueKind::Instruction { op, operands, targets, .. } => (*op, operands.clone(), targets.clone()),
        _ => panic!("not an instruction"),
    }
}

fn incoming(m: &Module, phi: ValueId) -> Vec<(ValueId, BlockId)> {
    match &m.value(phi).kind {
        ValueKind::Instruction { op: Opcode::Phi, operands, targets, .. } => {
            operands.iter().copied().zip(targets.iter().copied()).collect()
        }
        _ => panic!("not a phi"),
    }
}

#[test]
fn switch_lists_default_then_cases() {
    let fx = fixture();
    let mut bld = IrBuilder::new(fx.m).position_at_end(fx.entry);
    let (from, sw) = bld.switch(fx.x, fx.a, &vec![(fx.one, fx.b), (fx.two, fx.a)], "sw").unwrap();
    assert_eq!(from, fx.entry);
    let (op, ops, ts) = parts(bld.module(), sw);
    assert_eq!(op, Opcode::Switch);
    assert_eq!(ops, vec![fx.x, fx.one, fx.two]);
    assert_eq!(ts, vec![fx.a, fx.b, fx.a]);
    assert!(bld.module().is_terminated(fx.entry));
    assert_eq!(bld.insert_block(), None);
}

#[test]
fn switch_refuses_bad_cases() {
    let mut fx = fixture();
    let i64_ty = fx.m.i64_type();
    let wide = fx.m.const_int(i64_ty, 1).unwrap();
    let mut bld = IrBuilder::new(fx.m).position_at_end(fx.entry);
    assert_eq!(
        bld.switch(fx.x, fx.a, &vec![(wide, fx.b)], "sw").err(),
        Some(IrError::TypeMismatch { expected: TypeKindLabel::Integer, got: TypeKindLabel::Integer })
    );
    let (p, _ps) = bld.append_block_with_params(fx.f, &vec![fx.i32_ty], "p").unwrap();
    assert_eq!(
        bld.switch_dyn(fx.x, fx.a, &vec![(fx.one, p)], "sw").err(),
        Some(IrError::PhiArgArityMismatch { expected: 1, got: 0 })
    );
    assert_eq!(
        bld.switch_dyn(fx.x, p, &vec![], "sw").err(),
        Some(IrError::PhiArgArityMismatch { expected: 1, got: 0 })
    );
    assert_eq!(bld.switch(fx.x, BlockId(77), &vec![], "sw").err(), Some(IrError::ForeignValueId));
    assert_eq!(bld.module().block_instructions(fx.entry).len(), 0);
}

#[test]
fn switch_with_args_seeds_every_edge() {
    let fx = fixture();
    let mut bld = IrBuilder::new(fx.m).position_at_end(fx.entry);
    let (p, ps) = bld.append_block_with_params(fx.f, &vec![fx.i32_ty], "p").unwrap();
    let (q, qs) = bld.append_block_with_params(fx.f, &vec![fx.i32_ty, fx.i32_ty], "q").unwrap();
    let (_from, sw) = bld
        .switch_with_args(
            fx.x,
            &(p, vec![fx.x]),
            &vec![(fx.one, q, vec![fx.one, fx.x]), (fx.two, fx.a, vec![])],
            "sw",
        )
        .unwrap();
    let m = bld.module();
    assert_eq!(incoming(m, ps[0]), vec![(fx.x, fx.entry)]);
    assert_eq!(incoming(m, qs[0]), vec![(fx.one, fx.entry)]);
    assert_eq!(incoming(m, qs[1]), vec![(fx.x, fx.entry)]);
    let (_, ops, ts) = parts(m, sw);
    assert_eq!(ops, vec![fx.x, fx.one, fx.two]);
    assert_eq!(ts, vec![p, q, fx.a]);
}

#[test]
fn switch_with_args_refused_edge_keeps_earlier_edges() {
    let fx = fixture();
    let mut bld = IrBuilder::new(fx.m).position_at_end(fx.entry);
    let (p, ps) = bld.append_block_with_params(fx.f, &vec![fx.i32_ty], "p").unwrap();
    assert_eq!(
        bld.switch_dyn_with_args(fx.x, &(p, vec![fx.x]), &vec![(fx.one, p, vec![])], "sw").err(),
        Some(IrError::PhiArgArityMismatch { expected: 1, got: 0 })
    );
    assert_eq!(incoming(bld.module(), ps[0]), vec![(fx.x, fx.entry)]);
    assert!(!bld.module().is_terminated(fx.entry));
}

#[test]
fn switch_with_args_checks_everything_first() {
    let mut fx = fixture();
    let f32_ty = fx.m.f32_type();
    let fl = fx.m.const_float_bits(f32_ty, 0).unwrap();
    let mut bld = IrBuilder::new(fx.m).position_at_end(fx.entry);
    let (p, ps) = bld.append_block_with_params(fx.f, &vec![fx.i32_ty], "p").unwrap();
    assert_eq!(
        bld.switch_with_args(fl, &(p, vec![fx.x]), &vec![], "sw").err(),
        Some(IrError::TypeMismatch { expected: TypeKindLabel::Integer, got: TypeKindLabel::Float })
    );
    assert_eq!(
        bld.switch_with_args(fx.x, &(p, vec![fx.x]), &vec![(ValueId(999), fx.a, vec![])], "sw").err(),
        Some(IrError::ForeignValueId)
    );
    assert_eq!(
        bld.switch_with_args(fx.x, &(p, vec![fx.x]), &vec![(fl, fx.a, vec![])], "sw").err(),
        Some(IrError::TypeMismatch { expected: TypeKindLabel::Integer, got: TypeKindLabel::Float })
    );
    assert!(incoming(bld.module(), ps[0]).is_empty());
}
