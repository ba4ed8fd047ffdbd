use lib::error::{IrError, TypeKindLabel};
use lib::ir::{BlockId, FunctionId, Module, Opcode, TypeId, ValueId, ValueKind};
use lib::ir_builder::IrBuilder;

struct Fixture {
    m: Module,
    f: FunctionId,
    entry: BlockId,
    i32_ty: TypeId,
    i64_ty: TypeId,
    arg: ValueId,
}

fn fixture() -> Fixture {
    let mut m = Module::new("params");
    let i32_ty = m.i32_type();
    let i64_ty = m.i64_type();
    let f = m.add_function("f", i32_ty, &vec![i32_ty]).unwrap();
    let entry = m.append_basic_block(f, "entry");
    let arg = m.function_params(f)[0];
    Fixture { m, f, entry, i32_ty, i64_ty, arg }
}

fn incoming(m: &Module, phi: ValueId) -> Vec<(ValueId, BlockId)> {
    match &m.value(phi).kind {
        ValueKind::Instruction { op: Opcode::Phi, operands, targets, .. } => {
            operands.iter().copied().zip(targets.iter().copied()).collect()
        }
        _ => panic!("not a phi"),
    }
}

#[test]
fn block_with_params_holds_one_phi_per_type() {
    let fx = fixture();
    let mut bld = IrBuilder::new(fx.m).position_at_end(fx.entry);
    let (b, ps) = bld
        .append_block_with_params(fx.f, &vec![fx.i32_ty, fx.i64_ty], "join")
        .unwrap();
    assert_eq!(ps.len(), 2);
    let m = bld.module();
    assert_eq!(m.block_params(b), 2);
    assert_eq!(m.block_instructions(b), &ps);
    assert_eq!(m.value_type(ps[0]), fx.i32_ty);
    assert_eq!(m.value_type(ps[1]), fx.i64_ty);
    assert!(incoming(m, ps[0]).is_empty());
    assert_eq!(m.function_blocks(fx.f).last(), Some(&b));
    assert_eq!(bld.insert_block(), Some(fx.entry));
}

#[test]
fn named_block_params_keep_their_names() {
    let fx = fixture();
    let mut bld = IrBuilder::new(fx.m);
    let (_b, ps) = bld
        .append_block_with_named_params(
            fx.f,
            &vec![(fx.i32_ty, "acc".to_string()), (fx.i32_ty, String::new())],
            "loop",
        )
        .unwrap();
    assert_eq!(bld.module().value(ps[0]).name, "acc");
    assert_eq!(bld.module().value(ps[1]).name, "");
}

#[test]
fn block_with_params_refuses_unknown_function_or_type() {
    let fx = fixture();
    let mut bld = IrBuilder::new(fx.m);
    let before = bld.module().block_count();
    assert_eq!(
        bld.append_block_with_params(FunctionId(9), &vec![fx.i32_ty], "x").err(),
        Some(IrError::ForeignValueId)
    );
    assert_eq!(
        bld.append_block_with_params(fx.f, &vec![TypeId(999)], "x").err(),
        Some(IrError::ForeignValueId)
    );
    assert_eq!(bld.module().block_count(), before);
}

#[test]
fn plain_branch_to_parameterised_block_is_refused() {
    let mut fx = fixture();
    let bool_ty = fx.m.bool_type();
    let c = fx.m.const_int(bool_ty, 1).unwrap();
    let mut bld = IrBuilder::new(fx.m).position_at_end(fx.entry);
    let (join, _ps) = bld.append_block_with_params(fx.f, &vec![fx.i32_ty], "join").unwrap();
    assert_eq!(
        bld.br(join).err(),
        Some(IrError::PhiArgArityMismatch { expected: 1, got: 0 })
    );
    assert_eq!(
        bld.cond_br(c, fx.entry, join).err(),
        Some(IrError::PhiArgArityMismatch { expected: 1, got: 0 })
    );
    assert_eq!(bld.module().block_instructions(fx.entry).len(), 0);
    assert_eq!(bld.insert_block(), Some(fx.entry));
}

#[test]
fn branch_with_args_seeds_each_parameter() {
    let fx = fixture();
    let mut bld = IrBuilder::new(fx.m).position_at_end(fx.entry);
    let (join, ps) = bld.append_block_with_params(fx.f, &vec![fx.i32_ty], "join").unwrap();
    let (from, br) = bld.br_with_args(join, &vec![fx.arg]).unwrap();
    assert_eq!(from, fx.entry);
    let m = bld.module();
    assert_eq!(incoming(m, ps[0]), vec![(fx.arg, fx.entry)]);
    assert_eq!(m.block_instructions(fx.entry), &vec![br]);
    assert!(m.is_terminated(fx.entry));
    assert_eq!(bld.insert_block(), None);
}

#[test]
fn branch_with_args_checks_arity_and_types_first() {
    let mut fx = fixture();
    let wide = fx.m.const_int(fx.i64_ty, 7).unwrap();
    let mut bld = IrBuilder::new(fx.m).position_at_end(fx.entry);
    let (join, ps) = bld.append_block_with_params(fx.f, &vec![fx.i32_ty], "join").unwrap();
    assert_eq!(
        bld.br_with_args(join, &vec![]).err(),
        Some(IrError::PhiArgArityMismatch { expected: 1, got: 0 })
    );
    assert_eq!(
        bld.br_with_args(join, &vec![fx.arg, fx.arg]).err(),
        Some(IrError::PhiArgArityMismatch { expected: 1, got: 2 })
    );
    assert_eq!(
        bld.br_with_args(join, &vec![wide]).err(),
        Some(IrError::TypeMismatch { expected: TypeKindLabel::Integer, got: TypeKindLabel::Integer })
    );
    assert_eq!(bld.br_with_args(BlockId(99), &vec![]).err(), Some(IrError::ForeignValueId));
    assert!(incoming(bld.module(), ps[0]).is_empty());
    assert_eq!(bld.insert_block(), Some(fx.entry));
}

#[test]
fn branch_with_no_args_to_plain_block_is_a_branch() {
    let mut fx = fixture();
    let other = fx.m.append_basic_block(fx.f, "other");
    let mut bld = IrBuilder::new(fx.m).position_at_end(fx.entry);
    let (_b, br) = bld.br_with_args(other, &vec![]).unwrap();
    match &bld.module().value(br).kind {
        ValueKind::Instruction { op, targets, .. } => {
            assert_eq!(*op, Opcode::Br);
            assert_eq!(targets, &vec![other]);
        }
        _ => panic!("not an instruction"),
    }
}

#[test]
fn cond_branch_with_args_seeds_both_edges() {
    let mut fx = fixture();
    let bool_ty = fx.m.bool_type();
    let c = fx.m.const_int(bool_ty, 1).unwrap();
    let one = fx.m.const_int(fx.i32_ty, 1).unwrap();
    let mut bld = IrBuilder::new(fx.m).position_at_end(fx.entry);
    let (a, pa) = bld.append_block_with_params(fx.f, &vec![fx.i32_ty], "a").unwrap();
    let (b, pb) = bld.append_block_with_params(fx.f, &vec![fx.i32_ty, fx.i32_ty], "b").unwrap();
    bld.cond_br_with_args(c, a, &vec![fx.arg], b, &vec![one, fx.arg]).unwrap();
    let m = bld.module();
    assert_eq!(incoming(m, pa[0]), vec![(fx.arg, fx.entry)]);
    assert_eq!(incoming(m, pb[0]), vec![(one, fx.entry)]);
    assert_eq!(incoming(m, pb[1]), vec![(fx.arg, fx.entry)]);
}

#[test]
fn cond_branch_refused_else_edge_keeps_then_pairs() {
    let mut fx = fixture();
    let bool_ty = fx.m.bool_type();
    let c = fx.m.const_int(bool_ty, 0).unwrap();
    let mut bld = IrBuilder::new(fx.m).position_at_end(fx.entry);
    let (a, pa) = bld.append_block_with_params(fx.f, &vec![fx.i32_ty], "a").unwrap();
    let (b, _pb) = bld.append_block_with_params(fx.f, &vec![fx.i32_ty], "b").unwrap();
    assert_eq!(
        bld.cond_br_with_args(c, a, &vec![fx.arg], b, &vec![]).err(),
        Some(IrError::PhiArgArityMismatch { expected: 1, got: 0 })
    );
    assert_eq!(incoming(bld.module(), pa[0]), vec![(fx.arg, fx.entry)]);
    assert!(!bld.module().is_terminated(fx.entry));
}

#[test]
fn same_target_with_different_args_is_ambiguous() {
    let mut fx = fixture();
    let bool_ty = fx.m.bool_type();
    let c = fx.m.const_int(bool_ty, 1).unwrap();
    let one = fx.m.const_int(fx.i32_ty, 1).unwrap();
    let mut bld = IrBuilder::new(fx.m).position_at_end(fx.entry);
    let (a, pa) = bld.append_block_with_params(fx.f, &vec![fx.i32_ty], "a").unwrap();
    assert_eq!(
        bld.cond_br_with_args(c, a, &vec![fx.arg], a, &vec![one]).err(),
        Some(IrError::AmbiguousPhiIncoming { block: "entry".to_string() })
    );
    assert_eq!(incoming(bld.module(), pa[0]), vec![(fx.arg, fx.entry)]);
    bld.cond_br_with_args(c, a, &vec![fx.arg], a, &vec![fx.arg]).unwrap();
    assert_eq!(
        incoming(bld.module(), pa[0]),
        vec![(fx.arg, fx.entry), (fx.arg, fx.entry), (fx.arg, fx.entry)]
    );
}

#[test]
fn cond_branch_with_args_refuses_a_wide_condition() {
    let fx = fixture();
    let mut bld = IrBuilder::new(fx.m).position_at_end(fx.entry);
    let (a, pa) = bld.append_block_with_params(fx.f, &vec![fx.i32_ty], "a").unwrap();
    assert_eq!(
        bld.cond_br_with_args(fx.arg, a, &vec![fx.arg], a, &vec![fx.arg]).err(),
        Some(IrError::OperandWidthMismatch { lhs: 1, rhs: 32 })
    );
    assert!(incoming(bld.module(), pa[0]).is_empty());
}
