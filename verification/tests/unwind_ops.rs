use lib::error::{IrError, TypeKindLabel};
use lib::ir::{BlockId, FunctionId, Module, Opcode, TypeId, ValueId, ValueKind};
use lib::ir_builder::IrBuilder;

struct Fixture {
    m: Module,
    f: FunctionId,
    callee: FunctionId,
    entry: BlockId,
    i32_ty: TypeId,
    x: ValueId,
    p: ValueId,
}

fn fixture() -> Fixture {
    let mut m = Module::new("unwind");
    let i32_ty = m.i32_type();
    let ptr_ty = m.ptr_type(0);
    let callee = m.add_function("g", i32_ty, &vec![i32_ty]).unwrap();
    let f = m.add_function("f", i32_ty, &vec![i32_ty, ptr_ty]).unwrap();
    let entry = m.append_basic_block(f, "entry");
    let ps = m.function_params(f).clone();
    Fixture { m, f, callee, entry, i32_ty, x: ps[0], p: ps[1] }
}

fn parts(m: &Module, v: ValueId) -> (Opcode, Vec<ValueId>, Vec<BlockId>) {
    match &m.value(v).kind {
        ValueKind::Instruction { op, operands, targets, .. } => (*op, operands.clone(), targets.clone()),
        _ => panic!("not an instruction"),
    }
}

fn incoming(m: &Module, phi: ValueId) -> Vec<(ValueId, BlockId)> {
    match &m.value(phi).kind {
        ValueKind::Instruction { op: Opcode::Phi, operands, targets, .. } => {
            operands.iter().copied().zip(targets.iter().copied()).collect()
        }
        _ => panic!("not a phi"),
    }
}

#[test]
fn va_arg_reads_through_a_pointer() {
    let fx = fixture();
    let mut bld = IrBuilder::new(fx.m).position_at_end(fx.entry);
    let v = bld.va_arg(fx.p, fx.i32_ty, "next").unwrap();
    let m = bld.module();
    assert_eq!(m.value_type(v), fx.i32_ty);
    assert_eq!(m.value(v).name, "next");
    assert_eq!(parts(m, v), (Opcode::VaArg, vec![fx.p], vec![]));
    assert_eq!(
        bld.va_arg(fx.x, fx.i32_ty, "next").err(),
        Some(IrError::TypeMismatch { expected: TypeKindLabel::Pointer, got: TypeKindLabel::Integer })
    );
    assert_eq!(bld.va_arg(fx.p, TypeId(99), "next").err(), Some(IrError::ForeignValueId));
}

#[test]
fn landing_pad_resume_and_indirect_branch() {
    let fx = fixture();
    let mut bld = IrBuilder::new(fx.m).position_at_end(fx.entry);
    let lp = bld.landingpad(fx.i32_ty, true, "lp").unwrap();
    assert_eq!(parts(bld.module(), lp).0, Opcode::LandingPad { cleanup: true });
    assert_eq!(bld.landingpad(TypeId(99), false, "lp").err(), Some(IrError::ForeignValueId));
    let (b, r) = bld.resume(lp, "").unwrap();
    assert_eq!(b, fx.entry);
    assert_eq!(parts(bld.module(), r), (Opcode::Resume, vec![lp], vec![]));
    assert!(bld.module().is_terminated(fx.entry));

    let mut fx2 = fixture();
    let other = fx2.m.append_basic_block(fx2.f, "other");
    let mut bld2 = IrBuilder::new(fx2.m).position_at_end(other);
    assert_eq!(
        bld2.indirectbr(fx2.x, "").err(),
        Some(IrError::TypeMismatch { expected: TypeKindLabel::Pointer, got: TypeKindLabel::Integer })
    );
    let (_, ib) = bld2.indirectbr(fx2.p, "").unwrap();
    assert_eq!(parts(bld2.module(), ib), (Opcode::IndirectBr, vec![fx2.p], vec![]));
}

#[test]
fn invoke_with_args_seeds_both_edges_then_invokes() {
    let fx = fixture();
    let mut bld = IrBuilder::new(fx.m).position_at_end(fx.entry);
    let (ok, po) = bld.append_block_with_params(fx.f, &vec![fx.i32_ty], "ok").unwrap();
    let (bad, pb) = bld.append_block_with_params(fx.f, &vec![fx.i32_ty], "bad").unwrap();
    assert_eq!(
        bld.invoke_with_args(fx.callee, &vec![fx.p], ok, &vec![fx.x], bad, &vec![fx.x], "r").err(),
        Some(IrError::CallArgumentTypeMismatch { index: 0, expected: "i32".to_string(), got: "ptr".to_string() })
    );
    assert_eq!(incoming(bld.module(), po[0]), vec![]);
    assert_eq!(
        bld.invoke_with_args(fx.callee, &vec![fx.x], ok, &vec![fx.x], bad, &vec![], "r").err(),
        Some(IrError::PhiArgArityMismatch { expected: 1, got: 0 })
    );
    // The normal edge was seeded before the unwind edge was refused.
    assert_eq!(incoming(bld.module(), po[0]), vec![(fx.x, fx.entry)]);
    let (b, v) = bld.invoke_dyn_with_args(fx.callee, &vec![fx.x], ok, &vec![fx.x], bad, &vec![fx.x], "r").unwrap();
    assert_eq!(b, fx.entry);
    let m = bld.module();
    assert_eq!(parts(m, v), (Opcode::Invoke { callee: fx.callee }, vec![fx.x], vec![ok, bad]));
    assert_eq!(m.value(v).name, "r");
    assert_eq!(incoming(m, pb[0]), vec![(fx.x, fx.entry)]);
    assert!(m.is_terminated(fx.entry));
}

#[test]
fn cleanup_and_catch_pads_are_tokens() {
    let mut fx = fixture();
    let body = fx.m.append_basic_block(fx.f, "body");
    let tok = fx.m.token_type();
    let mut bld = IrBuilder::new(fx.m).position_at_end(fx.entry);
    let cp = bld.cleanup_pad_within_none(&vec![fx.x], "cp").unwrap();
    let m = bld.module();
    assert_eq!(m.value_type(cp), tok);
    assert_eq!(m.value(cp).name, "cp");
    assert_eq!(parts(m, cp), (Opcode::CleanupPad { within: false }, vec![fx.x], vec![]));
    let inner = bld.cleanup_pad(cp, &vec![], "inner").unwrap();
    assert_eq!(parts(bld.module(), inner), (Opcode::CleanupPad { within: true }, vec![cp], vec![]));
    assert_eq!(bld.cleanup_pad(ValueId(999), &vec![], "x").err(), Some(IrError::ForeignValueId));
    assert_eq!(bld.catch_pad(cp, &vec![ValueId(999)], "x").err(), Some(IrError::ForeignValueId));
    let kp = bld.catch_pad(cp, &vec![fx.p], "kp").unwrap();
    assert_eq!(parts(bld.module(), kp), (Opcode::CatchPad, vec![cp, fx.p], vec![]));
    assert_eq!(bld.catch_ret(kp, BlockId(999), "").err(), Some(IrError::ForeignValueId));
    assert!(!bld.module().is_terminated(fx.entry));
    let (b, r) = bld.catch_ret(kp, body, "ignored").unwrap();
    assert_eq!(b, fx.entry);
    let m = bld.module();
    assert_eq!(parts(m, r), (Opcode::CatchRet, vec![kp], vec![body]));
    assert_eq!(m.value(r).name, "");
    assert!(m.is_terminated(fx.entry));
}

#[test]
fn cleanup_ret_and_catch_switch_end_the_block() {
    let mut fx = fixture();
    let next = fx.m.append_basic_block(fx.f, "next");
    let third = fx.m.append_basic_block(fx.f, "third");
    let tok = fx.m.token_type();
    let mut bld = IrBuilder::new(fx.m).position_at_end(fx.entry);
    let cp = bld.cleanup_pad_within_none(&vec![], "cp").unwrap();
    let (_, r) = bld.cleanup_ret(cp, next, "").unwrap();
    assert_eq!(parts(bld.module(), r), (Opcode::CleanupRet, vec![cp], vec![next]));
    assert!(bld.module().is_terminated(fx.entry));

    let mut bld = bld.position_at_end(next);
    let (_, r2) = bld.cleanup_ret_to_caller(cp, "").unwrap();
    assert_eq!(parts(bld.module(), r2), (Opcode::CleanupRet, vec![cp], vec![]));

    let mut bld = bld.position_at_end(third);
    let (b, cs) = bld.catch_switch(cp, next, "cs").unwrap();
    assert_eq!(b, third);
    let m = bld.module();
    assert_eq!(m.value_type(cs), tok);
    assert_eq!(m.value(cs).name, "cs");
    assert_eq!(parts(m, cs), (Opcode::CatchSwitch { within: true }, vec![cp], vec![next]));
    assert!(m.is_terminated(third));
}

#[test]
fn catch_switch_variants_and_their_errors() {
    let mut fx = fixture();
    let a = fx.m.append_basic_block(fx.f, "a");
    let b = fx.m.append_basic_block(fx.f, "b");
    let c = fx.m.append_basic_block(fx.f, "c");
    let mut bld = IrBuilder::new(fx.m).position_at_end(fx.entry);
    assert_eq!(bld.catch_switch_within_none(BlockId(999), "cs").err(), Some(IrError::ForeignValueId));
    assert_eq!(bld.catch_switch_to_caller(ValueId(999), "cs").err(), Some(IrError::ForeignValueId));
    let (_, cs) = bld.catch_switch_within_none(a, "cs").unwrap();
    assert_eq!(parts(bld.module(), cs), (Opcode::CatchSwitch { within: false }, vec![], vec![a]));
    let mut bld = bld.position_at_end(a);
    let (_, cs2) = bld.catch_switch_to_caller(cs, "cs2").unwrap();
    assert_eq!(parts(bld.module(), cs2), (Opcode::CatchSwitch { within: true }, vec![cs], vec![]));
    let mut bld = bld.position_at_end(b);
    let (_, cs3) = bld.catch_switch_within_none_to_caller("cs3").unwrap();
    assert_eq!(parts(bld.module(), cs3), (Opcode::CatchSwitch { within: false }, vec![], vec![]));
    assert_eq!(bld.module().value(cs3).name, "cs3");
    assert!(!bld.module().is_terminated(c));
}

#[test]
fn select_refuses_token_arms() {
    let mut fx = fixture();
    let bool_ty = fx.m.bool_type();
    let c = fx.m.const_int(bool_ty, 1).unwrap();
    let mut bld = IrBuilder::new(fx.m).position_at_end(fx.entry);
    let t1 = bld.cleanup_pad_within_none(&vec![], "a").unwrap();
    let t2 = bld.cleanup_pad_within_none(&vec![], "b").unwrap();
    let msg = IrError::InvalidOperation { message: "select values cannot have token type" };
    assert_eq!(bld.select_erased(c, t1, t2, "s").err(), Some(msg.clone()));
    assert_eq!(bld.select(c, t1, t2, "s").err(), Some(msg));
}
