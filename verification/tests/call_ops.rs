use lib::error::IrError;
use lib::ir::{BlockId, FloatKind, FunctionId, Module, Opcode, TypeId, ValueId, ValueKind};
use lib::ir_builder::IrBuilder;
use lib::type_text::type_string;

struct Fixture {
    m: Module,
    f: FunctionId,
    callee: FunctionId,
    sink: FunctionId,
    entry: BlockId,
    ok: BlockId,
    bad: BlockId,
    i32_ty: TypeId,
    x: ValueId,
    p: ValueId,
}

fn fixture() -> Fixture {
    let mut m = Module::new("calls");
    let i32_ty = m.i32_type();
    let ptr_ty = m.ptr_type(0);
    let void_ty = m.void_type();
    let callee = m.add_function("g", i32_ty, &vec![i32_ty, ptr_ty]).unwrap();
    let sink = m.add_function("h", void_ty, &vec![]).unwrap();
    let f = m.add_function("f", i32_ty, &vec![i32_ty, ptr_ty]).unwrap();
    let entry = m.append_basic_block(f, "entry");
    let ok = m.append_basic_block(f, "ok");
    let bad = m.append_basic_block(f, "bad");
    let ps = m.function_params(f).clone();
    Fixture { m, f, callee, sink, entry, ok, bad, i32_ty, x: ps[0], p: ps[1] }
}

fn parts(m: &Module, v: ValueId) -> (Opcode, Vec<ValueId>, Vec<BlockId>) {
    match &m.value(v).kind {
        ValueKind::Instruction { op, operands, targets, .. } => (*op, operands.clone(), targets.clone()),
        _ => panic!("not an instruction"),
    }
}

#[test]
fn types_print_as_in_assembly() {
    let mut m = Module::new("t");
    let i7 = m.int_type(7);
    let v = m.fixed_vector_type(i7, 4);
    let a = m.array_type(v, 12);
    let p = m.ptr_type(5);
    let d = m.float_type(FloatKind::Double);
    assert_eq!(type_string(&m, i7), "i7");
    assert_eq!(type_string(&m, a), "[12 x <4 x i7>]");
    assert_eq!(type_string(&m, p), "ptr addrspace(5)");
    let p0 = m.ptr_type(0);
    assert_eq!(type_string(&m, p0), "ptr");
    assert_eq!(type_string(&m, d), "double");
}

#[test]
fn call_checks_arguments_against_parameters() {
    let fx = fixture();
    let mut bld = IrBuilder::new(fx.m).position_at_end(fx.entry);
    let c = bld.call_dyn(fx.callee, &vec![fx.x, fx.p], "c").unwrap();
    let m = bld.module();
    assert_eq!(m.value_type(c), fx.i32_ty);
    assert_eq!(m.value(c).name, "c");
    assert_eq!(parts(m, c), (Opcode::Call { callee: fx.callee }, vec![fx.x, fx.p], vec![]));
    assert_eq!(
        bld.call(fx.callee, &vec![fx.x], "c").err(),
        Some(IrError::CallArgumentCountMismatch { expected: 2, got: 1 })
    );
    assert_eq!(
        bld.call(fx.callee, &vec![fx.p, fx.p], "c").err(),
        Some(IrError::CallArgumentTypeMismatch { index: 0, expected: "i32".to_string(), got: "ptr".to_string() })
    );
    assert_eq!(bld.call(FunctionId(9), &vec![], "c").err(), Some(IrError::ForeignValueId));
    assert_eq!(bld.module().block_instructions(fx.entry).len(), 1);
}

#[test]
fn void_calls_have_no_name() {
    let fx = fixture();
    let mut bld = IrBuilder::new(fx.m).position_at_end(fx.entry);
    let c = bld.call_dyn(fx.sink, &vec![], "unused").unwrap();
    assert_eq!(bld.module().value(c).name, "");
}

#[test]
fn invoke_ends_the_block() {
    let fx = fixture();
    let mut bld = IrBuilder::new(fx.m).position_at_end(fx.entry);
    let (from, inv) = bld.invoke_dyn(fx.callee, &vec![fx.x, fx.p], fx.ok, fx.bad, "r").unwrap();
    assert_eq!(from, fx.entry);
    let m = bld.module();
    assert_eq!(parts(m, inv), (Opcode::Invoke { callee: fx.callee }, vec![fx.x, fx.p], vec![fx.ok, fx.bad]));
    assert_eq!(m.value_type(inv), fx.i32_ty);
    assert!(m.is_terminated(fx.entry));
    assert_eq!(bld.insert_block(), None);
}

#[test]
fn invoke_and_callbr_refuse_parameterised_destinations() {
    let fx = fixture();
    let mut bld = IrBuilder::new(fx.m).position_at_end(fx.entry);
    let (p, _ps) = bld.append_block_with_params(fx.f, &vec![fx.i32_ty], "p").unwrap();
    assert_eq!(
        bld.invoke(fx.callee, &vec![fx.x, fx.p], p, fx.bad, "r").err(),
        Some(IrError::PhiArgArityMismatch { expected: 1, got: 0 })
    );
    assert_eq!(
        bld.callbr(fx.callee, &vec![fx.x, fx.p], fx.ok, &vec![fx.bad, p], "r").err(),
        Some(IrError::PhiArgArityMismatch { expected: 1, got: 0 })
    );
    assert_eq!(
        bld.callbr(fx.callee, &vec![fx.x], fx.ok, &vec![fx.bad], "r").err(),
        Some(IrError::CallArgumentCountMismatch { expected: 2, got: 1 })
    );
    assert_eq!(bld.module().block_instructions(fx.entry).len(), 0);
}

#[test]
fn callbr_lists_default_then_indirect_destinations() {
    let fx = fixture();
    let mut bld = IrBuilder::new(fx.m).position_at_end(fx.entry);
    let (_from, cb) = bld.callbr(fx.callee, &vec![fx.x, fx.p], fx.ok, &vec![fx.bad, fx.ok], "r").unwrap();
    assert_eq!(parts(bld.module(), cb).2, vec![fx.ok, fx.bad, fx.ok]);
}

#[test]
fn var_arg_call_takes_further_arguments_of_any_type() {
    let mut m = Module::new("va");
    let i32_ty = m.i32_type();
    let ptr_ty = m.ptr_type(0);
    let printf = m.add_var_arg_function("printf", i32_ty, &vec![ptr_ty]).unwrap();
    let f = m.add_function("f", i32_ty, &vec![i32_ty, ptr_ty]).unwrap();
    let entry = m.append_basic_block(f, "entry");
    let ps = m.function_params(f).clone();
    let mut bld = IrBuilder::new(m).position_at_end(entry);
    let c = bld.call(printf, &vec![ps[1], ps[0], ps[1]], "n").unwrap();
    assert_eq!(parts(bld.module(), c), (Opcode::Call { callee: printf }, vec![ps[1], ps[0], ps[1]], vec![]));
    let d = bld.call(printf, &vec![ps[1]], "m").unwrap();
    assert_eq!(parts(bld.module(), d).1, vec![ps[1]]);
    assert_eq!(
        bld.call(printf, &vec![], "c").err(),
        Some(IrError::CallArgumentCountMismatch { expected: 1, got: 0 })
    );
    assert_eq!(
        bld.call(printf, &vec![ps[0], ps[1]], "c").err(),
        Some(IrError::CallArgumentTypeMismatch { index: 0, expected: "ptr".to_string(), got: "i32".to_string() })
    );
}
