use lib::ir::{Module, ValueKind};
use lib::ir_builder::IrBuilder;

#[test]
fn constant_folder_select_picks_the_chosen_arm() {
    let mut m = Module::new("sel");
    let i32_ty = m.i32_type();
    let bool_ty = m.bool_type();
    let f = m.add_function("f", i32_ty, &vec![i32_ty, i32_ty]).unwrap();
    let entry = m.append_basic_block(f, "entry");
    let ps = m.function_params(f).clone();
    let yes = m.const_int(bool_ty, 1).unwrap();
    let no = m.const_int(bool_ty, 0).unwrap();
    let seven = m.const_int(i32_ty, 7).unwrap();
    let nine = m.const_int(i32_ty, 9).unwrap();
    let mut b = IrBuilder::new(m).position_at_end(entry);
    let before = b.module().value_count();
    assert_eq!(b.select(yes, seven, nine, "s").unwrap(), seven);
    assert_eq!(b.select(no, seven, nine, "s").unwrap(), nine);
    assert_eq!(b.module().value_count(), before);
    assert!(b.module().block_instructions(entry).is_empty());
    // Arms that are not constants are not folded.
    let s = b.select(yes, ps[0], ps[1], "s").unwrap();
    assert_eq!(b.module().block_instructions(entry), &vec![s]);
}

#[test]
fn constant_folder_adds_the_folded_constant() {
    let mut m = Module::new("add");
    let i32_ty = m.i32_type();
    let f = m.add_function("f", i32_ty, &vec![]).unwrap();
    let entry = m.append_basic_block(f, "entry");
    let a = m.const_int(i32_ty, 40).unwrap();
    let c = m.const_int(i32_ty, 2).unwrap();
    let mut b = IrBuilder::new(m).position_at_end(entry);
    let before = b.module().value_count();
    let r = b.int_add(a, c, "sum").unwrap();
    let m = b.module();
    assert_eq!(r.0, before);
    assert_eq!(m.value_type(r), i32_ty);
    match &m.value(r).kind {
        ValueKind::ConstInt { value } => assert_eq!(value.try_zext_u64(), Some(42)),
        _ => panic!("not a constant"),
    }
    assert!(m.block_instructions(entry).is_empty());
}

#[test]
fn constant_folder_folds_flagged_operations_too() {
    let mut m = Module::new("flags");
    let i8_ty = m.i8_type();
    let f = m.add_function("f", i8_ty, &vec![]).unwrap();
    let entry = m.append_basic_block(f, "entry");
    let a = m.const_int(i8_ty, 200).unwrap();
    let c = m.const_int(i8_ty, 100).unwrap();
    let mut b = IrBuilder::new(m).position_at_end(entry);
    let nuw = lib::ir::InstFlags { nuw: true, nsw: true, ..lib::ir::InstFlags::none() };
    let r = b.int_add_with_flags(a, c, nuw, "sum").unwrap();
    match &b.module().value(r).kind {
        ValueKind::ConstInt { value } => assert_eq!(value.try_zext_u64(), Some(44)),
        _ => panic!("not a constant"),
    }
    assert!(b.module().block_instructions(entry).is_empty());
    let exact = lib::ir::InstFlags { exact: true, ..lib::ir::InstFlags::none() };
    let q = b.int_udiv_with_flags(a, c, exact, "q").unwrap();
    match &b.module().value(q).kind {
        ValueKind::ConstInt { value } => assert_eq!(value.try_zext_u64(), Some(2)),
        _ => panic!("not a constant"),
    }
    assert!(b.module().block_instructions(entry).is_empty());
}
