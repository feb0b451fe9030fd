use koopa::ir::context::Context;
use koopa::ir::entities::{BasicBlock, BinaryOp, Value, ValueData, ValueKind};
use koopa::ir::error::IrError;
use koopa::ir::function::FunctionData;
use koopa::ir::program::Program;
use koopa::ir::types::Type;
use koopa::ir::idman::InternerIds;

struct TwoAdd {
    cx: Context,
    func: FunctionData,
    entry: BasicBlock,
    x: Value,
    y: Value,
    z: Value,
    ret: Value,
    i32_ty: Type,
    unit_ty: Type,
}

fn two_add() -> TwoAdd {
    let mut cx = Context::new(InternerIds::new().next_id().unwrap());
    let i32_ty = cx.types.get_i32().unwrap();
    let unit_ty = cx.types.get_unit().unwrap();
    let fun_ty = cx.types.get_function(vec![i32_ty, i32_ty], i32_ty).unwrap();
    let mut func = FunctionData::new(&mut cx, "@add".to_string(), fun_ty).unwrap();
    let bb_ty = cx.types.get_basic_block(vec![i32_ty, i32_ty]).unwrap();
    let entry = func
        .dfg_mut()
        .new_bb_with_params(&mut cx, Some("%entry".to_string()), vec![i32_ty, i32_ty], bb_ty)
        .unwrap();
    let params = func.dfg().bb(entry).unwrap().params().to_vec();
    let (x, y) = (params[0], params[1]);
    func.dfg_mut().set_value_name(&cx, x, Some("%x".to_string())).unwrap();
    func.dfg_mut().set_value_name(&cx, y, Some("%y".to_string())).unwrap();
    let z = func
        .dfg_mut()
        .new_value(
            &mut cx,
            ValueData::new(i32_ty, ValueKind::Binary { op: BinaryOp::Add, lhs: x, rhs: y }),
        )
        .unwrap();
    func.dfg_mut().set_value_name(&cx, z, Some("%z".to_string())).unwrap();
    let ret = func
        .dfg_mut()
        .new_value(&mut cx, ValueData::new(unit_ty, ValueKind::Return { value: Some(z) }))
        .unwrap();
    func.append_bb(&cx, entry).unwrap();
    func.append_inst(&cx, z, entry).unwrap();
    func.append_inst(&cx, ret, entry).unwrap();
    TwoAdd { cx, func, entry, x, y, z, ret, i32_ty, unit_ty }
}

#[test]
fn two_add_function() {
    let t = two_add();
    let dfg = t.func.dfg();
    assert_eq!(dfg.value(t.z).unwrap().used_by(), vec![t.ret]);
    assert_eq!(dfg.value(t.x).unwrap().used_by(), vec![t.z]);
    assert_eq!(dfg.value(t.y).unwrap().used_by(), vec![t.z]);
    assert!(dfg.value(t.ret).unwrap().used_by().is_empty());
    assert_eq!(t.func.layout().bbs(), vec![t.entry]);
    assert_eq!(t.func.layout().insts(t.entry).unwrap(), &[t.z, t.ret]);
    assert_eq!(t.func.layout().inst_next(t.z), Some(t.ret));
    assert_eq!(t.func.layout().inst_prev(t.ret), Some(t.z));
    assert_eq!(t.func.layout().inst_prev(t.z), None);
    assert_eq!(t.func.layout().inst_next(t.ret), None);
    assert_eq!(t.func.name(), "@add");
    assert_eq!(t.func.params().len(), 2);
    assert!(!t.func.is_decl());
    assert_eq!(*dfg.value(t.z).unwrap().ty(), t.i32_ty);
    assert_eq!(*dfg.value(t.ret).unwrap().ty(), t.unit_ty);
}

#[test]
fn replace_all_uses() {
    let mut t = two_add();
    let z2 = t
        .func
        .dfg_mut()
        .new_value(
            &mut t.cx,
            ValueData::new(t.i32_ty, ValueKind::Binary { op: BinaryOp::Add, lhs: t.y, rhs: t.x }),
        )
        .unwrap();
    t.func.dfg_mut().replace_value_with(&mut t.cx, t.z, z2).unwrap();
    assert!(t.func.dfg().value(t.z).unwrap().used_by().is_empty());
    assert_eq!(t.func.dfg().value(z2).unwrap().used_by(), vec![t.ret]);
    assert_eq!(
        *t.func.dfg().value(t.ret).unwrap().kind(),
        ValueKind::Return { value: Some(z2) }
    );
    // the old value still has its place in the layout: it leaves the layout first
    assert!(matches!(t.func.remove_value(&mut t.cx, t.z), Err(IrError::InLayout)));
    t.func.remove_inst(&t.cx, t.z).unwrap();
    assert!(t.func.remove_value(&mut t.cx, t.z).is_ok());
    assert!(t.func.dfg().value(t.z).is_none());
    let mut xs = t.func.dfg().value(t.x).unwrap().used_by();
    xs.sort_by_key(|v| v.0);
    assert_eq!(xs, vec![z2]);
}

#[test]
fn removal_guards() {
    let mut t = two_add();
    t.func.remove_inst(&t.cx, t.z).unwrap();
    assert!(matches!(t.func.remove_value(&mut t.cx, t.z), Err(IrError::InUse)));
    assert!(t.func.dfg().value(t.z).is_some());
    t.func.remove_inst(&t.cx, t.ret).unwrap();
    assert!(t.func.remove_value(&mut t.cx, t.ret).is_ok());
    assert!(t.func.remove_value(&mut t.cx, t.z).is_ok());
    assert!(t.func.dfg().value(t.x).unwrap().used_by().is_empty());
    assert!(t.func.dfg().value(t.y).unwrap().used_by().is_empty());
}

#[test]
fn functions_are_edited_inside_their_program() {
    let mut program = Program::new(InternerIds::new().next_id().unwrap());
    let (i32_ty, fun_ty) = {
        let cx = program.context_mut();
        let i32_ty = cx.types.get_i32().unwrap();
        (i32_ty, cx.types.get_function(vec![i32_ty], i32_ty).unwrap())
    };
    let one = program
        .new_value(ValueData::new(i32_ty, ValueKind::Integer { value: 1 }))
        .unwrap();
    let data = FunctionData::new(program.context_mut(), "@inc".to_string(), fun_ty).unwrap();
    let inc = program.new_func(data).unwrap();
    let data = FunctionData::new(program.context_mut(), "@dec".to_string(), fun_ty).unwrap();
    let dec = program.new_func(data).unwrap();
    assert_ne!(inc, dec);

    let mut made = Vec::new();
    for (handle, op) in [(inc, BinaryOp::Add), (dec, BinaryOp::Sub)] {
        let (cx, funcs) = program.parts_mut();
        let func = funcs.get_mut(&handle.0).unwrap();
        let x = func.params()[0];
        let entry = func.dfg_mut().new_bb(cx, Some("%entry".to_string())).unwrap();
        let r = func.dfg_mut().binary(cx, op, x, one).unwrap();
        let ret = func.dfg_mut().return_(cx, Some(r)).unwrap();
        func.append_bb(cx, entry).unwrap();
        func.append_inst(cx, r, entry).unwrap();
        func.append_inst(cx, ret, entry).unwrap();
        made.push(r);
    }
    // the global value lists its users in both functions
    let mut users = program.borrow_values().get(one).unwrap().used_by();
    users.sort_by_key(|v| v.0);
    assert_eq!(users, made);
    // no handle is shared between the functions
    let a = program.func(inc).unwrap().dfg().values();
    let b = program.func(dec).unwrap().dfg().values();
    assert!(a.iter().all(|v| !b.contains(v)));
    assert!(!program.func(inc).unwrap().is_decl());
    // a call from one to the other
    {
        let (cx, funcs) = program.parts_mut();
        let func = funcs.get_mut(&inc.0).unwrap();
        let x = func.params()[0];
        let call = func.dfg_mut().call(cx, dec, vec![x]).unwrap();
        assert_eq!(*func.dfg().value(call).unwrap().ty(), i32_ty);
    }
    assert!(matches!(program.remove_value(one), Err(IrError::InUse)));
}

#[test]
fn graph_and_layout_are_reached_one_by_one() {
    let mut t = two_add();
    let extra = t.func.dfg_mut().integer(&mut t.cx, 9).unwrap();
    assert!(t.func.dfg().value(extra).is_some());
    // the layout alone can give up a place
    let layout = t.func.layout_mut();
    assert!(layout.has_inst(t.ret));
    let (dfg, layout) = t.func.parts_mut();
    layout.remove_inst(dfg, t.ret).unwrap();
    assert!(t.func.append_inst(&t.cx, t.ret, t.entry).is_ok());
    assert!(t.func.remove_inst(&t.cx, t.ret).is_ok());
    assert!(!t.func.layout().has_inst(t.ret));
    assert_eq!(t.func.layout().insts(t.entry).unwrap(), &[t.z]);

    let mut program = Program::new(InternerIds::new().next_id().unwrap());
    let i32_ty = program.context_mut().types.get_i32().unwrap();
    let ty = program.context_mut().types.get_function(vec![], i32_ty).unwrap();
    let data = FunctionData::new(program.context_mut(), "@f".to_string(), ty).unwrap();
    let f = program.new_func(data).unwrap();
    assert!(program.funcs_mut().contains_key(&f.0));
    assert_eq!(program.funcs().len(), 1);
    assert_eq!(program.context().types.len(), 2);
    assert_eq!(program.context().types.number(), 0);
    let gone = program.remove_func(f).unwrap();
    assert_eq!(gone.name(), "@f");
    assert!(program.func(f).is_none());
}

#[test]
fn a_removed_function_leaves_no_users_behind() {
    let mut program = Program::new(InternerIds::new().next_id().unwrap());
    let (i32_ty, fun_ty) = {
        let cx = program.context_mut();
        let i32_ty = cx.types.get_i32().unwrap();
        (i32_ty, cx.types.get_function(vec![], i32_ty).unwrap())
    };
    let one = program
        .new_value(ValueData::new(i32_ty, ValueKind::Integer { value: 1 }))
        .unwrap();
    let two = program
        .new_value(ValueData::new(i32_ty, ValueKind::Integer { value: 2 }))
        .unwrap();
    let mut kept = Vec::new();
    let mut handles = Vec::new();
    for name in ["@a", "@b"] {
        let mut func = FunctionData::new(program.context_mut(), name.to_string(), fun_ty).unwrap();
        let cx = program.context_mut();
        let s = func.dfg_mut().binary(cx, BinaryOp::Add, one, two).unwrap();
        let t = func.dfg_mut().binary(cx, BinaryOp::Mul, s, one).unwrap();
        kept.push(vec![s, t]);
        handles.push(program.new_func(func).unwrap());
    }
    let users = |p: &Program, v: Value| {
        let mut u = p.borrow_values().get(v).unwrap().used_by();
        u.sort_by_key(|x| x.0);
        u
    };
    assert_eq!(users(&program, one), vec![kept[0][0], kept[0][1], kept[1][0], kept[1][1]]);
    assert_eq!(users(&program, two), vec![kept[0][0], kept[1][0]]);
    assert!(matches!(program.remove_value(two), Err(IrError::InUse)));

    let gone = program.remove_func(handles[0]).unwrap();
    assert_eq!(gone.name(), "@a");
    // the values of the other function are still listed, those of the removed one are not
    assert_eq!(users(&program, one), vec![kept[1][0], kept[1][1]]);
    assert_eq!(users(&program, two), vec![kept[1][0]]);
    // every user that is listed exists
    for g in [one, two] {
        for w in users(&program, g) {
            assert!(program.func(handles[1]).unwrap().dfg().value(w).is_some());
        }
    }
    assert!(program.remove_func(handles[0]).is_none());
    assert!(program.remove_func(handles[1]).is_some());
    assert!(users(&program, one).is_empty());
    assert!(users(&program, two).is_empty());
    assert!(program.remove_value(two).is_ok());
    assert!(program.remove_value(one).is_ok());
    assert_eq!(program.borrow_values().len(), 0);
}
