use koopa::ir::context::Context;
use koopa::ir::dfg::DataFlowGraph;
use koopa::ir::entities::{BasicBlock, BinaryOp, Function, Value, ValueData, ValueKind};
use koopa::ir::error::IrError;
use koopa::ir::function::FunctionData;
use koopa::ir::program::Program;
use koopa::ir::types::TypeData;
use koopa::ir::idman::InternerIds;

fn function(cx: &mut Context) -> FunctionData {
    let i32_ty = cx.types.get_i32().unwrap();
    let ty = cx.types.get_function(vec![], i32_ty).unwrap();
    FunctionData::new(cx, "@f".to_string(), ty).unwrap()
}

#[test]
fn gep_type_chain() {
    let mut program = Program::new(InternerIds::new().next_id().unwrap());
    let i32_ty = program.context_mut().types.get_i32().unwrap();
    let arr = program.context_mut().types.get_array(i32_ty, 4).unwrap();
    let arr_ptr = program.context_mut().types.get_pointer(arr).unwrap();
    let zero = program.new_value(ValueData::new(arr, ValueKind::ZeroInit)).unwrap();
    let mut g_data = ValueData::new(arr_ptr, ValueKind::GlobalAlloc { init: zero });
    g_data.set_name(Some("@g".to_string())).unwrap();
    let g = program.new_value(g_data).unwrap();
    assert_eq!(program.borrow_values().get(zero).unwrap().used_by(), vec![g]);

    let cx = program.context_mut();
    let fun_ty = cx.types.get_function(vec![], i32_ty).unwrap();
    let mut func = FunctionData::new(cx, "@f".to_string(), fun_ty).unwrap();
    let dfg = func.dfg_mut();
    let two = dfg.integer(cx, 2).unwrap();
    let p = dfg.get_elem_ptr(cx, g, two).unwrap();
    let v = dfg.load(cx, p).unwrap();
    let p_ty = *dfg.value(p).unwrap().ty();
    let v_ty = *dfg.value(v).unwrap().ty();
    assert_eq!(cx.types.text_of(p_ty).unwrap(), "*i32");
    assert_eq!(cx.types.text_of(v_ty).unwrap(), "i32");
    assert_eq!(v_ty, i32_ty);
    assert!(matches!(cx.types.kind(p_ty), Some(TypeData::Pointer(t)) if *t == i32_ty));
    // the global lists its local user
    assert_eq!(cx.values.get(g).unwrap().used_by(), vec![p]);
    assert_eq!(dfg.value(two).unwrap().used_by(), vec![p]);
    assert_eq!(dfg.value(p).unwrap().used_by(), vec![v]);
    // a global in use cannot be removed
    assert!(matches!(cx.remove_value(g), Err(IrError::InUse)));
    func.remove_value(cx, v).unwrap();
    func.remove_value(cx, p).unwrap();
    assert!(cx.values.get(g).unwrap().used_by().is_empty());
    let f = program.new_func(func).unwrap();
    assert!(program.func(f).is_some());
    assert!(matches!(program.remove_value(zero), Err(IrError::InUse)));
    assert!(program.remove_value(g).is_ok());
    assert!(program.remove_value(zero).is_ok());
    assert!(matches!(program.remove_value(zero), Err(IrError::UnknownValue)));
}

#[test]
fn branch_argument_shape() {
    let mut cx = Context::new(InternerIds::new().next_id().unwrap());
    let mut func = function(&mut cx);
    let i32_ty = cx.types.get_i32().unwrap();
    let bb1_ty = cx.types.get_basic_block(vec![i32_ty]).unwrap();
    let b_true = func.dfg_mut().new_bb_with_params(&mut cx, None, vec![i32_ty], bb1_ty).unwrap();
    let b_false = func.dfg_mut().new_bb(&mut cx, Some("%else".to_string())).unwrap();
    let cond = func.dfg_mut().integer(&mut cx, 1).unwrap();
    let a = func.dfg_mut().integer(&mut cx, 7).unwrap();
    let ptr = func.dfg_mut().local_alloc(&mut cx, i32_ty).unwrap();

    // a pointer where the block takes an integer
    assert_eq!(
        func.dfg_mut().branch(&mut cx, cond, b_true, vec![ptr], b_false, vec![]),
        Err(IrError::TypeMismatch)
    );
    assert!(func.dfg_mut().bb(b_true).unwrap().used_by().is_empty());
    assert!(func.dfg_mut().value(ptr).unwrap().used_by().is_empty());
    // wrong numbers of arguments
    assert_eq!(
        func.dfg_mut().branch(&mut cx, cond, b_true, vec![], b_false, vec![]),
        Err(IrError::ArityMismatch)
    );
    assert_eq!(
        func.dfg_mut().branch(&mut cx, cond, b_true, vec![a], b_false, vec![a]),
        Err(IrError::ArityMismatch)
    );
    // a condition that is no integer
    assert_eq!(
        func.dfg_mut().branch(&mut cx, ptr, b_true, vec![a], b_false, vec![]),
        Err(IrError::TypeMismatch)
    );
    // unknown block, unknown value
    assert_eq!(
        func.dfg_mut().branch(&mut cx, cond, BasicBlock(99), vec![a], b_false, vec![]),
        Err(IrError::UnknownBlock)
    );
    assert_eq!(
        func.dfg_mut().branch(&mut cx, cond, b_true, vec![Value(99)], b_false, vec![]),
        Err(IrError::UnknownValue)
    );

    let br = func.dfg_mut().branch(&mut cx, cond, b_true, vec![a], b_false, vec![]).unwrap();
    assert_eq!(func.dfg_mut().value(cond).unwrap().used_by(), vec![br]);
    assert_eq!(func.dfg_mut().value(a).unwrap().used_by(), vec![br]);
    assert_eq!(func.dfg_mut().bb(b_true).unwrap().used_by(), vec![br]);
    assert_eq!(func.dfg_mut().bb(b_false).unwrap().used_by(), vec![br]);
    let unit = cx.types.get_unit().unwrap();
    assert_eq!(*func.dfg_mut().value(br).unwrap().ty(), unit);
    assert!(func.dfg_mut().value(br).unwrap().kind().is_terminator());

    // a block that is named cannot be removed
    assert!(matches!(func.remove_bb(&cx, b_true), Err(IrError::InUse)));
    func.remove_value(&mut cx, br).unwrap();
    assert!(func.dfg_mut().bb(b_true).unwrap().used_by().is_empty());
    let param = func.dfg_mut().bb(b_true).unwrap().params()[0];
    assert!(func.dfg_mut().value(param).is_some());
    let gone = func.remove_bb(&cx, b_true).unwrap();
    assert_eq!(gone.params(), &[param]);
    assert!(func.dfg_mut().value(param).is_none());
    assert!(func.dfg_mut().bb(b_true).is_none());
    assert!(matches!(func.remove_bb(&cx, b_true), Err(IrError::UnknownBlock)));
}

#[test]
fn operands_in_order() {
    let kind = ValueKind::Branch {
        cond: Value(1),
        true_bb: BasicBlock(10),
        true_args: vec![Value(2), Value(3)],
        false_bb: BasicBlock(11),
        false_args: vec![Value(4)],
    };
    let mut uses = kind.value_uses();
    let mut seen = Vec::new();
    while let Some(v) = uses.next() {
        seen.push(v);
    }
    assert_eq!(seen, vec![Value(1), Value(2), Value(3), Value(4)]);
    assert_eq!(uses.next(), None);
    let mut bbs = kind.bb_uses();
    assert_eq!(bbs.next(), Some(BasicBlock(10)));
    assert_eq!(bbs.next(), Some(BasicBlock(11)));
    assert_eq!(bbs.next(), None);
    assert_eq!(bbs.next(), None);

    let collect = |k: &ValueKind| {
        let mut it = k.value_uses();
        let mut out = Vec::new();
        while let Some(v) = it.next() {
            out.push(v);
        }
        out
    };
    assert_eq!(collect(&ValueKind::Store { value: Value(5), dest: Value(6) }), vec![Value(5), Value(6)]);
    assert_eq!(collect(&ValueKind::GetPtr { src: Value(5), index: Value(6) }), vec![Value(5), Value(6)]);
    assert_eq!(collect(&ValueKind::GetElemPtr { src: Value(7), index: Value(6) }), vec![Value(7), Value(6)]);
    assert_eq!(
        collect(&ValueKind::Binary { op: BinaryOp::Sub, lhs: Value(8), rhs: Value(9) }),
        vec![Value(8), Value(9)]
    );
    assert_eq!(collect(&ValueKind::Load { src: Value(3) }), vec![Value(3)]);
    assert_eq!(collect(&ValueKind::GlobalAlloc { init: Value(3) }), vec![Value(3)]);
    assert_eq!(collect(&ValueKind::Aggregate { elems: vec![Value(3), Value(1)] }), vec![Value(3), Value(1)]);
    assert_eq!(collect(&ValueKind::Jump { target: BasicBlock(0), args: vec![Value(2)] }), vec![Value(2)]);
    assert_eq!(
        collect(&ValueKind::Call { callee: Function(0), args: vec![Value(2), Value(2)] }),
        vec![Value(2), Value(2)]
    );
    assert_eq!(collect(&ValueKind::Return { value: Some(Value(4)) }), vec![Value(4)]);
    assert!(collect(&ValueKind::Return { value: None }).is_empty());
    assert!(collect(&ValueKind::Integer { value: 3 }).is_empty());
    assert!(collect(&ValueKind::ZeroInit).is_empty());
    assert!(collect(&ValueKind::Undef).is_empty());
    assert!(collect(&ValueKind::Alloc).is_empty());
    assert!(collect(&ValueKind::FuncArgRef { index: 0 }).is_empty());
    assert!(collect(&ValueKind::BlockArgRef { bb: BasicBlock(0), index: 0 }).is_empty());
    let jump = ValueKind::Jump { target: BasicBlock(5), args: vec![] };
    let mut jb = jump.bb_uses();
    assert_eq!(jb.next(), Some(BasicBlock(5)));
    assert_eq!(jb.next(), None);
    assert_eq!(ValueKind::Load { src: Value(3) }.bb_uses().next(), None);
}

#[test]
fn constants_and_instructions() {
    assert!(ValueKind::Integer { value: 0 }.is_const());
    assert!(ValueKind::ZeroInit.is_const());
    assert!(ValueKind::Undef.is_const());
    assert!(ValueKind::Aggregate { elems: vec![] }.is_const());
    assert!(!ValueKind::Alloc.is_const());
    assert!(!ValueKind::FuncArgRef { index: 0 }.is_const());
    assert!(!ValueKind::Integer { value: 0 }.is_inst());
    assert!(!ValueKind::Aggregate { elems: vec![] }.is_inst());
    assert!(!ValueKind::FuncArgRef { index: 0 }.is_inst());
    assert!(!ValueKind::BlockArgRef { bb: BasicBlock(0), index: 0 }.is_inst());
    assert!(ValueKind::Alloc.is_inst());
    assert!(ValueKind::GlobalAlloc { init: Value(0) }.is_inst());
    assert!(ValueKind::Load { src: Value(0) }.is_inst());
    assert!(ValueKind::Return { value: None }.is_inst());
    assert!(ValueKind::Return { value: None }.is_terminator());
    assert!(ValueKind::Jump { target: BasicBlock(0), args: vec![] }.is_terminator());
    assert!(!ValueKind::Load { src: Value(0) }.is_terminator());
}

#[test]
fn typing_of_each_builder() {
    let mut cx = Context::new(InternerIds::new().next_id().unwrap());
    let i32_ty = cx.types.get_i32().unwrap();
    let unit = cx.types.get_unit().unwrap();
    let mut dfg = DataFlowGraph::new(i32_ty);
    let one = dfg.integer(&mut cx, 1).unwrap();
    assert_eq!(*dfg.value(one).unwrap().ty(), i32_ty);
    assert_eq!(*dfg.value(one).unwrap().kind(), ValueKind::Integer { value: 1 });

    let z = dfg.zero_init(&mut cx, i32_ty).unwrap();
    let u = dfg.undef(&mut cx, i32_ty).unwrap();
    assert_eq!(*dfg.value(z).unwrap().ty(), i32_ty);
    assert_eq!(*dfg.value(u).unwrap().kind(), ValueKind::Undef);
    assert_eq!(dfg.zero_init(&mut cx, koopa::ir::types::Type(40, 0)), Err(IrError::UnknownType));

    // aggregate
    let agg = dfg.aggregate(&mut cx, vec![one, z, u]).unwrap();
    let agg_ty = *dfg.value(agg).unwrap().ty();
    assert_eq!(cx.types.text_of(agg_ty).unwrap(), "i32[3]");
    assert_eq!(dfg.aggregate(&mut cx, vec![]), Err(IrError::EmptyAggregate));
    let slot = dfg.local_alloc(&mut cx, i32_ty).unwrap();
    assert_eq!(dfg.aggregate(&mut cx, vec![one, slot]), Err(IrError::NotConstant));
    assert_eq!(dfg.aggregate(&mut cx, vec![one, agg]), Err(IrError::TypeMismatch));
    assert_eq!(dfg.aggregate(&mut cx, vec![Value(77)]), Err(IrError::UnknownValue));
    let nested = dfg.aggregate(&mut cx, vec![agg, agg]).unwrap();
    let nested_ty = *dfg.value(nested).unwrap().ty();
    assert_eq!(cx.types.text_of(nested_ty).unwrap(), "i32[3][2]");
    let mut users = dfg.value(agg).unwrap().used_by();
    users.sort_by_key(|v| v.0);
    assert_eq!(users, vec![nested]);

    // memory
    let slot_ty = *dfg.value(slot).unwrap().ty();
    assert_eq!(cx.types.text_of(slot_ty).unwrap(), "*i32");
    let loaded = dfg.load(&mut cx, slot).unwrap();
    assert_eq!(*dfg.value(loaded).unwrap().ty(), i32_ty);
    assert_eq!(dfg.load(&mut cx, one), Err(IrError::TypeMismatch));
    assert_eq!(dfg.load(&mut cx, Value(77)), Err(IrError::UnknownValue));
    let st = dfg.store(&mut cx, one, slot).unwrap();
    assert_eq!(*dfg.value(st).unwrap().ty(), unit);
    assert_eq!(dfg.store(&mut cx, slot, slot), Err(IrError::TypeMismatch));
    assert_eq!(dfg.store(&mut cx, one, one), Err(IrError::TypeMismatch));
    let ga = dfg.global_alloc(&mut cx, agg).unwrap();
    let ga_ty = *dfg.value(ga).unwrap().ty();
    assert_eq!(cx.types.text_of(ga_ty).unwrap(), "*i32[3]");
    assert_eq!(dfg.global_alloc(&mut cx, slot), Err(IrError::NotConstant));

    // addressing
    let gp = dfg.get_ptr(&mut cx, slot, one).unwrap();
    assert_eq!(*dfg.value(gp).unwrap().ty(), slot_ty);
    assert_eq!(dfg.get_ptr(&mut cx, one, one), Err(IrError::TypeMismatch));
    assert_eq!(dfg.get_ptr(&mut cx, slot, slot), Err(IrError::TypeMismatch));
    let gep = dfg.get_elem_ptr(&mut cx, ga, one).unwrap();
    assert_eq!(*dfg.value(gep).unwrap().ty(), slot_ty);
    assert_eq!(dfg.get_elem_ptr(&mut cx, slot, one), Err(IrError::TypeMismatch));

    // arithmetic
    let sum = dfg.binary(&mut cx, BinaryOp::Add, one, loaded).unwrap();
    assert_eq!(*dfg.value(sum).unwrap().ty(), i32_ty);
    let cmp = dfg.binary(&mut cx, BinaryOp::Lt, one, sum).unwrap();
    assert_eq!(*dfg.value(cmp).unwrap().ty(), i32_ty);
    assert_eq!(dfg.binary(&mut cx, BinaryOp::Add, one, slot), Err(IrError::TypeMismatch));
    let twice = dfg.binary(&mut cx, BinaryOp::Mul, sum, sum).unwrap();
    assert_eq!(dfg.value(sum).unwrap().used_by().len(), 2);
    assert!(dfg.value(sum).unwrap().is_used_by(twice));
    assert!(dfg.value(sum).unwrap().is_used_by(cmp));

    // control
    let target = dfg.new_bb(&mut cx, None).unwrap();
    let j = dfg.jump(&mut cx, target, vec![]).unwrap();
    assert_eq!(*dfg.value(j).unwrap().ty(), unit);
    assert_eq!(dfg.jump(&mut cx, target, vec![one]), Err(IrError::ArityMismatch));
    assert_eq!(dfg.jump(&mut cx, BasicBlock(50), vec![]), Err(IrError::UnknownBlock));
    let r = dfg.return_(&mut cx, Some(sum)).unwrap();
    assert_eq!(*dfg.value(r).unwrap().ty(), unit);
    assert_eq!(dfg.return_(&mut cx, Some(slot)), Err(IrError::TypeMismatch));
    assert_eq!(dfg.return_(&mut cx, None), Err(IrError::TypeMismatch));
    let mut unit_graph = DataFlowGraph::new(unit);
    assert!(unit_graph.return_(&mut cx, None).is_ok());

    // references to parameters are never made alone
    assert_eq!(
        dfg.new_value(&mut cx, ValueData::new(i32_ty, ValueKind::FuncArgRef { index: 0 })),
        Err(IrError::InvalidKind)
    );
    assert_eq!(
        dfg.build(&mut cx, ValueKind::BlockArgRef { bb: target, index: 0 }),
        Err(IrError::InvalidKind)
    );
    // kinds whose type the caller chooses are not built from the kind alone
    assert_eq!(dfg.build(&mut cx, ValueKind::Alloc), Err(IrError::TypeMismatch));
}

#[test]
fn calls_follow_the_signature() {
    let mut program = Program::new(InternerIds::new().next_id().unwrap());
    let (i32_ty, unit, callee_ty, main_ty) = {
        let cx = program.context_mut();
        let i32_ty = cx.types.get_i32().unwrap();
        let unit = cx.types.get_unit().unwrap();
        let callee_ty = cx.types.get_function(vec![i32_ty, i32_ty], i32_ty).unwrap();
        let main_ty = cx.types.get_function(vec![], unit).unwrap();
        (i32_ty, unit, callee_ty, main_ty)
    };
    let decl = FunctionData::new_decl(program.context_mut(), "@max".to_string(), callee_ty).unwrap();
    assert!(decl.is_decl());
    assert_eq!(decl.params().len(), 2);
    let callee = program.new_func(decl).unwrap();
    let mut main = FunctionData::new(program.context_mut(), "@main".to_string(), main_ty).unwrap();
    let cx = program.context_mut();
    let dfg = main.dfg_mut();
    let a = dfg.integer(cx, 1).unwrap();
    let b = dfg.integer(cx, 2).unwrap();
    let slot = dfg.local_alloc(cx, i32_ty).unwrap();
    assert_eq!(dfg.call(cx, callee, vec![a]), Err(IrError::ArityMismatch));
    assert_eq!(dfg.call(cx, callee, vec![a, slot]), Err(IrError::TypeMismatch));
    assert_eq!(dfg.call(cx, Function(31), vec![a, b]), Err(IrError::UnknownFunction));
    let c = dfg.call(cx, callee, vec![a, b]).unwrap();
    assert_eq!(*dfg.value(c).unwrap().ty(), i32_ty);
    assert_eq!(dfg.value(a).unwrap().used_by(), vec![c]);
    let r = dfg.return_(cx, None).unwrap();
    assert_eq!(*dfg.value(r).unwrap().ty(), unit);
    let main_handle = program.new_func(main).unwrap();
    assert_ne!(main_handle, callee);
    assert_eq!(program.funcs().len(), 2);
    let removed = program.remove_func(callee).unwrap();
    assert_eq!(removed.name(), "@max");
    assert!(program.remove_func(callee).is_none());
    assert!(program.func(callee).is_none());
    assert!(program.func(main_handle).is_some());
}
