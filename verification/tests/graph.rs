use koopa::ir::context::Context;
use koopa::ir::dfg::DataFlowGraph;
use koopa::ir::entities::{
    check_name, BasicBlock, BasicBlockData, BinaryOp, Value, ValueData, ValueKind,
};
use koopa::ir::error::IrError;
use koopa::ir::function::FunctionData;
use koopa::ir::idman::{IdAllocator, InternerIds};
use koopa::ir::program::Program;
use koopa::ir::types::Type;

fn operands(kind: &ValueKind) -> Vec<Value> {
    let mut it = kind.value_uses();
    let mut out = Vec::new();
    while let Some(v) = it.next() {
        out.push(v);
    }
    out
}

fn blocks(kind: &ValueKind) -> Vec<BasicBlock> {
    let mut it = kind.bb_uses();
    let mut out = Vec::new();
    while let Some(b) = it.next() {
        out.push(b);
    }
    out
}

fn function(cx: &mut Context) -> FunctionData {
    let i32_ty = cx.types.get_i32().unwrap();
    let ty = cx.types.get_function(vec![], i32_ty).unwrap();
    FunctionData::new(cx, "@f".to_string(), ty).unwrap()
}

/// Walks the whole graph and checks the use-def relation in both directions.
fn audit(cx: &Context, dfg: &DataFlowGraph) {
    for v in dfg.values() {
        let data = dfg.value(v).unwrap();
        for u in operands(data.kind()) {
            let used = dfg.value(u).or_else(|| cx.value(u)).expect("operand in scope");
            assert!(used.is_used_by(v));
        }
        for b in blocks(data.kind()) {
            assert!(dfg.bb(b).expect("block in graph").is_used_by(v));
        }
        for w in data.used_by() {
            let user = dfg.value(w).expect("user in graph");
            assert!(operands(user.kind()).contains(&v));
        }
    }
    for b in dfg.bbs() {
        for w in dfg.bb(b).unwrap().used_by() {
            let user = dfg.value(w).expect("user in graph");
            assert!(blocks(user.kind()).contains(&b));
        }
    }
    for g in cx.values.handles() {
        let data = cx.value(g).unwrap();
        for u in operands(data.kind()) {
            assert!(cx.value(u).expect("global operand").is_used_by(g));
        }
        for w in data.used_by() {
            if let Some(user) = dfg.value(w).or_else(|| cx.value(w)) {
                assert!(operands(user.kind()).contains(&g));
            }
        }
    }
}

fn sorted(mut v: Vec<Value>) -> Vec<Value> {
    v.sort_by_key(|x| x.0);
    v
}

#[test]
fn use_def_relation_is_symmetric() {
    let mut cx = Context::new(InternerIds::new().next_id().unwrap());
    let i32_ty = cx.types.get_i32().unwrap();
    let arr = cx.types.get_array(i32_ty, 2).unwrap();
    let arr_ptr = cx.types.get_pointer(arr).unwrap();
    let zero = cx.new_value(ValueData::new(arr, ValueKind::ZeroInit)).unwrap();
    let g = cx.new_value(ValueData::new(arr_ptr, ValueKind::GlobalAlloc { init: zero })).unwrap();
    let mut func = function(&mut cx);
    let bb1_ty = cx.types.get_basic_block(vec![i32_ty]).unwrap();
    let head = func.dfg_mut().new_bb_with_params(&mut cx, None, vec![i32_ty], bb1_ty).unwrap();
    let tail = func.dfg_mut().new_bb(&mut cx, None).unwrap();
    let p = func.dfg_mut().bb(head).unwrap().params()[0];
    let one = func.dfg_mut().integer(&mut cx, 1).unwrap();
    let ptr = func.dfg_mut().get_elem_ptr(&mut cx, g, one).unwrap();
    let loaded = func.dfg_mut().load(&mut cx, ptr).unwrap();
    let sum = func.dfg_mut().binary(&mut cx, BinaryOp::Add, loaded, p).unwrap();
    let twice = func.dfg_mut().binary(&mut cx, BinaryOp::Add, sum, sum).unwrap();
    let cond = func.dfg_mut().binary(&mut cx, BinaryOp::Lt, twice, one).unwrap();
    let br = func.dfg_mut().branch(&mut cx, cond, head, vec![twice], tail, vec![]).unwrap();
    let back = func.dfg_mut().jump(&mut cx, head, vec![sum]).unwrap();
    let ret = func.dfg_mut().return_(&mut cx, Some(twice)).unwrap();
    audit(&cx, func.dfg());
    assert_eq!(sorted(func.dfg_mut().value(twice).unwrap().used_by()), sorted(vec![cond, br, ret]));
    assert_eq!(sorted(func.dfg_mut().value(sum).unwrap().used_by()), sorted(vec![twice, back]));
    assert_eq!(sorted(func.dfg_mut().bb(head).unwrap().used_by()), sorted(vec![br, back]));
    assert_eq!(func.dfg_mut().bb(tail).unwrap().used_by(), vec![br]);
    assert_eq!(cx.value(g).unwrap().used_by(), vec![ptr]);

    // replacement keeps the relation
    let other = func.dfg_mut().binary(&mut cx, BinaryOp::Sub, loaded, p).unwrap();
    func.dfg_mut().replace_value_with(&mut cx, twice, other).unwrap();
    audit(&cx, func.dfg());
    assert!(func.dfg_mut().value(twice).unwrap().used_by().is_empty());
    assert_eq!(sorted(func.dfg_mut().value(other).unwrap().used_by()), sorted(vec![cond, br, ret]));
    assert_eq!(
        *func.dfg_mut().value(br).unwrap().kind(),
        ValueKind::Branch {
            cond,
            true_bb: head,
            true_args: vec![other],
            false_bb: tail,
            false_args: vec![]
        }
    );
    // a local value can be replaced by a global one of its type
    let zero_local = func.dfg_mut().zero_init(&mut cx, arr).unwrap();
    let ga = func.dfg_mut().global_alloc(&mut cx, zero_local).unwrap();
    let elem = func.dfg_mut().get_elem_ptr(&mut cx, ga, one).unwrap();
    func.dfg_mut().replace_value_with(&mut cx, ga, g).unwrap();
    audit(&cx, func.dfg());
    assert_eq!(sorted(cx.value(g).unwrap().used_by()), sorted(vec![ptr, elem]));
    assert_eq!(*func.dfg_mut().value(elem).unwrap().kind(), ValueKind::GetElemPtr { src: g, index: one });

    // removal keeps the relation
    for v in [ret, back, br, cond, twice, other, sum] {
        func.remove_value(&mut cx, v).unwrap();
        audit(&cx, func.dfg());
    }
    assert!(func.dfg_mut().bb(head).unwrap().used_by().is_empty());
    assert!(func.dfg_mut().value(p).unwrap().used_by().is_empty());
}

#[test]
fn replacing_a_value_by_itself_changes_nothing() {
    let mut cx = Context::new(InternerIds::new().next_id().unwrap());
    let i32_ty = cx.types.get_i32().unwrap();
    let mut dfg = DataFlowGraph::new(i32_ty);
    let a = dfg.integer(&mut cx, 1).unwrap();
    let b = dfg.binary(&mut cx, BinaryOp::Add, a, a).unwrap();
    let c = dfg.binary(&mut cx, BinaryOp::Add, a, b).unwrap();
    dfg.replace_value_with(&mut cx, a, a).unwrap();
    assert_eq!(sorted(dfg.value(a).unwrap().used_by()), sorted(vec![b, c]));
    assert_eq!(*dfg.value(b).unwrap().kind(), ValueKind::Binary { op: BinaryOp::Add, lhs: a, rhs: a });
    assert_eq!(*dfg.value(c).unwrap().kind(), ValueKind::Binary { op: BinaryOp::Add, lhs: a, rhs: b });
    dfg.replace_value_with(&mut cx, b, b).unwrap();
    assert_eq!(dfg.value(b).unwrap().used_by(), vec![c]);
    audit(&cx, &dfg);
}

#[test]
fn replacement_is_checked() {
    let mut cx = Context::new(InternerIds::new().next_id().unwrap());
    let i32_ty = cx.types.get_i32().unwrap();
    let mut dfg = DataFlowGraph::new(i32_ty);
    let a = dfg.integer(&mut cx, 1).unwrap();
    let slot = dfg.local_alloc(&mut cx, i32_ty).unwrap();
    let user = dfg.binary(&mut cx, BinaryOp::Add, a, a).unwrap();
    assert_eq!(dfg.replace_value_with(&mut cx, a, slot), Err(IrError::TypeMismatch));
    assert_eq!(dfg.replace_value_with(&mut cx, Value(404), a), Err(IrError::UnknownValue));
    assert_eq!(dfg.replace_value_with(&mut cx, a, Value(404)), Err(IrError::UnknownValue));
    assert_eq!(dfg.value(a).unwrap().used_by(), vec![user]);
    let g = cx.new_value(ValueData::new(i32_ty, ValueKind::Integer { value: 3 })).unwrap();
    // only a value of the graph can be replaced
    assert_eq!(dfg.replace_value_with(&mut cx, g, a), Err(IrError::UnknownValue));
    dfg.replace_value_with(&mut cx, a, g).unwrap();
    assert_eq!(cx.value(g).unwrap().used_by(), vec![user]);
    assert_eq!(*dfg.value(user).unwrap().kind(), ValueKind::Binary { op: BinaryOp::Add, lhs: g, rhs: g });
    // a value that has come to use itself can still be rewired
    let x = dfg.binary(&mut cx, BinaryOp::Add, user, user).unwrap();
    dfg.replace_value_with(&mut cx, user, x).unwrap();
    assert_eq!(*dfg.value(x).unwrap().kind(), ValueKind::Binary { op: BinaryOp::Add, lhs: x, rhs: x });
    assert_eq!(dfg.value(x).unwrap().used_by(), vec![x]);
    let y = dfg.integer(&mut cx, 9).unwrap();
    dfg.replace_value_with(&mut cx, x, y).unwrap();
    assert!(dfg.value(x).unwrap().used_by().is_empty());
    assert_eq!(dfg.value(y).unwrap().used_by(), vec![x]);
    audit(&cx, &dfg);
}

#[test]
fn creating_and_removing_restores_the_users() {
    let mut cx = Context::new(InternerIds::new().next_id().unwrap());
    let i32_ty = cx.types.get_i32().unwrap();
    let mut func = function(&mut cx);
    let global = cx.new_value(ValueData::new(i32_ty, ValueKind::Integer { value: 1 })).unwrap();
    let a = func.dfg_mut().integer(&mut cx, 2).unwrap();
    let b = func.dfg_mut().binary(&mut cx, BinaryOp::Add, a, global).unwrap();
    let target = func.dfg_mut().new_bb(&mut cx, None).unwrap();
    let before: Vec<Vec<Value>> = vec![
        sorted(func.dfg_mut().value(a).unwrap().used_by()),
        sorted(func.dfg_mut().value(b).unwrap().used_by()),
        sorted(cx.value(global).unwrap().used_by()),
        sorted(func.dfg_mut().bb(target).unwrap().used_by()),
    ];
    let c = func.dfg_mut().binary(&mut cx, BinaryOp::Mul, a, b).unwrap();
    func.remove_value(&mut cx, c).unwrap();
    let d = func.dfg_mut().binary(&mut cx, BinaryOp::Mul, global, global).unwrap();
    func.remove_value(&mut cx, d).unwrap();
    let e = func.dfg_mut().jump(&mut cx, target, vec![]).unwrap();
    func.remove_value(&mut cx, e).unwrap();
    let after: Vec<Vec<Value>> = vec![
        sorted(func.dfg_mut().value(a).unwrap().used_by()),
        sorted(func.dfg_mut().value(b).unwrap().used_by()),
        sorted(cx.value(global).unwrap().used_by()),
        sorted(func.dfg_mut().bb(target).unwrap().used_by()),
    ];
    assert_eq!(before, after);
    // handles are never handed out twice
    assert!(c.0 < d.0 && d.0 < e.0);
    assert!(func.dfg_mut().value(c).is_none());
}

#[test]
fn removal_of_values_is_checked() {
    let mut cx = Context::new(InternerIds::new().next_id().unwrap());
    let i32_ty = cx.types.get_i32().unwrap();
    let fun_ty = cx.types.get_function(vec![i32_ty], i32_ty).unwrap();
    let mut func = FunctionData::new(&mut cx, "%f".to_string(), fun_ty).unwrap();
    let param = func.params()[0];
    assert_eq!(*func.dfg_mut().value(param).unwrap().kind(), ValueKind::FuncArgRef { index: 0 });
    assert_eq!(*func.dfg_mut().value(param).unwrap().ty(), i32_ty);
    assert!(matches!(func.remove_value(&mut cx, param), Err(IrError::InvalidKind)));
    assert!(matches!(func.remove_value(&mut cx, Value(404)), Err(IrError::UnknownValue)));
    let bb_ty = cx.types.get_basic_block(vec![i32_ty]).unwrap();
    let bb = func.dfg_mut().new_bb_with_params(&mut cx, None, vec![i32_ty], bb_ty).unwrap();
    let bparam = func.dfg_mut().bb(bb).unwrap().params()[0];
    assert_eq!(*func.dfg_mut().value(bparam).unwrap().kind(), ValueKind::BlockArgRef { bb, index: 0 });
    assert!(matches!(func.remove_value(&mut cx, bparam), Err(IrError::InvalidKind)));
    // a block whose parameter is used stays
    let user = func.dfg_mut().binary(&mut cx, BinaryOp::Add, bparam, param).unwrap();
    assert!(matches!(func.remove_bb(&cx, bb), Err(IrError::InUse)));
    func.remove_value(&mut cx, user).unwrap();
    assert!(func.remove_bb(&cx, bb).is_ok());
    assert_eq!(func.dfg_mut().values(), vec![param]);
    assert!(func.dfg_mut().bbs().is_empty());
}

#[test]
fn names_are_checked() {
    assert!(check_name("%x"));
    assert!(check_name("@main"));
    assert!(check_name("%é"));
    assert!(!check_name("%"));
    assert!(!check_name("@"));
    assert!(!check_name(""));
    assert!(!check_name("x1"));
    assert!(!check_name("é%"));

    let mut cx = Context::new(InternerIds::new().next_id().unwrap());
    let i32_ty = cx.types.get_i32().unwrap();
    let mut dfg = DataFlowGraph::new(i32_ty);
    let v = dfg.integer(&mut cx, 1).unwrap();
    assert_eq!(*dfg.value(v).unwrap().name(), None);
    dfg.set_value_name(&cx, v, Some("%one".to_string())).unwrap();
    assert_eq!(*dfg.value(v).unwrap().name(), Some("%one".to_string()));
    assert_eq!(dfg.set_value_name(&cx, v, Some("one".to_string())), Err(IrError::InvalidName));
    assert_eq!(dfg.set_value_name(&cx, v, Some("%".to_string())), Err(IrError::InvalidName));
    assert_eq!(*dfg.value(v).unwrap().name(), Some("%one".to_string()));
    assert_eq!(dfg.set_value_name(&cx, Value(404), None), Err(IrError::UnknownValue));
    dfg.set_value_name(&cx, v, None).unwrap();
    assert_eq!(*dfg.value(v).unwrap().name(), None);

    let mut data = ValueData::new(i32_ty, ValueKind::Undef);
    assert_eq!(data.set_name(Some("bad".to_string())), Err(IrError::InvalidName));
    assert_eq!(*data.name(), None);
    assert_eq!(data.set_name(Some("@good".to_string())), Ok(()));
    assert_eq!(*data.name(), Some("@good".to_string()));

    assert_eq!(dfg.new_bb(&mut cx, Some("entry".to_string())), Err(IrError::InvalidName));
    assert!(BasicBlockData::new(&mut cx.types, Some("x".to_string())).is_err());
    let named = BasicBlockData::new(&mut cx.types, Some("%entry".to_string())).unwrap();
    assert_eq!(*named.name(), Some("%entry".to_string()));
    assert!(named.params().is_empty());
    assert!(!named.has_users());
    assert_eq!(cx.types.text_of(*named.ty()).unwrap(), "bb()");

    assert!(matches!(
        FunctionData::new(&mut cx, "main".to_string(), Type(0, 0)),
        Err(IrError::InvalidName)
    ));
    assert!(matches!(
        FunctionData::new(&mut cx, "@".to_string(), Type(0, 0)),
        Err(IrError::InvalidName)
    ));
}

#[test]
fn block_records_are_checked() {
    let mut cx = Context::new(InternerIds::new().next_id().unwrap());
    let i32_ty = cx.types.get_i32().unwrap();
    let bb2 = cx.types.get_basic_block(vec![i32_ty, i32_ty]).unwrap();
    let ok = BasicBlockData::with_params(&cx.types, None, vec![Value(1), Value(2)], bb2).unwrap();
    assert_eq!(ok.params(), &[Value(1), Value(2)]);
    assert_eq!(*ok.ty(), bb2);
    assert!(ok.used_by().is_empty());
    assert!(matches!(
        BasicBlockData::with_params(&cx.types, None, vec![Value(1)], bb2),
        Err(IrError::ArityMismatch)
    ));
    assert!(matches!(
        BasicBlockData::with_params(&cx.types, None, vec![], i32_ty),
        Err(IrError::TypeMismatch)
    ));
    assert!(matches!(
        BasicBlockData::with_params(&cx.types, None, vec![], Type(404, 0)),
        Err(IrError::UnknownType)
    ));
    assert!(matches!(
        BasicBlockData::with_params(&cx.types, Some("b".to_string()), vec![Value(1), Value(2)], bb2),
        Err(IrError::InvalidName)
    ));

    let mut dfg = DataFlowGraph::new(i32_ty);
    assert_eq!(
        dfg.new_bb_with_params(&mut cx, None, vec![i32_ty], bb2),
        Err(IrError::ArityMismatch)
    );
    let unit = cx.types.get_unit().unwrap();
    assert_eq!(
        dfg.new_bb_with_params(&mut cx, None, vec![i32_ty, unit], bb2),
        Err(IrError::TypeMismatch)
    );
    assert_eq!(dfg.new_bb_with_params(&mut cx, None, vec![], i32_ty), Err(IrError::TypeMismatch));
    assert_eq!(dfg.new_bb_with_params(&mut cx, None, vec![], Type(404, 0)), Err(IrError::UnknownType));
    assert!(dfg.values().is_empty());
    let bb = dfg.new_bb_with_params(&mut cx, None, vec![i32_ty, i32_ty], bb2).unwrap();
    let data = dfg.bb(bb).unwrap();
    assert_eq!(data.params().len(), 2);
    for (i, p) in data.params().iter().enumerate() {
        let pd = dfg.value(*p).unwrap();
        assert_eq!(*pd.kind(), ValueKind::BlockArgRef { bb, index: i });
        assert_eq!(*pd.ty(), i32_ty);
    }
}

#[test]
fn functions_are_checked() {
    let mut cx = Context::new(InternerIds::new().next_id().unwrap());
    let i32_ty = cx.types.get_i32().unwrap();
    let unit = cx.types.get_unit().unwrap();
    assert!(matches!(
        FunctionData::new(&mut cx, "@f".to_string(), i32_ty),
        Err(IrError::TypeMismatch)
    ));
    assert!(matches!(
        FunctionData::new(&mut cx, "@f".to_string(), Type(404, 0)),
        Err(IrError::UnknownType)
    ));
    let arr = cx.types.get_array(i32_ty, 3).unwrap();
    let ty = cx.types.get_function(vec![i32_ty, arr], unit).unwrap();
    let f = FunctionData::new(&mut cx, "@f".to_string(), ty).unwrap();
    assert_eq!(*f.ty(), ty);
    assert_eq!(f.name(), "@f");
    assert!(f.is_decl());
    assert_eq!(f.dfg().ret_ty(), unit);
    let expected = [i32_ty, arr];
    assert_eq!(f.params().len(), expected.len());
    for (i, p) in f.params().iter().enumerate() {
        let pd = f.dfg().value(*p).unwrap();
        assert_eq!(*pd.kind(), ValueKind::FuncArgRef { index: i });
        assert_eq!(*pd.ty(), expected[i]);
    }
}

#[test]
fn global_values_are_checked() {
    let mut program = Program::new(InternerIds::new().next_id().unwrap());
    let i32_ty = program.context_mut().types.get_i32().unwrap();
    let unit = program.context_mut().types.get_unit().unwrap();
    let one = program.new_value(ValueData::new(i32_ty, ValueKind::Integer { value: 1 })).unwrap();
    assert_eq!(
        program.new_value(ValueData::new(unit, ValueKind::Integer { value: 1 })),
        Err(IrError::TypeMismatch)
    );
    assert_eq!(
        program.new_value(ValueData::new(Type(404, 0), ValueKind::Undef)),
        Err(IrError::UnknownType)
    );
    assert_eq!(
        program.new_value(ValueData::new(i32_ty, ValueKind::Load { src: Value(404) })),
        Err(IrError::UnknownValue)
    );
    // no function surrounds a global value
    assert_eq!(
        program.new_value(ValueData::new(unit, ValueKind::Return { value: None })),
        Err(IrError::InvalidKind)
    );
    // no basic block is in scope
    assert_eq!(
        program.new_value(ValueData::new(
            unit,
            ValueKind::Jump { target: BasicBlock(0), args: vec![] }
        )),
        Err(IrError::UnknownBlock)
    );
    let arr = program.context_mut().types.get_array(i32_ty, 2).unwrap();
    let agg = program
        .new_value(ValueData::new(arr, ValueKind::Aggregate { elems: vec![one, one] }))
        .unwrap();
    assert_eq!(program.borrow_values().get(one).unwrap().used_by(), vec![agg]);
    assert_eq!(program.borrow_values().len(), 2);
    assert!(program.borrow_values().contains(agg));
    assert!(matches!(program.remove_value(one), Err(IrError::InUse)));
    let removed = program.remove_value(agg).unwrap();
    assert_eq!(*removed.kind(), ValueKind::Aggregate { elems: vec![one, one] });
    assert!(!removed.has_users());
    assert!(program.borrow_values().get(one).unwrap().used_by().is_empty());
    // a record that lists users is not taken for a new value
    let ptr_ty = program.context_mut().types.get_pointer(i32_ty).unwrap();
    let g = program.new_value(ValueData::new(ptr_ty, ValueKind::GlobalAlloc { init: one })).unwrap();
    let _ = g;
    assert!(program.remove_value(one).is_err());
}

#[test]
fn counters_rise_independently() {
    let mut ids = IdAllocator::new();
    assert_eq!(ids.next_value_id(), Some(0));
    assert_eq!(ids.next_value_id(), Some(1));
    assert_eq!(ids.next_bb_id(), Some(0));
    assert_eq!(ids.next_func_id(), Some(0));
    assert_eq!(ids.next_value_id(), Some(2));
    assert_eq!(ids.next_bb_id(), Some(1));
    assert_eq!(ids.next_func_id(), Some(1));
    assert!(ids.has_value_id());
    assert!(ids.has_bb_id());
    assert!(ids.has_value_ids(1000));
    assert!(!ids.has_value_ids(usize::MAX));
}

#[test]
fn counters_at_their_end_hand_out_nothing() {
    let mut ids = IdAllocator::starting_at(u64::MAX - 1, u64::MAX, 7);
    assert_eq!(ids.next_value_id(), Some(u64::MAX - 1));
    assert_eq!(ids.next_value_id(), None);
    assert_eq!(ids.next_value_id(), None);
    assert_eq!(ids.next_bb_id(), None);
    assert_eq!(ids.next_func_id(), Some(7));
    assert!(!ids.has_value_id());
    assert!(!ids.has_bb_id());
    assert!(ids.has_value_ids(0));
    assert!(!ids.has_value_ids(1));

    let mut cx = Context::new(InternerIds::new().next_id().unwrap());
    let i32_ty = cx.types.get_i32().unwrap();
    let fun_ty = cx.types.get_function(vec![i32_ty, i32_ty], i32_ty).unwrap();
    let bb_ty = cx.types.get_basic_block(vec![i32_ty]).unwrap();
    cx.ids = IdAllocator::starting_at(u64::MAX - 1, u64::MAX, 0);
    // two parameters need two handles
    assert!(matches!(
        FunctionData::new(&mut cx, "@f".to_string(), fun_ty),
        Err(IrError::IdsExhausted)
    ));
    let mut dfg = DataFlowGraph::new(i32_ty);
    assert_eq!(dfg.new_bb(&mut cx, None), Err(IrError::IdsExhausted));
    assert_eq!(
        dfg.new_bb_with_params(&mut cx, None, vec![i32_ty], bb_ty),
        Err(IrError::IdsExhausted)
    );
    let last = dfg.integer(&mut cx, 1).unwrap();
    assert_eq!(last, Value(u64::MAX - 1));
    assert_eq!(dfg.integer(&mut cx, 2), Err(IrError::IdsExhausted));
    assert_eq!(dfg.zero_init(&mut cx, i32_ty), Err(IrError::IdsExhausted));
    assert_eq!(dfg.local_alloc(&mut cx, i32_ty), Err(IrError::IdsExhausted));
    assert_eq!(
        dfg.binary(&mut cx, BinaryOp::Add, last, last),
        Err(IrError::IdsExhausted)
    );
    assert!(dfg.value(last).unwrap().used_by().is_empty());
    assert_eq!(
        cx.new_value(ValueData::new(i32_ty, ValueKind::Undef)),
        Err(IrError::IdsExhausted)
    );

    let mut program = Program::new(InternerIds::new().next_id().unwrap());
    let own_i32 = program.context_mut().types.get_i32().unwrap();
    let ty = program.context_mut().types.get_function(vec![], own_i32).unwrap();
    let data = FunctionData::new(program.context_mut(), "@f".to_string(), ty).unwrap();
    program.context_mut().ids = IdAllocator::starting_at(0, 0, u64::MAX);
    assert_eq!(program.new_func(data), Err(IrError::IdsExhausted));
}

#[test]
fn types_of_another_interner_are_refused() {
    let mut ids = InternerIds::new();
    let mut cx = Context::new(ids.next_id().unwrap());
    let mut other = Context::new(ids.next_id().unwrap());
    let i32_ty = cx.types.get_i32().unwrap();
    let foreign_i32 = other.types.get_i32().unwrap();
    let foreign_fun = other.types.get_function(vec![foreign_i32], foreign_i32).unwrap();
    let foreign_bb = other.types.get_basic_block(vec![]).unwrap();
    assert_ne!(i32_ty, foreign_i32);
    let mut dfg = DataFlowGraph::new(i32_ty);
    assert_eq!(dfg.zero_init(&mut cx, foreign_i32), Err(IrError::UnknownType));
    assert_eq!(dfg.undef(&mut cx, foreign_i32), Err(IrError::UnknownType));
    assert_eq!(dfg.local_alloc(&mut cx, foreign_i32), Err(IrError::UnknownType));
    assert_eq!(
        dfg.new_value(&mut cx, ValueData::new(foreign_i32, ValueKind::Integer { value: 1 })),
        Err(IrError::UnknownType)
    );
    assert_eq!(
        dfg.new_bb_with_params(&mut cx, None, vec![], foreign_bb),
        Err(IrError::UnknownType)
    );
    assert!(matches!(
        FunctionData::new(&mut cx, "@f".to_string(), foreign_fun),
        Err(IrError::UnknownType)
    ));
    assert!(matches!(
        BasicBlockData::with_params(&cx.types, None, vec![], foreign_bb),
        Err(IrError::UnknownType)
    ));
    assert_eq!(
        cx.new_value(ValueData::new(foreign_i32, ValueKind::Undef)),
        Err(IrError::UnknownType)
    );
    assert!(dfg.values().is_empty());
    assert_eq!(cx.types.len(), 1);
    assert!(dfg.integer(&mut cx, 1).is_ok());
    assert_eq!(cx.types.len(), 1);
}
