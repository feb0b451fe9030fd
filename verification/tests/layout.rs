use koopa::ir::context::Context;
use koopa::ir::entities::{BasicBlock, BinaryOp, Value};
use koopa::ir::error::IrError;
use koopa::ir::function::FunctionData;
use koopa::ir::idman::InternerIds;

struct Fixture {
    cx: Context,
    func: FunctionData,
    b1: BasicBlock,
    b2: BasicBlock,
    b3: BasicBlock,
    konst: Value,
    i1: Value,
    i2: Value,
    i3: Value,
}

fn fixture() -> Fixture {
    let mut cx = Context::new(InternerIds::new().next_id().unwrap());
    let i32_ty = cx.types.get_i32().unwrap();
    let fun_ty = cx.types.get_function(vec![], i32_ty).unwrap();
    let mut func = FunctionData::new(&mut cx, "@f".to_string(), fun_ty).unwrap();
    let dfg = func.dfg_mut();
    let b1 = dfg.new_bb(&mut cx, Some("%b1".to_string())).unwrap();
    let b2 = dfg.new_bb(&mut cx, Some("%b2".to_string())).unwrap();
    let b3 = dfg.new_bb(&mut cx, None).unwrap();
    let konst = dfg.integer(&mut cx, 5).unwrap();
    let i1 = dfg.binary(&mut cx, BinaryOp::Add, konst, konst).unwrap();
    let i2 = dfg.binary(&mut cx, BinaryOp::Mul, i1, konst).unwrap();
    let i3 = dfg.return_(&mut cx, Some(i2)).unwrap();
    Fixture { cx, func, b1, b2, b3, konst, i1, i2, i3 }
}

#[test]
fn blocks_keep_their_order() {
    let mut f = fixture();
    assert!(f.func.layout().is_empty());
    assert_eq!(f.func.layout().entry_bb(), None);
    f.func.append_bb(&f.cx, f.b2).unwrap();
    f.func.append_bb(&f.cx, f.b3).unwrap();
    f.func.insert_bb_before(&f.cx, f.b1, f.b2).unwrap();
    assert_eq!(f.func.layout().bbs(), vec![f.b1, f.b2, f.b3]);
    assert_eq!(f.func.layout().entry_bb(), Some(f.b1));
    assert_eq!(f.func.layout().bb_count(), 3);
    assert_eq!(f.func.layout().bb_at(1), Some(f.b2));
    assert_eq!(f.func.layout().bb_at(3), None);
    assert!(f.func.layout().has_bb(f.b3));
    f.func.layout_remove_bb(&f.cx, f.b2).unwrap();
    assert_eq!(f.func.layout().bbs(), vec![f.b1, f.b3]);
    assert!(!f.func.layout().has_bb(f.b2));
    f.func.insert_bb_before(&f.cx, f.b2, f.b3).unwrap();
    assert_eq!(f.func.layout().bbs(), vec![f.b1, f.b2, f.b3]);
}

#[test]
fn block_entries_are_checked() {
    let mut f = fixture();
    f.func.append_bb(&f.cx, f.b1).unwrap();
    assert_eq!(f.func.append_bb(&f.cx, f.b1), Err(IrError::AlreadyInLayout));
    assert_eq!(f.func.append_bb(&f.cx, BasicBlock(404)), Err(IrError::UnknownBlock));
    assert_eq!(f.func.insert_bb_before(&f.cx, f.b2, f.b3), Err(IrError::NotInLayout));
    assert_eq!(f.func.insert_bb_before(&f.cx, f.b1, f.b1), Err(IrError::AlreadyInLayout));
    assert_eq!(
        f.func.insert_bb_before(&f.cx, BasicBlock(404), f.b1),
        Err(IrError::UnknownBlock)
    );
    assert_eq!(f.func.layout_remove_bb(&f.cx, f.b2), Err(IrError::NotInLayout));
    assert_eq!(f.func.layout().bbs(), vec![f.b1]);
}

#[test]
fn instructions_keep_their_order() {
    let mut f = fixture();
    f.func.append_bb(&f.cx, f.b1).unwrap();
    f.func.append_bb(&f.cx, f.b2).unwrap();
    f.func.append_inst(&f.cx, f.i3, f.b1).unwrap();
    f.func.insert_inst_before(&f.cx, f.i1, f.i3).unwrap();
    f.func.insert_inst_before(&f.cx, f.i2, f.i3).unwrap();
    assert_eq!(f.func.layout().insts(f.b1).unwrap(), &[f.i1, f.i2, f.i3]);
    assert_eq!(f.func.layout().insts(f.b2).unwrap(), &[] as &[Value]);
    assert!(f.func.layout().insts(f.b3).is_none());
    assert_eq!(f.func.layout().inst_prev(f.i1), None);
    assert_eq!(f.func.layout().inst_next(f.i1), Some(f.i2));
    assert_eq!(f.func.layout().inst_prev(f.i2), Some(f.i1));
    assert_eq!(f.func.layout().inst_next(f.i2), Some(f.i3));
    assert_eq!(f.func.layout().inst_next(f.i3), None);
    assert_eq!(f.func.layout().inst_prev(f.konst), None);
    assert_eq!(f.func.layout().inst_next(Value(404)), None);
    assert_eq!(f.func.layout().parent_bb(f.i2), Some(f.b1));
    assert_eq!(f.func.layout().parent_bb(f.konst), None);
    f.func.remove_inst(&f.cx, f.i2).unwrap();
    assert_eq!(f.func.layout().insts(f.b1).unwrap(), &[f.i1, f.i3]);
    assert_eq!(f.func.layout().inst_next(f.i1), Some(f.i3));
    assert!(!f.func.layout().has_inst(f.i2));
    f.func.append_inst(&f.cx, f.i2, f.b2).unwrap();
    assert_eq!(f.func.layout().parent_bb(f.i2), Some(f.b2));
    // neighbours are looked for within one block
    assert_eq!(f.func.layout().inst_next(f.i3), None);
    assert_eq!(f.func.layout().inst_prev(f.i2), None);
    // a block leaves with its instructions
    f.func.layout_remove_bb(&f.cx, f.b1).unwrap();
    assert!(!f.func.layout().has_inst(f.i1));
    assert!(!f.func.layout().has_inst(f.i3));
    assert!(f.func.layout().has_inst(f.i2));
    assert_eq!(f.func.layout().bbs(), vec![f.b2]);
}

#[test]
fn instruction_entries_are_checked() {
    let mut f = fixture();
    f.func.append_bb(&f.cx, f.b1).unwrap();
    assert_eq!(f.func.append_inst(&f.cx, f.konst, f.b1), Err(IrError::NotInstruction));
    assert_eq!(f.func.append_inst(&f.cx, Value(404), f.b1), Err(IrError::UnknownValue));
    assert_eq!(f.func.append_inst(&f.cx, f.i1, f.b2), Err(IrError::NotInLayout));
    f.func.append_inst(&f.cx, f.i1, f.b1).unwrap();
    assert_eq!(f.func.append_inst(&f.cx, f.i1, f.b1), Err(IrError::AlreadyInLayout));
    assert_eq!(f.func.insert_inst_before(&f.cx, f.i1, f.i1), Err(IrError::AlreadyInLayout));
    assert_eq!(f.func.insert_inst_before(&f.cx, f.i2, f.i3), Err(IrError::NotInLayout));
    assert_eq!(f.func.insert_inst_before(&f.cx, f.konst, f.i1), Err(IrError::NotInstruction));
    assert_eq!(f.func.remove_inst(&f.cx, f.i2), Err(IrError::NotInLayout));
    assert_eq!(f.func.layout().insts(f.b1).unwrap(), &[f.i1]);
}

#[test]
fn what_the_layout_holds_cannot_leave_the_graph() {
    let mut f = fixture();
    f.func.append_bb(&f.cx, f.b1).unwrap();
    f.func.append_inst(&f.cx, f.i3, f.b1).unwrap();
    assert!(matches!(f.func.remove_value(&mut f.cx, f.i3), Err(IrError::InLayout)));
    assert!(matches!(f.func.remove_bb(&f.cx, f.b1), Err(IrError::InLayout)));
    assert!(f.func.remove_bb(&f.cx, f.b2).is_ok());
    f.func.remove_inst(&f.cx, f.i3).unwrap();
    assert!(f.func.remove_value(&mut f.cx, f.i3).is_ok());
    f.func.layout_remove_bb(&f.cx, f.b1).unwrap();
    assert!(f.func.remove_bb(&f.cx, f.b1).is_ok());
    // every entry of the layout is a block or an instruction of the graph
    for bb in f.func.layout().bbs() {
        assert!(f.func.dfg().bb(bb).is_some());
        for inst in f.func.layout().insts(bb).unwrap() {
            assert!(f.func.dfg().value(*inst).unwrap().is_inst());
        }
    }
}
