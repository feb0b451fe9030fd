//! Handles, kinds of values with their operands, and the records of values
//! and basic blocks.

use crate::ir::error::IrError;
use crate::ir::idman::{BasicBlockId, FunctionId, ValueId};
use crate::ir::types::{Type, TypeData, TypeFactory, TypeShape};
use std::collections::HashSet;
use vstd::prelude::*;
use vstd::std_specs::iter::IteratorSpec;
use vstd::string::*;

verus! {

broadcast use vstd::std_specs::hash::group_hash_axioms;

/// A handle of a value. It names the value and does not own it: the data of
/// a value is fetched from the graph or the program that holds it.
#[derive(Clone, Copy, PartialEq, Eq, Hash, Debug, Structural)]
pub struct Value(pub ValueId);

/// A handle of a basic block.
#[derive(Clone, Copy, PartialEq, Eq, Hash, Debug, Structural)]
pub struct BasicBlock(pub BasicBlockId);

/// A handle of a function.
#[derive(Clone, Copy, PartialEq, Eq, Hash, Debug, Structural)]
pub struct Function(pub FunctionId);

/// The operators of binary instructions.
#[derive(Clone, Copy, PartialEq, Eq, Hash, Debug, Structural)]
pub enum BinaryOp {
    NotEq,
    Eq,
    Gt,
    Lt,
    Ge,
    Le,
    Add,
    Sub,
    Mul,
    Div,
    Mod,
    And,
    Or,
    Xor,
    Shl,
    Shr,
    Sar,
}

/// The operators of unary expressions in source text.
#[derive(Clone, Copy, PartialEq, Eq, Hash, Debug, Structural)]
pub enum UnaryOp {
    Neg,
    Not,
}

/// What a value is: a constant, a reference to a formal parameter, or an
/// instruction, with its operands.
#[allow(inconsistent_fields)]
#[derive(PartialEq, Eq, Debug)]
pub enum ValueKind {
    /// Integer constant.
    Integer { value: i32 },
    /// Zero initializer.
    ZeroInit,
    /// Undefined value.
    Undef,
    /// Aggregate constant.
    Aggregate { elems: Vec<Value> },
    /// Reference to a parameter of the function.
    FuncArgRef { index: usize },
    /// Reference to a parameter of a basic block.
    BlockArgRef { bb: BasicBlock, index: usize },
    /// Local memory allocation.
    Alloc,
    /// Global memory allocation.
    GlobalAlloc { init: Value },
    /// Memory load.
    Load { src: Value },
    /// Memory store.
    Store { value: Value, dest: Value },
    /// Pointer calculation.
    GetPtr { src: Value, index: Value },
    /// Element pointer calculation.
    GetElemPtr { src: Value, index: Value },
    /// Binary operation.
    Binary { op: BinaryOp, lhs: Value, rhs: Value },
    /// Conditional branch.
    Branch {
        cond: Value,
        true_bb: BasicBlock,
        true_args: Vec<Value>,
        false_bb: BasicBlock,
        false_args: Vec<Value>,
    },
    /// Unconditional jump.
    Jump { target: BasicBlock, args: Vec<Value> },
    /// Function call.
    Call { callee: Function, args: Vec<Value> },
    /// Function return.
    Return { value: Option<Value> },
}

/// The mathematical value of a [`ValueKind`].
#[allow(inconsistent_fields)]
pub enum KindView {
    Integer { value: i32 },
    ZeroInit,
    Undef,
    Aggregate { elems: Seq<Value> },
    FuncArgRef { index: usize },
    BlockArgRef { bb: BasicBlock, index: usize },
    Alloc,
    GlobalAlloc { init: Value },
    Load { src: Value },
    Store { value: Value, dest: Value },
    GetPtr { src: Value, index: Value },
    GetElemPtr { src: Value, index: Value },
    Binary { op: BinaryOp, lhs: Value, rhs: Value },
    Branch {
        cond: Value,
        true_bb: BasicBlock,
        true_args: Seq<Value>,
        false_bb: BasicBlock,
        false_args: Seq<Value>,
    },
    Jump { target: BasicBlock, args: Seq<Value> },
    Call { callee: Function, args: Seq<Value> },
    Return { value: Option<Value> },
}

impl View for ValueKind {
    type V = KindView;

    open spec fn view(&self) -> KindView {
        match *self {
            ValueKind::Integer { value } => KindView::Integer { value },
            ValueKind::ZeroInit => KindView::ZeroInit,
            ValueKind::Undef => KindView::Undef,
            ValueKind::Aggregate { elems } => KindView::Aggregate { elems: elems@ },
            ValueKind::FuncArgRef { index } => KindView::FuncArgRef { index },
            ValueKind::BlockArgRef { bb, index } => KindView::BlockArgRef { bb, index },
            ValueKind::Alloc => KindView::Alloc,
            ValueKind::GlobalAlloc { init } => KindView::GlobalAlloc { init },
            ValueKind::Load { src } => KindView::Load { src },
            ValueKind::Store { value, dest } => KindView::Store { value, dest },
            ValueKind::GetPtr { src, index } => KindView::GetPtr { src, index },
            ValueKind::GetElemPtr { src, index } => KindView::GetElemPtr { src, index },
            ValueKind::Binary { op, lhs, rhs } => KindView::Binary { op, lhs, rhs },
            ValueKind::Branch { cond, true_bb, true_args, false_bb, false_args } => {
                KindView::Branch {
                    cond,
                    true_bb,
                    true_args: true_args@,
                    false_bb,
                    false_args: false_args@,
                }
            },
            ValueKind::Jump { target, args } => KindView::Jump { target, args: args@ },
            ValueKind::Call { callee, args } => KindView::Call { callee, args: args@ },
            ValueKind::Return { value } => KindView::Return { value },
        }
    }
}

/// The operands of a kind, in their fixed order: for a branch the condition,
/// then the arguments of the true target, then those of the false target; for
/// a store the value, then the destination; for the pointer calculations the
/// source, then the index; for a binary operation the left side, then the
/// right; for a jump, a call and an aggregate the elements in order; for a
/// return the value, if there is one.
pub open spec fn value_uses(k: KindView) -> Seq<Value> {
    match k {
        KindView::Aggregate { elems } => elems,
        KindView::GlobalAlloc { init } => seq![init],
        KindView::Load { src } => seq![src],
        KindView::Store { value, dest } => seq![value, dest],
        KindView::GetPtr { src, index } => seq![src, index],
        KindView::GetElemPtr { src, index } => seq![src, index],
        KindView::Binary { op, lhs, rhs } => seq![lhs, rhs],
        KindView::Branch { cond, true_bb, true_args, false_bb, false_args } => seq![cond]
            + true_args + false_args,
        KindView::Jump { target, args } => args,
        KindView::Call { callee, args } => args,
        KindView::Return { value } => match value {
            Some(v) => seq![v],
            None => Seq::empty(),
        },
        _ => Seq::empty(),
    }
}

/// The basic blocks that a kind names: for a branch the true target, then the
/// false target; for a jump the target.
pub open spec fn bb_uses(k: KindView) -> Seq<BasicBlock> {
    match k {
        KindView::Branch { cond, true_bb, true_args, false_bb, false_args } => seq![
            true_bb,
            false_bb,
        ],
        KindView::Jump { target, args } => seq![target],
        _ => Seq::empty(),
    }
}

/// A kind is a constant.
pub open spec fn is_const_kind(k: KindView) -> bool {
    k is Integer || k is ZeroInit || k is Undef || k is Aggregate
}

/// A kind is an instruction: neither a constant nor a reference to a
/// parameter.
pub open spec fn is_inst_kind(k: KindView) -> bool {
    !is_const_kind(k) && !(k is FuncArgRef) && !(k is BlockArgRef)
}

/// A kind ends the control flow of a basic block.
pub open spec fn is_terminator_kind(k: KindView) -> bool {
    k is Branch || k is Jump || k is Return
}

/// The handle that stands where `x` stood once `a` has been replaced by `b`.
pub open spec fn subst(x: Value, a: Value, b: Value) -> Value {
    if x == a {
        b
    } else {
        x
    }
}

/// A list of handles with `a` replaced by `b`.
pub open spec fn subst_seq(s: Seq<Value>, a: Value, b: Value) -> Seq<Value> {
    Seq::new(s.len(), |i: int| subst(s[i], a, b))
}

/// A kind with the operand `a` replaced by `b` in every place.
pub open spec fn subst_kind(k: KindView, a: Value, b: Value) -> KindView {
    match k {
        KindView::Aggregate { elems } => KindView::Aggregate { elems: subst_seq(elems, a, b) },
        KindView::GlobalAlloc { init } => KindView::GlobalAlloc { init: subst(init, a, b) },
        KindView::Load { src } => KindView::Load { src: subst(src, a, b) },
        KindView::Store { value, dest } => KindView::Store {
            value: subst(value, a, b),
            dest: subst(dest, a, b),
        },
        KindView::GetPtr { src, index } => KindView::GetPtr {
            src: subst(src, a, b),
            index: subst(index, a, b),
        },
        KindView::GetElemPtr { src, index } => KindView::GetElemPtr {
            src: subst(src, a, b),
            index: subst(index, a, b),
        },
        KindView::Binary { op, lhs, rhs } => KindView::Binary {
            op,
            lhs: subst(lhs, a, b),
            rhs: subst(rhs, a, b),
        },
        KindView::Branch { cond, true_bb, true_args, false_bb, false_args } => KindView::Branch {
            cond: subst(cond, a, b),
            true_bb,
            true_args: subst_seq(true_args, a, b),
            false_bb,
            false_args: subst_seq(false_args, a, b),
        },
        KindView::Jump { target, args } => KindView::Jump { target, args: subst_seq(args, a, b) },
        KindView::Call { callee, args } => KindView::Call { callee, args: subst_seq(args, a, b) },
        KindView::Return { value } => KindView::Return {
            value: match value {
                Some(v) => Some(subst(v, a, b)),
                None => None,
            },
        },
        other => other,
    }
}

/// Replacing an operand replaces it in the list of operands, place by place,
/// and changes neither the basic blocks that the kind names nor what sort of
/// kind it is.
pub proof fn lemma_subst_kind(k: KindView, a: Value, b: Value)
    ensures
        value_uses(subst_kind(k, a, b)) == subst_seq(value_uses(k), a, b),
        bb_uses(subst_kind(k, a, b)) == bb_uses(k),
        is_const_kind(subst_kind(k, a, b)) == is_const_kind(k),
        is_inst_kind(subst_kind(k, a, b)) == is_inst_kind(k),
        value_uses(k).len() == 0 ==> subst_kind(k, a, b) == k,
        a == b ==> subst_kind(k, a, b) == k,
{
    assert(value_uses(subst_kind(k, a, b)) =~= subst_seq(value_uses(k), a, b));
    assert(bb_uses(subst_kind(k, a, b)) =~= bb_uses(k));
    if value_uses(k).len() == 0 {
        match k {
            KindView::Aggregate { elems } => {
                assert(subst_seq(elems, a, b) =~= elems);
            },
            KindView::Jump { target, args } => {
                assert(subst_seq(args, a, b) =~= args);
            },
            KindView::Call { callee, args } => {
                assert(subst_seq(args, a, b) =~= args);
            },
            _ => {},
        }
    }
    if a == b {
        match k {
            KindView::Aggregate { elems } => {
                assert(subst_seq(elems, a, b) =~= elems);
            },
            KindView::Branch { cond, true_bb, true_args, false_bb, false_args } => {
                assert(subst_seq(true_args, a, b) =~= true_args);
                assert(subst_seq(false_args, a, b) =~= false_args);
            },
            KindView::Jump { target, args } => {
                assert(subst_seq(args, a, b) =~= args);
            },
            KindView::Call { callee, args } => {
                assert(subst_seq(args, a, b) =~= args);
            },
            _ => {},
        }
    }
}

/// `b` where `x` is `a`, and `x` otherwise.
fn pick(x: Value, a: Value, b: Value) -> (r: Value)
    ensures
        r == subst(x, a, b),
{
    if x == a {
        b
    } else {
        x
    }
}

/// Replaces `a` by `b` in a list of handles.
fn replace_in(vs: &mut Vec<Value>, a: Value, b: Value)
    ensures
        final(vs)@ == subst_seq(old(vs)@, a, b),
{
    let mut i: usize = 0;
    while i < vs.len()
        invariant
            i <= vs.len(),
            vs@.len() == old(vs)@.len(),
            forall|k: int| 0 <= k < i ==> vs@[k] == subst(old(vs)@[k], a, b),
            forall|k: int| i <= k < vs@.len() ==> vs@[k] == old(vs)@[k],
        decreases vs.len() - i,
    {
        if vs[i] == a {
            vs[i] = b;
        }
        i = i + 1;
    }
    assert(vs@ =~= subst_seq(old(vs)@, a, b));
}

impl ValueKind {
    /// Whether this kind is a constant.
    pub fn is_const(&self) -> (r: bool)
        ensures
            r == is_const_kind(self@),
    {
        match self {
            ValueKind::Integer { .. } => true,
            ValueKind::ZeroInit => true,
            ValueKind::Undef => true,
            ValueKind::Aggregate { .. } => true,
            _ => false,
        }
    }

    /// Whether this kind is an instruction.
    pub fn is_inst(&self) -> (r: bool)
        ensures
            r == is_inst_kind(self@),
    {
        match self {
            ValueKind::Integer { .. } => false,
            ValueKind::ZeroInit => false,
            ValueKind::Undef => false,
            ValueKind::Aggregate { .. } => false,
            ValueKind::FuncArgRef { .. } => false,
            ValueKind::BlockArgRef { .. } => false,
            _ => true,
        }
    }

    /// Whether this kind ends the control flow of a basic block.
    pub fn is_terminator(&self) -> (r: bool)
        ensures
            r == is_terminator_kind(self@),
    {
        match self {
            ValueKind::Branch { .. } => true,
            ValueKind::Jump { .. } => true,
            ValueKind::Return { .. } => true,
            _ => false,
        }
    }

    /// This kind with the operand `a` replaced by `b` in every place.
    pub(crate) fn replaced(self, a: Value, b: Value) -> (r: ValueKind)
        ensures
            r@ == subst_kind(self@, a, b),
    {
        match self {
            ValueKind::Aggregate { elems } => {
                let mut elems = elems;
                replace_in(&mut elems, a, b);
                ValueKind::Aggregate { elems }
            },
            ValueKind::GlobalAlloc { init } => ValueKind::GlobalAlloc { init: pick(init, a, b) },
            ValueKind::Load { src } => ValueKind::Load { src: pick(src, a, b) },
            ValueKind::Store { value, dest } => ValueKind::Store {
                value: pick(value, a, b),
                dest: pick(dest, a, b),
            },
            ValueKind::GetPtr { src, index } => ValueKind::GetPtr {
                src: pick(src, a, b),
                index: pick(index, a, b),
            },
            ValueKind::GetElemPtr { src, index } => ValueKind::GetElemPtr {
                src: pick(src, a, b),
                index: pick(index, a, b),
            },
            ValueKind::Binary { op, lhs, rhs } => ValueKind::Binary {
                op,
                lhs: pick(lhs, a, b),
                rhs: pick(rhs, a, b),
            },
            ValueKind::Branch { cond, true_bb, true_args, false_bb, false_args } => {
                let mut true_args = true_args;
                let mut false_args = false_args;
                replace_in(&mut true_args, a, b);
                replace_in(&mut false_args, a, b);
                ValueKind::Branch {
                    cond: pick(cond, a, b),
                    true_bb,
                    true_args,
                    false_bb,
                    false_args,
                }
            },
            ValueKind::Jump { target, args } => {
                let mut args = args;
                replace_in(&mut args, a, b);
                ValueKind::Jump { target, args }
            },
            ValueKind::Call { callee, args } => {
                let mut args = args;
                replace_in(&mut args, a, b);
                ValueKind::Call { callee, args }
            },
            ValueKind::Return { value } => ValueKind::Return {
                value: match value {
                    Some(v) => Some(pick(v, a, b)),
                    None => None,
                },
            },
            other => other,
        }
    }

    /// A cursor over the operands of this kind, at its start.
    pub fn value_uses(&self) -> (r: ValueUses<'_>)
        ensures
            r.wf(),
            r.remaining() == value_uses(self@),
            r.kind() == self@,
    {
        let r = ValueUses { kind: self, index: 0, stage: 0 };
        proof {
            let us = value_uses(self@);
            assert(us.skip(0) =~= us);
            match self@ {
                KindView::Branch { cond, true_bb, true_args, false_bb, false_args } => {
                    assert(seq![cond] + true_args + false_args =~= seq![cond] + (true_args.skip(0)
                        + false_args));
                },
                _ => {},
            }
        }
        r
    }

    /// A cursor over the basic blocks that this kind names, at its start.
    pub fn bb_uses(&self) -> (r: BasicBlockUses<'_>)
        ensures
            r.wf(),
            r.remaining() == bb_uses(self@),
            r.kind() == self@,
    {
        let r = BasicBlockUses { kind: self, index: 0 };
        assert(bb_uses(self@).skip(0) =~= bb_uses(self@));
        r
    }
}

/// A cursor over the operands of a [`ValueKind`].
pub struct ValueUses<'a> {
    kind: &'a ValueKind,
    index: usize,
    stage: u8,
}

impl<'a> ValueUses<'a> {
    /// The kind that the cursor walks.
    pub closed spec fn kind(&self) -> KindView {
        self.kind@
    }

    /// The operands that the cursor has yet to yield, in order.
    pub closed spec fn remaining(&self) -> Seq<Value> {
        match self.kind@ {
            KindView::Branch { cond, true_bb, true_args, false_bb, false_args } => {
                if self.stage == 0 {
                    seq![cond] + (true_args.skip(self.index as int) + false_args)
                } else if self.stage == 1 {
                    true_args.skip(self.index as int) + false_args
                } else {
                    false_args.skip(self.index as int)
                }
            },
            k => value_uses(k).skip(self.index as int),
        }
    }

    /// The cursor is within its kind.
    pub closed spec fn wf(&self) -> bool {
        match self.kind@ {
            KindView::Branch { cond, true_bb, true_args, false_bb, false_args } => {
                if self.stage == 0 {
                    self.index == 0
                } else if self.stage == 1 {
                    self.index <= true_args.len()
                } else {
                    self.index <= false_args.len()
                }
            },
            k => self.index <= value_uses(k).len(),
        }
    }

    /// Yields the next operand, or nothing when all have been yielded.
    pub fn next(&mut self) -> (r: Option<Value>)
        requires
            old(self).wf(),
        ensures
            final(self).wf(),
            final(self).kind() == old(self).kind(),
            match r {
                Some(v) => old(self).remaining().len() > 0 && v == old(self).remaining()[0]
                    && final(self).remaining() == old(self).remaining().skip(1),
                None => old(self).remaining().len() == 0 && final(self).remaining()
                    == old(self).remaining(),
            },
    {
        let cur = self.index;
        let ghost before = self.remaining();
        match self.kind {
            ValueKind::Aggregate { elems } => {
                if cur < elems.len() {
                    self.index = cur + 1;
                    assert(self.remaining() =~= before.skip(1));
                    Some(elems[cur])
                } else {
                    None
                }
            },
            ValueKind::GlobalAlloc { init } => {
                if cur == 0 {
                    self.index = 1;
                    assert(self.remaining() =~= before.skip(1));
                    Some(*init)
                } else {
                    None
                }
            },
            ValueKind::Load { src } => {
                if cur == 0 {
                    self.index = 1;
                    assert(self.remaining() =~= before.skip(1));
                    Some(*src)
                } else {
                    None
                }
            },
            ValueKind::Store { value, dest } => {
                if cur == 0 {
                    self.index = 1;
                    assert(self.remaining() =~= before.skip(1));
                    Some(*value)
                } else if cur == 1 {
                    self.index = 2;
                    assert(self.remaining() =~= before.skip(1));
                    Some(*dest)
                } else {
                    None
                }
            },
            ValueKind::GetPtr { src, index } => {
                if cur == 0 {
                    self.index = 1;
                    assert(self.remaining() =~= before.skip(1));
                    Some(*src)
                } else if cur == 1 {
                    self.index = 2;
                    assert(self.remaining() =~= before.skip(1));
                    Some(*index)
                } else {
                    None
                }
            },
            ValueKind::GetElemPtr { src, index } => {
                if cur == 0 {
                    self.index = 1;
                    assert(self.remaining() =~= before.skip(1));
                    Some(*src)
                } else if cur == 1 {
                    self.index = 2;
                    assert(self.remaining() =~= before.skip(1));
                    Some(*index)
                } else {
                    None
                }
            },
            ValueKind::Binary { op, lhs, rhs } => {
                if cur == 0 {
                    self.index = 1;
                    assert(self.remaining() =~= before.skip(1));
                    Some(*lhs)
                } else if cur == 1 {
                    self.index = 2;
                    assert(self.remaining() =~= before.skip(1));
                    Some(*rhs)
                } else {
                    None
                }
            },
            ValueKind::Branch { cond, true_bb, true_args, false_bb, false_args } => {
                if self.stage == 0 {
                    self.stage = 1;
                    assert(self.remaining() =~= before.skip(1));
                    Some(*cond)
                } else if self.stage == 1 && cur < true_args.len() {
                    self.index = cur + 1;
                    assert(self.remaining() =~= before.skip(1));
                    Some(true_args[cur])
                } else {
                    let at: usize = if self.stage == 1 {
                        0
                    } else {
                        cur
                    };
                    if at < false_args.len() {
                        self.stage = 2;
                        self.index = at + 1;
                        assert(self.remaining() =~= before.skip(1));
                        assert(before[0] == false_args@[at as int]);
                        Some(false_args[at])
                    } else {
                        assert(before.len() == 0);
                        None
                    }
                }
            },
            ValueKind::Jump { target, args } => {
                if cur < args.len() {
                    self.index = cur + 1;
                    assert(self.remaining() =~= before.skip(1));
                    Some(args[cur])
                } else {
                    None
                }
            },
            ValueKind::Call { callee, args } => {
                if cur < args.len() {
                    self.index = cur + 1;
                    assert(self.remaining() =~= before.skip(1));
                    Some(args[cur])
                } else {
                    None
                }
            },
            ValueKind::Return { value } => {
                match value {
                    Some(v) => {
                        if cur == 0 {
                            self.index = 1;
                            assert(self.remaining() =~= before.skip(1));
                            Some(*v)
                        } else {
                            None
                        }
                    },
                    None => None,
                }
            },
            _ => None,
        }
    }
}

/// A cursor over the basic blocks that a [`ValueKind`] names.
pub struct BasicBlockUses<'a> {
    kind: &'a ValueKind,
    index: usize,
}

impl<'a> BasicBlockUses<'a> {
    /// The kind that the cursor walks.
    pub closed spec fn kind(&self) -> KindView {
        self.kind@
    }

    /// The basic blocks that the cursor has yet to yield, in order.
    pub closed spec fn remaining(&self) -> Seq<BasicBlock> {
        bb_uses(self.kind@).skip(self.index as int)
    }

    /// The cursor is within its kind.
    pub closed spec fn wf(&self) -> bool {
        self.index <= bb_uses(self.kind@).len()
    }

    /// Yields the next basic block, or nothing when all have been yielded.
    pub fn next(&mut self) -> (r: Option<BasicBlock>)
        requires
            old(self).wf(),
        ensures
            final(self).wf(),
            final(self).kind() == old(self).kind(),
            match r {
                Some(b) => old(self).remaining().len() > 0 && b == old(self).remaining()[0]
                    && final(self).remaining() == old(self).remaining().skip(1),
                None => old(self).remaining().len() == 0 && final(self).remaining()
                    == old(self).remaining(),
            },
    {
        let cur = self.index;
        let ghost before = self.remaining();
        match self.kind {
            ValueKind::Branch { cond, true_bb, true_args, false_bb, false_args } => {
                if cur == 0 {
                    self.index = 1;
                    assert(self.remaining() =~= before.skip(1));
                    Some(*true_bb)
                } else if cur == 1 {
                    self.index = 2;
                    assert(self.remaining() =~= before.skip(1));
                    Some(*false_bb)
                } else {
                    None
                }
            },
            ValueKind::Jump { target, args } => {
                if cur == 0 {
                    self.index = 1;
                    assert(self.remaining() =~= before.skip(1));
                    Some(*target)
                } else {
                    None
                }
            },
            _ => None,
        }
    }
}

/// A name is well formed: it has more than one character and starts with `%`
/// (local scope) or `@` (global scope).
pub open spec fn valid_name(s: Seq<char>) -> bool {
    s.len() > 1 && (s[0] == '%' || s[0] == '@')
}

/// A name that may be absent is well formed where it is present.
pub open spec fn valid_opt_name(name: Option<Seq<char>>) -> bool {
    match name {
        Some(s) => valid_name(s),
        None => true,
    }
}

/// The mathematical value of a name that may be absent.
pub open spec fn name_view(name: Option<String>) -> Option<Seq<char>> {
    match name {
        Some(s) => Some(s@),
        None => None,
    }
}

/// Decides whether a name is well formed.
pub fn check_name(name: &str) -> (r: bool)
    ensures
        r == valid_name(name@),
{
    if name.unicode_len() > 1 {
        let c = name.get_char(0);
        c == '%' || c == '@'
    } else {
        false
    }
}

/// Decides whether a name that may be absent is well formed.
pub fn check_opt_name(name: &Option<String>) -> (r: bool)
    ensures
        r == valid_opt_name(name_view(*name)),
{
    match name {
        Some(s) => check_name(s.as_str()),
        None => true,
    }
}

/// A set of value handles: the users of a value or of a basic block.
pub struct UserSet {
    ids: HashSet<ValueId>,
}

impl View for UserSet {
    type V = Set<Value>;

    closed spec fn view(&self) -> Set<Value> {
        Set::new(|v: Value| self.ids@.contains(v.0))
    }
}

impl UserSet {
    /// Creates an empty set.
    pub fn new() -> (r: UserSet)
        ensures
            r@ == Set::<Value>::empty(),
    {
        let r = UserSet { ids: HashSet::new() };
        assert(r@ =~= Set::<Value>::empty());
        r
    }

    /// Whether the set holds no handle.
    pub fn is_empty(&self) -> (r: bool)
        ensures
            r == (self@ == Set::<Value>::empty()),
    {
        let r = self.ids.is_empty();
        proof {
            if r {
                assert(self@ =~= Set::<Value>::empty());
            } else {
                if self@ == Set::<Value>::empty() {
                    assert forall|id: ValueId| !self.ids@.contains(id) by {
                        assert(!self@.contains(Value(id)));
                    }
                    assert(self.ids@ =~= Set::<ValueId>::empty());
                }
            }
        }
        r
    }

    /// Whether the set holds `v`.
    pub fn contains(&self, v: Value) -> (r: bool)
        ensures
            r == self@.contains(v),
    {
        self.ids.contains(&v.0)
    }

    /// Adds `v` to the set.
    pub fn insert(&mut self, v: Value)
        ensures
            final(self)@ == old(self)@.insert(v),
    {
        self.ids.insert(v.0);
        assert(self@ =~= old(self)@.insert(v));
    }

    /// Takes `v` out of the set.
    pub fn remove(&mut self, v: Value)
        ensures
            final(self)@ == old(self)@.remove(v),
    {
        self.ids.remove(&v.0);
        assert(self@ =~= old(self)@.remove(v));
    }

    /// The handles of the set, each once, in no particular order.
    pub fn to_vec(&self) -> (r: Vec<Value>)
        ensures
            r@.to_set() == self@,
            r@.no_duplicates(),
    {
        let mut out: Vec<Value> = Vec::new();
        let ghost all: Seq<ValueId> = vstd::std_specs::hash::spec_hash_keys_iter(
            &self.ids,
        ).remaining().unref();
        for x in it: self.ids.iter()
            invariant
                out@.len() == it.index(),
                all == it.seq().unref(),
                forall|i: int| 0 <= i < out@.len() ==> (#[trigger] out@[i]).0 == *it.seq()[i],
                it.seq().unref().to_set() == self.ids@,
                it.seq().no_duplicates(),
        {
            out.push(Value(*x));
        }
        proof {
            assert(out@.len() == all.len());
            assert forall|i: int, j: int| 0 <= i < j < out@.len() implies out@[i] != out@[j] by {
                assert(all[i] != all[j]);
            }
            assert forall|v: Value| out@.to_set().contains(v) <==> self@.contains(v) by {
                if out@.to_set().contains(v) {
                    let i = choose|i: int| 0 <= i < out@.len() && out@[i] == v;
                    assert(all[i] == v.0);
                    assert(all.to_set().contains(v.0));
                }
                if self@.contains(v) {
                    assert(all.to_set().contains(v.0));
                    let i = choose|i: int| 0 <= i < all.len() && all[i] == v.0;
                    assert(out@[i] == v);
                }
            }
            assert(out@.to_set() =~= self@);
        }
        out
    }
}

/// The mathematical value of a [`ValueData`].
pub struct ValueDataView {
    pub ty: Type,
    pub name: Option<Seq<char>>,
    pub kind: KindView,
    pub used_by: Set<Value>,
}

/// The record of a value: its type, its name if it has one, its kind, and
/// the values that use it.
pub struct ValueData {
    ty: Type,
    name: Option<String>,
    kind: ValueKind,
    used_by: UserSet,
}

impl View for ValueData {
    type V = ValueDataView;

    closed spec fn view(&self) -> ValueDataView {
        ValueDataView {
            ty: self.ty,
            name: name_view(self.name),
            kind: self.kind@,
            used_by: self.used_by@,
        }
    }
}

impl ValueData {
    /// Creates the record of a value of the given type and kind, without a
    /// name and without users.
    pub fn new(ty: Type, kind: ValueKind) -> (r: ValueData)
        ensures
            r@ == (ValueDataView {
                ty,
                name: None,
                kind: kind@,
                used_by: Set::<Value>::empty(),
            }),
    {
        ValueData { ty, name: None, kind, used_by: UserSet::new() }
    }

    /// The type of the value.
    pub fn ty(&self) -> (r: &Type)
        ensures
            *r == self@.ty,
    {
        &self.ty
    }

    /// The name of the value.
    pub fn name(&self) -> (r: &Option<String>)
        ensures
            name_view(*r) == self@.name,
    {
        &self.name
    }

    /// Sets or clears the name of the value. A name that is not well formed
    /// is refused with `InvalidName`, and the record stays as it was.
    pub fn set_name(&mut self, name: Option<String>) -> (r: Result<(), IrError>)
        ensures
            match r {
                Ok(_) => valid_opt_name(name_view(name)) && final(self)@ == (ValueDataView {
                    name: name_view(name),
                    ..old(self)@
                }),
                Err(e) => !valid_opt_name(name_view(name)) && e == IrError::InvalidName
                    && *final(self) == *old(self),
            },
    {
        if check_opt_name(&name) {
            self.name = name;
            Ok(())
        } else {
            Err(IrError::InvalidName)
        }
    }

    /// The kind of the value.
    pub fn kind(&self) -> (r: &ValueKind)
        ensures
            r@ == self@.kind,
    {
        &self.kind
    }

    /// The values that use this value, each once, in no particular order.
    pub fn used_by(&self) -> (r: Vec<Value>)
        ensures
            r@.to_set() == self@.used_by,
            r@.no_duplicates(),
    {
        self.used_by.to_vec()
    }

    /// Whether `user` uses this value.
    pub fn is_used_by(&self, user: Value) -> (r: bool)
        ensures
            r == self@.used_by.contains(user),
    {
        self.used_by.contains(user)
    }

    /// Whether any value uses this value.
    pub fn has_users(&self) -> (r: bool)
        ensures
            r == (self@.used_by != Set::<Value>::empty()),
    {
        !self.used_by.is_empty()
    }

    /// Whether the value is a constant.
    pub fn is_const(&self) -> (r: bool)
        ensures
            r == is_const_kind(self@.kind),
    {
        self.kind.is_const()
    }

    /// Whether the value is an instruction.
    pub fn is_inst(&self) -> (r: bool)
        ensures
            r == is_inst_kind(self@.kind),
    {
        self.kind.is_inst()
    }

    pub(crate) fn add_user(&mut self, user: Value)
        ensures
            final(self)@ == (ValueDataView {
                used_by: old(self)@.used_by.insert(user),
                ..old(self)@
            }),
    {
        self.used_by.insert(user);
    }

    pub(crate) fn remove_user(&mut self, user: Value)
        ensures
            final(self)@ == (ValueDataView {
                used_by: old(self)@.used_by.remove(user),
                ..old(self)@
            }),
    {
        self.used_by.remove(user);
    }

    pub(crate) fn clear_users(&mut self)
        ensures
            final(self)@ == (ValueDataView { used_by: Set::<Value>::empty(), ..old(self)@ }),
    {
        self.used_by = UserSet::new();
    }

    pub(crate) fn replace_operand(&mut self, a: Value, b: Value)
        ensures
            final(self)@ == (ValueDataView { kind: subst_kind(old(self)@.kind, a, b), ..old(self)@ }),
    {
        let mut kind = ValueKind::Undef;
        core::mem::swap(&mut self.kind, &mut kind);
        self.kind = kind.replaced(a, b);
    }

    pub(crate) fn add_users(&mut self, users: &Vec<Value>)
        ensures
            final(self)@ == (ValueDataView {
                used_by: old(self)@.used_by.union(users@.to_set()),
                ..old(self)@
            }),
    {
        let mut i: usize = 0;
        assert(users@.take(0).to_set() =~= Set::<Value>::empty());
        assert(self@.used_by.union(Set::<Value>::empty()) =~= self@.used_by);
        while i < users.len()
            invariant
                i <= users.len(),
                self@ == (ValueDataView {
                    used_by: old(self)@.used_by.union(users@.take(i as int).to_set()),
                    ..old(self)@
                }),
            decreases users.len() - i,
        {
            self.used_by.insert(users[i]);
            proof {
                let before = users@.take(i as int);
                let after = users@.take(i + 1);
                assert(after =~= before.push(users@[i as int]));
                assert forall|k: Value| after.to_set().contains(k) <==> (before.to_set().contains(k)
                    || k == users@[i as int]) by {
                    if before.contains(k) {
                        let j = choose|j: int| 0 <= j < before.len() && before[j] == k;
                        assert(after[j] == k);
                    }
                    if k == users@[i as int] {
                        assert(after[i as int] == k);
                    }
                    if after.contains(k) {
                        let j = choose|j: int| 0 <= j < after.len() && after[j] == k;
                        if j < i {
                            assert(before[j] == k);
                        }
                    }
                }
                assert(old(self)@.used_by.union(before.to_set()).insert(users@[i as int])
                    =~= old(self)@.used_by.union(after.to_set()));
            }
            i = i + 1;
        }
        assert(users@.take(i as int) =~= users@);
    }
}

/// The mathematical value of a [`BasicBlockData`].
pub struct BasicBlockDataView {
    pub ty: Type,
    pub name: Option<Seq<char>>,
    pub params: Seq<Value>,
    pub used_by: Set<Value>,
}

/// The record of a basic block: its type, its name if it has one, its
/// parameters, and the values that name it. The instructions of a block and
/// their order are kept by the layout of its function.
pub struct BasicBlockData {
    ty: Type,
    name: Option<String>,
    params: Vec<Value>,
    used_by: UserSet,
}

impl View for BasicBlockData {
    type V = BasicBlockDataView;

    closed spec fn view(&self) -> BasicBlockDataView {
        BasicBlockDataView {
            ty: self.ty,
            name: name_view(self.name),
            params: self.params@,
            used_by: self.used_by@,
        }
    }
}

/// What [`BasicBlockData::with_params`] returns: the reason for refusing the
/// pieces, a name that is not well formed first, then a type that names no
/// entry, then a type that is not a basic block type, then a number of
/// parameters other than the type's; or nothing where the pieces are taken.
pub open spec fn block_refusal(
    owner: u64,
    table: Seq<TypeShape>,
    name: Option<Seq<char>>,
    params: Seq<Value>,
    ty: Type,
) -> Option<IrError> {
    if !valid_opt_name(name) {
        Some(IrError::InvalidName)
    } else if !crate::ir::types::known(owner, table, ty) {
        Some(IrError::UnknownType)
    } else {
        match table[ty.0 as int] {
            TypeShape::BasicBlock(ps) => if ps.len() == params.len() {
                None
            } else {
                Some(IrError::ArityMismatch)
            },
            _ => Some(IrError::TypeMismatch),
        }
    }
}

impl BasicBlockData {
    /// Creates the record of a basic block without parameters: with the given
    /// name, no parameters, no users, and the type of blocks without
    /// parameters, which is interned where the interner does not hold it yet.
    ///
    /// Refused with `InvalidName` when the name is not well formed, or else
    /// with `IdsExhausted` when the interner refuses the type of such blocks,
    /// which it does only where the type is new and its table is full. On
    /// refusal the interner is unchanged.
    pub fn new(types: &mut TypeFactory, name: Option<String>) -> (r: Result<
        BasicBlockData,
        IrError,
    >)
        requires
            old(types).wf(),
        ensures
            final(types).wf(),
            final(types).id() == old(types).id(),
            crate::ir::types::table_extends(old(types)@, final(types)@),
            match r {
                Ok(data) => {
                    &&& valid_opt_name(name_view(name))
                    &&& crate::ir::types::intern_result(
                        old(types).id(),
                        old(types)@,
                        TypeShape::BasicBlock(Seq::empty()),
                    ) == Ok::<Type, IrError>(data@.ty)
                    &&& final(types)@ == crate::ir::types::intern_table(
                        old(types).id(),
                        old(types)@,
                        TypeShape::BasicBlock(Seq::empty()),
                    )
                    &&& data@ == (BasicBlockDataView {
                        ty: data@.ty,
                        name: name_view(name),
                        params: Seq::<Value>::empty(),
                        used_by: Set::<Value>::empty(),
                    })
                    &&& final(types).knows(data@.ty)
                    &&& final(types)@[data@.ty.0 as int] == TypeShape::BasicBlock(Seq::empty())
                },
                Err(e) => {
                    &&& *final(types) == *old(types)
                    &&& if !valid_opt_name(name_view(name)) {
                        e == IrError::InvalidName
                    } else {
                        &&& e == IrError::IdsExhausted
                        &&& crate::ir::types::intern_result(
                            old(types).id(),
                            old(types)@,
                            TypeShape::BasicBlock(Seq::empty()),
                        ) == Err::<Type, IrError>(IrError::IdsExhausted)
                    }
                },
            },
    {
        if !check_opt_name(&name) {
            return Err(IrError::InvalidName);
        }
        proof {
            let d = TypeShape::BasicBlock(Seq::empty());
            assert(crate::ir::types::components(d) =~= Seq::empty());
            assert(crate::ir::types::unit_free_components(d) =~= Seq::empty());
        }
        let params: Vec<Value> = Vec::new();
        assert(params@ =~= Seq::<Value>::empty());
        match types.get_basic_block(Vec::new()) {
            Ok(ty) => Ok(BasicBlockData { ty, name, params, used_by: UserSet::new() }),
            Err(e) => Err(e),
        }
    }

    /// Creates the record of a basic block with the given parameters and type.
    ///
    /// The type must be a basic block type with as many parameter types as
    /// there are parameters.
    pub fn with_params(
        types: &TypeFactory,
        name: Option<String>,
        params: Vec<Value>,
        ty: Type,
    ) -> (r: Result<BasicBlockData, IrError>)
        ensures
            match r {
                Ok(data) => {
                    &&& block_refusal(types.id(), types@, name_view(name), params@, ty) is None
                    &&& data@ == (BasicBlockDataView {
                        ty,
                        name: name_view(name),
                        params: params@,
                        used_by: Set::<Value>::empty(),
                    })
                },
                Err(e) => block_refusal(types.id(), types@, name_view(name), params@, ty) == Some(e),
            },
    {
        if !check_opt_name(&name) {
            return Err(IrError::InvalidName);
        }
        match types.kind(ty) {
            None => Err(IrError::UnknownType),
            Some(TypeData::BasicBlock(ps)) => {
                if ps.len() == params.len() {
                    Ok(BasicBlockData { ty, name, params, used_by: UserSet::new() })
                } else {
                    Err(IrError::ArityMismatch)
                }
            },
            Some(_) => Err(IrError::TypeMismatch),
        }
    }

    /// The type of the basic block.
    pub fn ty(&self) -> (r: &Type)
        ensures
            *r == self@.ty,
    {
        &self.ty
    }

    /// The name of the basic block.
    pub fn name(&self) -> (r: &Option<String>)
        ensures
            name_view(*r) == self@.name,
    {
        &self.name
    }

    /// The parameters of the basic block.
    pub fn params(&self) -> (r: &[Value])
        ensures
            r@ == self@.params,
    {
        self.params.as_slice()
    }

    /// The values that name this basic block, each once, in no particular
    /// order.
    pub fn used_by(&self) -> (r: Vec<Value>)
        ensures
            r@.to_set() == self@.used_by,
            r@.no_duplicates(),
    {
        self.used_by.to_vec()
    }

    /// Whether `user` names this basic block.
    pub fn is_used_by(&self, user: Value) -> (r: bool)
        ensures
            r == self@.used_by.contains(user),
    {
        self.used_by.contains(user)
    }

    /// Whether any value names this basic block.
    pub fn has_users(&self) -> (r: bool)
        ensures
            r == (self@.used_by != Set::<Value>::empty()),
    {
        !self.used_by.is_empty()
    }

    pub(crate) fn add_user(&mut self, user: Value)
        ensures
            final(self)@ == (BasicBlockDataView {
                used_by: old(self)@.used_by.insert(user),
                ..old(self)@
            }),
    {
        self.used_by.insert(user);
    }

    pub(crate) fn remove_user(&mut self, user: Value)
        ensures
            final(self)@ == (BasicBlockDataView {
                used_by: old(self)@.used_by.remove(user),
                ..old(self)@
            }),
    {
        self.used_by.remove(user);
    }
}

} // verus!
