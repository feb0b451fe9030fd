//! The layout of a function: the order of its basic blocks and of the
//! instructions of each block.

use crate::ir::dfg::DataFlowGraph;
use crate::ir::entities::{is_inst_kind, BasicBlock, Value};
use crate::ir::error::IrError;
use crate::ir::table::{Blocks, Values};
use vstd::prelude::*;

verus! {

/// The mathematical value of a [`Layout`]: the basic blocks in their order,
/// each with its instructions in their order.
pub type LayoutView = Seq<(BasicBlock, Seq<Value>)>;

/// The block at place `i` of the layout is `bb`.
pub open spec fn bb_at(lv: LayoutView, i: int, bb: BasicBlock) -> bool {
    0 <= i < lv.len() && lv[i].0 == bb
}

/// The instruction at place `j` of the block at place `i` is `inst`.
pub open spec fn inst_at(lv: LayoutView, i: int, j: int, inst: Value) -> bool {
    0 <= i < lv.len() && 0 <= j < lv[i].1.len() && lv[i].1[j] == inst
}

/// The layout holds the basic block `bb`.
pub open spec fn has_bb(lv: LayoutView, bb: BasicBlock) -> bool {
    exists|i: int| bb_at(lv, i, bb)
}

/// The layout holds the instruction `inst`.
pub open spec fn has_inst(lv: LayoutView, inst: Value) -> bool {
    exists|i: int, j: int| inst_at(lv, i, j, inst)
}

/// The place of the basic block `bb`, which the layout holds.
pub open spec fn bb_place(lv: LayoutView, bb: BasicBlock) -> int {
    choose|i: int| bb_at(lv, i, bb)
}

/// The place of the instruction `inst`, which the layout holds: the place of
/// its block, and its place in the block.
pub open spec fn inst_place(lv: LayoutView, inst: Value) -> (int, int) {
    choose|p: (int, int)| inst_at(lv, p.0, p.1, inst)
}

/// No basic block and no instruction occupies two places.
pub open spec fn layout_wf(lv: LayoutView) -> bool {
    &&& forall|i: int, k: int|
        0 <= i < lv.len() && 0 <= k < lv.len() && #[trigger] lv[i].0 == #[trigger] lv[k].0 ==> i == k
    &&& forall|i: int, j: int, k: int, m: int|
        0 <= i < lv.len() && 0 <= j < lv[i].1.len() && 0 <= k < lv.len() && 0 <= m < lv[k].1.len()
            && #[trigger] lv[i].1[j] == #[trigger] lv[k].1[m] ==> i == k && j == m
}

/// Everything that the layout orders exists in the graph: its basic blocks
/// are blocks of the graph, and its instructions are values of the graph
/// whose kinds are instructions.
pub open spec fn layout_in_graph(lv: LayoutView, l: Values, b: Blocks) -> bool {
    &&& forall|i: int| 0 <= i < lv.len() ==> b.contains_key(#[trigger] lv[i].0)
    &&& forall|i: int, j: int|
        0 <= i < lv.len() && 0 <= j < lv[i].1.len() ==> l.contains_key(#[trigger] lv[i].1[j])
            && is_inst_kind(l[lv[i].1[j]].kind)
}

/// In a well-formed layout a basic block has one place.
pub proof fn lemma_bb_place(lv: LayoutView, i: int, bb: BasicBlock)
    requires
        layout_wf(lv),
        bb_at(lv, i, bb),
    ensures
        has_bb(lv, bb),
        bb_place(lv, bb) == i,
{
    let k = bb_place(lv, bb);
    assert(bb_at(lv, k, bb));
    assert(lv[i].0 == lv[k].0);
}

/// In a well-formed layout an instruction has one place.
pub proof fn lemma_inst_place(lv: LayoutView, i: int, j: int, inst: Value)
    requires
        layout_wf(lv),
        inst_at(lv, i, j, inst),
    ensures
        has_inst(lv, inst),
        inst_place(lv, inst) == (i, j),
{
    let p = inst_place(lv, inst);
    assert(inst_at(lv, (i, j).0, (i, j).1, inst));
    assert(inst_at(lv, p.0, p.1, inst));
    assert(lv[i].1[j] == lv[p.0].1[p.1]);
}

/// Why a basic block cannot be given a place in the layout: the graph does
/// not hold it (`UnknownBlock`), or it has a place already
/// (`AlreadyInLayout`).
pub open spec fn bb_entry_refusal(lv: LayoutView, b: Blocks, bb: BasicBlock) -> Option<IrError> {
    if !b.contains_key(bb) {
        Some(IrError::UnknownBlock)
    } else if has_bb(lv, bb) {
        Some(IrError::AlreadyInLayout)
    } else {
        None
    }
}

/// Why an instruction cannot be given a place in the layout: the graph does
/// not hold it (`UnknownValue`), it is not an instruction
/// (`NotInstruction`), or it has a place already (`AlreadyInLayout`).
pub open spec fn inst_entry_refusal(lv: LayoutView, l: Values, inst: Value) -> Option<IrError> {
    if !l.contains_key(inst) {
        Some(IrError::UnknownValue)
    } else if !is_inst_kind(l[inst].kind) {
        Some(IrError::NotInstruction)
    } else if has_inst(lv, inst) {
        Some(IrError::AlreadyInLayout)
    } else {
        None
    }
}

/// The layout with the basic block `bb`, without instructions, at place `i`.
pub open spec fn with_bb(lv: LayoutView, i: int, bb: BasicBlock) -> LayoutView {
    lv.insert(i, (bb, Seq::<Value>::empty()))
}

/// The layout without the basic block at place `i`.
pub open spec fn without_bb(lv: LayoutView, i: int) -> LayoutView {
    lv.remove(i)
}

/// The layout with `inst` at place `j` of the block at place `i`.
pub open spec fn with_inst(lv: LayoutView, i: int, j: int, inst: Value) -> LayoutView {
    lv.update(i, (lv[i].0, lv[i].1.insert(j, inst)))
}

/// The layout without the instruction at place `j` of the block at place `i`.
pub open spec fn without_inst(lv: LayoutView, i: int, j: int) -> LayoutView {
    lv.update(i, (lv[i].0, lv[i].1.remove(j)))
}

/// Giving a new basic block a place keeps the layout well formed and within
/// the graph; the block then has that place, and everything else is held as
/// before.
pub proof fn lemma_with_bb(lv: LayoutView, l: Values, b: Blocks, i: int, bb: BasicBlock)
    requires
        layout_wf(lv),
        layout_in_graph(lv, l, b),
        0 <= i <= lv.len(),
        !has_bb(lv, bb),
        b.contains_key(bb),
    ensures
        layout_wf(with_bb(lv, i, bb)),
        layout_in_graph(with_bb(lv, i, bb), l, b),
        forall|x: BasicBlock| has_bb(with_bb(lv, i, bb), x) <==> (x == bb || has_bb(lv, x)),
        forall|v: Value| has_inst(with_bb(lv, i, bb), v) <==> has_inst(lv, v),
{
    let lv2 = with_bb(lv, i, bb);
    let back = |k: int|
        if k < i {
            k
        } else {
            k - 1
        };
    assert forall|k: int| 0 <= k < lv2.len() && k != i implies #[trigger] lv2[k] == lv[back(k)] by {}
    assert forall|p: int, q: int|
        0 <= p < lv2.len() && 0 <= q < lv2.len() && #[trigger] lv2[p].0 == #[trigger] lv2[q].0 implies p
        == q by {
        if p != i && q != i {
            assert(lv[back(p)].0 == lv[back(q)].0);
        } else if p != i {
            assert(bb_at(lv, back(p), bb));
        } else if q != i {
            assert(bb_at(lv, back(q), bb));
        }
    }
    assert forall|p: int, j: int, q: int, m: int|
        0 <= p < lv2.len() && 0 <= j < lv2[p].1.len() && 0 <= q < lv2.len() && 0 <= m
            < lv2[q].1.len() && #[trigger] lv2[p].1[j] == #[trigger] lv2[q].1[m] implies p == q && j
        == m by {
        assert(lv[back(p)].1[j] == lv[back(q)].1[m]);
    }
    assert forall|p: int| 0 <= p < lv2.len() implies b.contains_key(#[trigger] lv2[p].0) by {
        if p != i {
            assert(b.contains_key(lv[back(p)].0));
        }
    }
    assert forall|p: int, j: int| 0 <= p < lv2.len() && 0 <= j < lv2[p].1.len() implies l.contains_key(
        #[trigger] lv2[p].1[j],
    ) && is_inst_kind(l[lv2[p].1[j]].kind) by {
        assert(l.contains_key(lv[back(p)].1[j]));
    }
    assert forall|x: BasicBlock| has_bb(lv2, x) <==> (x == bb || has_bb(lv, x)) by {
        if has_bb(lv2, x) {
            let p = choose|p: int| bb_at(lv2, p, x);
            if p != i {
                assert(bb_at(lv, back(p), x));
            }
        }
        if x == bb {
            assert(bb_at(lv2, i, x));
        }
        if has_bb(lv, x) {
            let p = choose|p: int| bb_at(lv, p, x);
            if p < i {
                assert(bb_at(lv2, p, x));
            } else {
                assert(lv2[p + 1] == lv[back(p + 1)]);
                assert(bb_at(lv2, p + 1, x));
            }
        }
    }
    assert forall|v: Value| has_inst(lv2, v) <==> has_inst(lv, v) by {
        if has_inst(lv2, v) {
            let (p, j) = choose|p: int, j: int| inst_at(lv2, p, j, v);
            assert(inst_at(lv, back(p), j, v));
        }
        if has_inst(lv, v) {
            let (p, j) = choose|p: int, j: int| inst_at(lv, p, j, v);
            if p < i {
                assert(inst_at(lv2, p, j, v));
            } else {
                assert(lv2[p + 1] == lv[back(p + 1)]);
                assert(inst_at(lv2, p + 1, j, v));
            }
        }
    }
}

/// Taking a basic block with its instructions out of the layout keeps the
/// layout well formed and within the graph; the block and its instructions
/// then have no place, and everything else is held as before.
pub proof fn lemma_without_bb(lv: LayoutView, l: Values, b: Blocks, i: int)
    requires
        layout_wf(lv),
        layout_in_graph(lv, l, b),
        0 <= i < lv.len(),
    ensures
        layout_wf(without_bb(lv, i)),
        layout_in_graph(without_bb(lv, i), l, b),
        forall|x: BasicBlock| has_bb(without_bb(lv, i), x) <==> (x != lv[i].0 && has_bb(lv, x)),
        forall|v: Value|
            has_inst(without_bb(lv, i), v) <==> (has_inst(lv, v) && !lv[i].1.contains(v)),
{
    let lv2 = without_bb(lv, i);
    let fwd = |k: int|
        if k < i {
            k
        } else {
            k + 1
        };
    assert forall|k: int| 0 <= k < lv2.len() implies #[trigger] lv2[k] == lv[fwd(k)] by {}
    assert forall|p: int, q: int|
        0 <= p < lv2.len() && 0 <= q < lv2.len() && #[trigger] lv2[p].0 == #[trigger] lv2[q].0 implies p
        == q by {
        assert(lv[fwd(p)].0 == lv[fwd(q)].0);
    }
    assert forall|p: int, j: int, q: int, m: int|
        0 <= p < lv2.len() && 0 <= j < lv2[p].1.len() && 0 <= q < lv2.len() && 0 <= m
            < lv2[q].1.len() && #[trigger] lv2[p].1[j] == #[trigger] lv2[q].1[m] implies p == q && j
        == m by {
        assert(lv[fwd(p)].1[j] == lv[fwd(q)].1[m]);
    }
    assert forall|p: int| 0 <= p < lv2.len() implies b.contains_key(#[trigger] lv2[p].0) by {
        assert(b.contains_key(lv[fwd(p)].0));
    }
    assert forall|p: int, j: int| 0 <= p < lv2.len() && 0 <= j < lv2[p].1.len() implies l.contains_key(
        #[trigger] lv2[p].1[j],
    ) && is_inst_kind(l[lv2[p].1[j]].kind) by {
        assert(l.contains_key(lv[fwd(p)].1[j]));
    }
    assert forall|x: BasicBlock| has_bb(lv2, x) <==> (x != lv[i].0 && has_bb(lv, x)) by {
        if has_bb(lv2, x) {
            let p = choose|p: int| bb_at(lv2, p, x);
            assert(bb_at(lv, fwd(p), x));
            if x == lv[i].0 {
                assert(lv[fwd(p)].0 == lv[i].0);
            }
        }
        if x != lv[i].0 && has_bb(lv, x) {
            let p = choose|p: int| bb_at(lv, p, x);
            if p < i {
                assert(lv2[p] == lv[fwd(p)]);
                assert(bb_at(lv2, p, x));
            } else {
                assert(lv2[p - 1] == lv[fwd(p - 1)]);
                assert(bb_at(lv2, p - 1, x));
            }
        }
    }
    assert forall|v: Value| has_inst(lv2, v) <==> (has_inst(lv, v) && !lv[i].1.contains(v)) by {
        if has_inst(lv2, v) {
            let (p, j) = choose|p: int, j: int| inst_at(lv2, p, j, v);
            assert(inst_at(lv, fwd(p), j, v));
            if lv[i].1.contains(v) {
                let m = choose|m: int| 0 <= m < lv[i].1.len() && lv[i].1[m] == v;
                assert(lv[fwd(p)].1[j] == lv[i].1[m]);
            }
        }
        if has_inst(lv, v) && !lv[i].1.contains(v) {
            let (p, j) = choose|p: int, j: int| inst_at(lv, p, j, v);
            if p < i {
                assert(lv2[p] == lv[fwd(p)]);
                assert(inst_at(lv2, p, j, v));
            } else {
                assert(p != i);
                assert(lv2[p - 1] == lv[fwd(p - 1)]);
                assert(inst_at(lv2, p - 1, j, v));
            }
        }
    }
}

/// Giving a new instruction a place keeps the layout well formed and within
/// the graph; the instruction then has that place, and everything else is
/// held as before.
pub proof fn lemma_with_inst(lv: LayoutView, l: Values, b: Blocks, i: int, j: int, inst: Value)
    requires
        layout_wf(lv),
        layout_in_graph(lv, l, b),
        0 <= i < lv.len(),
        0 <= j <= lv[i].1.len(),
        !has_inst(lv, inst),
        l.contains_key(inst),
        is_inst_kind(l[inst].kind),
    ensures
        layout_wf(with_inst(lv, i, j, inst)),
        layout_in_graph(with_inst(lv, i, j, inst), l, b),
        forall|x: BasicBlock| has_bb(with_inst(lv, i, j, inst), x) <==> has_bb(lv, x),
        forall|v: Value| has_inst(with_inst(lv, i, j, inst), v) <==> (v == inst || has_inst(lv, v)),
{
    let lv2 = with_inst(lv, i, j, inst);
    let back = |p: int, q: int|
        if p == i && q > j {
            q - 1
        } else {
            q
        };
    assert forall|p: int, q: int|
        0 <= p < lv2.len() && 0 <= q < lv2[p].1.len() && !(p == i && q == j) implies #[trigger] lv2[p].1[q]
        == lv[p].1[back(p, q)] && 0 <= back(p, q) < lv[p].1.len() by {}
    assert forall|p: int, q: int|
        0 <= p < lv2.len() && 0 <= q < lv2.len() && #[trigger] lv2[p].0 == #[trigger] lv2[q].0 implies p
        == q by {
        assert(lv[p].0 == lv[q].0);
    }
    assert forall|p: int, q: int, r: int, m: int|
        0 <= p < lv2.len() && 0 <= q < lv2[p].1.len() && 0 <= r < lv2.len() && 0 <= m
            < lv2[r].1.len() && #[trigger] lv2[p].1[q] == #[trigger] lv2[r].1[m] implies p == r && q
        == m by {
        let here = p == i && q == j;
        let there = r == i && m == j;
        if !here && !there {
            assert(lv[p].1[back(p, q)] == lv[r].1[back(r, m)]);
        } else if !here {
            assert(inst_at(lv, p, back(p, q), inst));
        } else if !there {
            assert(inst_at(lv, r, back(r, m), inst));
        }
    }
    assert forall|p: int| 0 <= p < lv2.len() implies b.contains_key(#[trigger] lv2[p].0) by {
        assert(b.contains_key(lv[p].0));
    }
    assert forall|p: int, q: int| 0 <= p < lv2.len() && 0 <= q < lv2[p].1.len() implies l.contains_key(
        #[trigger] lv2[p].1[q],
    ) && is_inst_kind(l[lv2[p].1[q]].kind) by {
        if !(p == i && q == j) {
            assert(l.contains_key(lv[p].1[back(p, q)]));
        }
    }
    assert forall|x: BasicBlock| has_bb(lv2, x) <==> has_bb(lv, x) by {
        if has_bb(lv2, x) {
            let p = choose|p: int| bb_at(lv2, p, x);
            assert(bb_at(lv, p, x));
        }
        if has_bb(lv, x) {
            let p = choose|p: int| bb_at(lv, p, x);
            assert(bb_at(lv2, p, x));
        }
    }
    assert forall|v: Value| has_inst(lv2, v) <==> (v == inst || has_inst(lv, v)) by {
        if has_inst(lv2, v) {
            let (p, q) = choose|p: int, q: int| inst_at(lv2, p, q, v);
            if !(p == i && q == j) {
                assert(inst_at(lv, p, back(p, q), v));
            }
        }
        if v == inst {
            assert(inst_at(lv2, i, j, v));
        }
        if has_inst(lv, v) {
            let (p, q) = choose|p: int, q: int| inst_at(lv, p, q, v);
            if p == i && q >= j {
                assert(lv2[p].1[q + 1] == lv[p].1[back(p, q + 1)]);
                assert(inst_at(lv2, p, q + 1, v));
            } else {
                assert(lv2[p].1[q] == lv[p].1[back(p, q)]);
                assert(inst_at(lv2, p, q, v));
            }
        }
    }
}

/// Taking an instruction out of the layout keeps the layout well formed and
/// within the graph; the instruction then has no place, and everything else
/// is held as before.
pub proof fn lemma_without_inst(lv: LayoutView, l: Values, b: Blocks, i: int, j: int)
    requires
        layout_wf(lv),
        layout_in_graph(lv, l, b),
        0 <= i < lv.len(),
        0 <= j < lv[i].1.len(),
    ensures
        layout_wf(without_inst(lv, i, j)),
        layout_in_graph(without_inst(lv, i, j), l, b),
        forall|x: BasicBlock| has_bb(without_inst(lv, i, j), x) <==> has_bb(lv, x),
        forall|v: Value|
            has_inst(without_inst(lv, i, j), v) <==> (v != lv[i].1[j] && has_inst(lv, v)),
{
    let lv2 = without_inst(lv, i, j);
    let fwd = |p: int, q: int|
        if p == i && q >= j {
            q + 1
        } else {
            q
        };
    assert forall|p: int, q: int|
        0 <= p < lv2.len() && 0 <= q < lv2[p].1.len() implies #[trigger] lv2[p].1[q] == lv[p].1[fwd(
        p,
        q,
    )] && 0 <= fwd(p, q) < lv[p].1.len() by {}
    assert forall|p: int, q: int|
        0 <= p < lv2.len() && 0 <= q < lv2.len() && #[trigger] lv2[p].0 == #[trigger] lv2[q].0 implies p
        == q by {
        assert(lv[p].0 == lv[q].0);
    }
    assert forall|p: int, q: int, r: int, m: int|
        0 <= p < lv2.len() && 0 <= q < lv2[p].1.len() && 0 <= r < lv2.len() && 0 <= m
            < lv2[r].1.len() && #[trigger] lv2[p].1[q] == #[trigger] lv2[r].1[m] implies p == r && q
        == m by {
        assert(lv[p].1[fwd(p, q)] == lv[r].1[fwd(r, m)]);
    }
    assert forall|p: int| 0 <= p < lv2.len() implies b.contains_key(#[trigger] lv2[p].0) by {
        assert(b.contains_key(lv[p].0));
    }
    assert forall|p: int, q: int| 0 <= p < lv2.len() && 0 <= q < lv2[p].1.len() implies l.contains_key(
        #[trigger] lv2[p].1[q],
    ) && is_inst_kind(l[lv2[p].1[q]].kind) by {
        assert(l.contains_key(lv[p].1[fwd(p, q)]));
    }
    assert forall|x: BasicBlock| has_bb(lv2, x) <==> has_bb(lv, x) by {
        if has_bb(lv2, x) {
            let p = choose|p: int| bb_at(lv2, p, x);
            assert(bb_at(lv, p, x));
        }
        if has_bb(lv, x) {
            let p = choose|p: int| bb_at(lv, p, x);
            assert(bb_at(lv2, p, x));
        }
    }
    assert forall|v: Value| has_inst(lv2, v) <==> (v != lv[i].1[j] && has_inst(lv, v)) by {
        if has_inst(lv2, v) {
            let (p, q) = choose|p: int, q: int| inst_at(lv2, p, q, v);
            assert(inst_at(lv, p, fwd(p, q), v));
            if v == lv[i].1[j] {
                assert(lv[p].1[fwd(p, q)] == lv[i].1[j]);
            }
        }
        if v != lv[i].1[j] && has_inst(lv, v) {
            let (p, q) = choose|p: int, q: int| inst_at(lv, p, q, v);
            if p == i && q > j {
                assert(lv2[p].1[q - 1] == lv[p].1[fwd(p, q - 1)]);
                assert(inst_at(lv2, p, q - 1, v));
            } else {
                assert(lv2[p].1[q] == lv[p].1[fwd(p, q)]);
                assert(inst_at(lv2, p, q, v));
            }
        }
    }
}

/// A basic block of a layout, with its instructions in their order.
struct BlockNode {
    bb: BasicBlock,
    insts: Vec<Value>,
}

/// The order of the basic blocks of a function, and of the instructions of
/// each block. The first block is the entry of the function.
pub struct Layout {
    bbs: Vec<BlockNode>,
}

impl View for Layout {
    type V = LayoutView;

    closed spec fn view(&self) -> LayoutView {
        Seq::new(self.bbs@.len(), |i: int| (self.bbs@[i].bb, self.bbs@[i].insts@))
    }
}

impl Layout {
    /// The layout is well formed: nothing occupies two places.
    pub open spec fn wf(&self) -> bool {
        layout_wf(self@)
    }

    /// Creates an empty layout.
    pub fn new() -> (r: Layout)
        ensures
            r@ == LayoutView::empty(),
            r.wf(),
    {
        let r = Layout { bbs: Vec::new() };
        assert(r@ =~= LayoutView::empty());
        r
    }

    /// The number of basic blocks.
    pub fn bb_count(&self) -> (r: usize)
        ensures
            r == self@.len(),
    {
        self.bbs.len()
    }

    /// Whether the layout holds no basic block.
    pub fn is_empty(&self) -> (r: bool)
        ensures
            r == (self@.len() == 0),
    {
        self.bbs.len() == 0
    }

    /// The basic block at place `i`, if there is one.
    pub fn bb_at(&self, i: usize) -> (r: Option<BasicBlock>)
        ensures
            r == (if i < self@.len() {
                Some(self@[i as int].0)
            } else {
                None
            }),
    {
        if i < self.bbs.len() {
            Some(self.bbs[i].bb)
        } else {
            None
        }
    }

    /// The first basic block, the entry of the function, if there is one.
    pub fn entry_bb(&self) -> (r: Option<BasicBlock>)
        ensures
            r == (if self@.len() > 0 {
                Some(self@[0].0)
            } else {
                None
            }),
    {
        self.bb_at(0)
    }

    /// The basic blocks in their order.
    pub fn bbs(&self) -> (r: Vec<BasicBlock>)
        ensures
            r@.len() == self@.len(),
            forall|i: int| 0 <= i < r@.len() ==> r@[i] == self@[i].0,
    {
        let mut out: Vec<BasicBlock> = Vec::new();
        let mut i: usize = 0;
        while i < self.bbs.len()
            invariant
                i <= self.bbs.len(),
                out@.len() == i,
                forall|k: int| 0 <= k < i ==> out@[k] == self@[k].0,
            decreases self.bbs.len() - i,
        {
            out.push(self.bbs[i].bb);
            i = i + 1;
        }
        out
    }

    /// The instructions of the basic block `bb` in their order, if the layout
    /// holds the block.
    pub fn insts(&self, bb: BasicBlock) -> (r: Option<&[Value]>)
        requires
            self.wf(),
        ensures
            match r {
                Some(s) => has_bb(self@, bb) && s@ == self@[bb_place(self@, bb)].1,
                None => !has_bb(self@, bb),
            },
    {
        match self.find_bb(bb) {
            Some(i) => {
                proof {
                    lemma_bb_place(self@, i as int, bb);
                }
                Some(self.bbs[i].insts.as_slice())
            },
            None => None,
        }
    }

    /// The place of the basic block `bb`, if the layout holds it.
    fn find_bb(&self, bb: BasicBlock) -> (r: Option<usize>)
        ensures
            match r {
                Some(i) => bb_at(self@, i as int, bb),
                None => !has_bb(self@, bb),
            },
    {
        let mut i: usize = 0;
        while i < self.bbs.len()
            invariant
                i <= self.bbs.len(),
                forall|k: int| 0 <= k < i ==> !bb_at(self@, k, bb),
            decreases self.bbs.len() - i,
        {
            if self.bbs[i].bb == bb {
                return Some(i);
            }
            i = i + 1;
        }
        None
    }

    /// The place of the instruction `inst`, if the layout holds it.
    fn find_inst(&self, inst: Value) -> (r: Option<(usize, usize)>)
        ensures
            match r {
                Some(p) => inst_at(self@, p.0 as int, p.1 as int, inst),
                None => !has_inst(self@, inst),
            },
    {
        let mut i: usize = 0;
        while i < self.bbs.len()
            invariant
                i <= self.bbs.len(),
                forall|k: int, m: int| 0 <= k < i ==> !inst_at(self@, k, m, inst),
            decreases self.bbs.len() - i,
        {
            let mut j: usize = 0;
            while j < self.bbs[i].insts.len()
                invariant
                    i < self.bbs.len(),
                    j <= self.bbs@[i as int].insts@.len(),
                    forall|k: int, m: int| 0 <= k < i ==> !inst_at(self@, k, m, inst),
                    forall|m: int| 0 <= m < j ==> !inst_at(self@, i as int, m, inst),
                decreases self.bbs@[i as int].insts@.len() - j,
            {
                if self.bbs[i].insts[j] == inst {
                    return Some((i, j));
                }
                j = j + 1;
            }
            i = i + 1;
        }
        None
    }

    /// The basic block that holds the instruction `inst`, if `inst` has a
    /// place in the layout.
    pub fn parent_bb(&self, inst: Value) -> (r: Option<BasicBlock>)
        requires
            self.wf(),
        ensures
            r == (if has_inst(self@, inst) {
                Some(self@[inst_place(self@, inst).0].0)
            } else {
                None
            }),
    {
        match self.find_inst(inst) {
            Some((i, j)) => {
                proof {
                    lemma_inst_place(self@, i as int, j as int, inst);
                }
                Some(self.bbs[i].bb)
            },
            None => None,
        }
    }

    /// Whether the layout holds the basic block `bb`.
    pub fn has_bb(&self, bb: BasicBlock) -> (r: bool)
        ensures
            r == has_bb(self@, bb),
    {
        self.find_bb(bb).is_some()
    }

    /// Whether the layout holds the instruction `inst`.
    pub fn has_inst(&self, inst: Value) -> (r: bool)
        ensures
            r == has_inst(self@, inst),
    {
        self.find_inst(inst).is_some()
    }

    /// Gives the basic block `bb` the last place.
    ///
    /// Refused, with nothing changed, as [`bb_entry_refusal`] says.
    pub(crate) fn append_bb(&mut self, dfg: &DataFlowGraph, bb: BasicBlock) -> (r: Result<(), IrError>)
        requires
            old(self).wf(),
            layout_in_graph(old(self)@, dfg@.values, dfg@.bbs),
        ensures
            final(self).wf(),
            layout_in_graph(final(self)@, dfg@.values, dfg@.bbs),
            match r {
                Ok(_) => {
                    &&& bb_entry_refusal(old(self)@, dfg@.bbs, bb) is None
                    &&& final(self)@ == with_bb(old(self)@, old(self)@.len() as int, bb)
                    &&& forall|x: BasicBlock|
                        has_bb(final(self)@, x) <==> (x == bb || has_bb(old(self)@, x))
                    &&& forall|v: Value| has_inst(final(self)@, v) <==> has_inst(old(self)@, v)
                },
                Err(e) => bb_entry_refusal(old(self)@, dfg@.bbs, bb) == Some(e) && *final(self)
                    == *old(self),
            },
    {
        if dfg.bb(bb).is_none() {
            return Err(IrError::UnknownBlock);
        }
        if self.find_bb(bb).is_some() {
            return Err(IrError::AlreadyInLayout);
        }
        self.bbs.push(BlockNode { bb, insts: Vec::new() });
        proof {
            let lv = old(self)@;
            assert(self@ =~= with_bb(lv, lv.len() as int, bb));
            lemma_with_bb(lv, dfg@.values, dfg@.bbs, lv.len() as int, bb);
        }
        Ok(())
    }

    /// Gives the basic block `bb` the place before the basic block `anchor`.
    ///
    /// Refused, with nothing changed, as [`bb_entry_refusal`] says, or else
    /// with `NotInLayout` when `anchor` has no place in the layout.
    pub(crate) fn insert_bb_before(
        &mut self,
        dfg: &DataFlowGraph,
        bb: BasicBlock,
        anchor: BasicBlock,
    ) -> (r: Result<(), IrError>)
        requires
            old(self).wf(),
            layout_in_graph(old(self)@, dfg@.values, dfg@.bbs),
        ensures
            final(self).wf(),
            layout_in_graph(final(self)@, dfg@.values, dfg@.bbs),
            match r {
                Ok(_) => {
                    &&& bb_entry_refusal(old(self)@, dfg@.bbs, bb) is None
                    &&& has_bb(old(self)@, anchor)
                    &&& final(self)@ == with_bb(old(self)@, bb_place(old(self)@, anchor), bb)
                    &&& forall|x: BasicBlock|
                        has_bb(final(self)@, x) <==> (x == bb || has_bb(old(self)@, x))
                    &&& forall|v: Value| has_inst(final(self)@, v) <==> has_inst(old(self)@, v)
                },
                Err(e) => {
                    &&& *final(self) == *old(self)
                    &&& if bb_entry_refusal(old(self)@, dfg@.bbs, bb) is Some {
                        bb_entry_refusal(old(self)@, dfg@.bbs, bb) == Some(e)
                    } else {
                        !has_bb(old(self)@, anchor) && e == IrError::NotInLayout
                    }
                },
            },
    {
        if dfg.bb(bb).is_none() {
            return Err(IrError::UnknownBlock);
        }
        if self.find_bb(bb).is_some() {
            return Err(IrError::AlreadyInLayout);
        }
        let i = match self.find_bb(anchor) {
            Some(i) => i,
            None => {
                return Err(IrError::NotInLayout);
            },
        };
        self.bbs.insert(i, BlockNode { bb, insts: Vec::new() });
        proof {
            let lv = old(self)@;
            lemma_bb_place(lv, i as int, anchor);
            assert(self@ =~= with_bb(lv, i as int, bb));
            lemma_with_bb(lv, dfg@.values, dfg@.bbs, i as int, bb);
        }
        Ok(())
    }

    /// Takes the basic block `bb`, with its instructions, out of the layout.
    ///
    /// Refused with `NotInLayout`, with nothing changed, when `bb` has no
    /// place in the layout.
    pub fn remove_bb(&mut self, dfg: &DataFlowGraph, bb: BasicBlock) -> (r: Result<(), IrError>)
        requires
            old(self).wf(),
            layout_in_graph(old(self)@, dfg@.values, dfg@.bbs),
        ensures
            final(self).wf(),
            layout_in_graph(final(self)@, dfg@.values, dfg@.bbs),
            match r {
                Ok(_) => {
                    &&& has_bb(old(self)@, bb)
                    &&& final(self)@ == without_bb(old(self)@, bb_place(old(self)@, bb))
                    &&& forall|x: BasicBlock|
                        has_bb(final(self)@, x) <==> (x != bb && has_bb(old(self)@, x))
                    &&& forall|v: Value|
                        has_inst(final(self)@, v) <==> (has_inst(old(self)@, v) && !old(
                            self,
                        )@[bb_place(old(self)@, bb)].1.contains(v))
                },
                Err(e) => !has_bb(old(self)@, bb) && e == IrError::NotInLayout && *final(self)
                    == *old(self),
            },
    {
        let i = match self.find_bb(bb) {
            Some(i) => i,
            None => {
                return Err(IrError::NotInLayout);
            },
        };
        self.bbs.remove(i);
        proof {
            let lv = old(self)@;
            lemma_bb_place(lv, i as int, bb);
            assert(self@ =~= without_bb(lv, i as int));
            lemma_without_bb(lv, dfg@.values, dfg@.bbs, i as int);
        }
        Ok(())
    }

    /// Gives the instruction `inst` the last place in the basic block `bb`.
    ///
    /// Refused, with nothing changed, as [`inst_entry_refusal`] says, or else
    /// with `NotInLayout` when `bb` has no place in the layout.
    pub(crate) fn append_inst(
        &mut self,
        dfg: &DataFlowGraph,
        inst: Value,
        bb: BasicBlock,
    ) -> (r: Result<(), IrError>)
        requires
            old(self).wf(),
            layout_in_graph(old(self)@, dfg@.values, dfg@.bbs),
        ensures
            final(self).wf(),
            layout_in_graph(final(self)@, dfg@.values, dfg@.bbs),
            match r {
                Ok(_) => {
                    &&& inst_entry_refusal(old(self)@, dfg@.values, inst) is None
                    &&& has_bb(old(self)@, bb)
                    &&& final(self)@ == with_inst(
                        old(self)@,
                        bb_place(old(self)@, bb),
                        old(self)@[bb_place(old(self)@, bb)].1.len() as int,
                        inst,
                    )
                    &&& forall|x: BasicBlock| has_bb(final(self)@, x) <==> has_bb(old(self)@, x)
                    &&& forall|v: Value|
                        has_inst(final(self)@, v) <==> (v == inst || has_inst(old(self)@, v))
                },
                Err(e) => {
                    &&& *final(self) == *old(self)
                    &&& if inst_entry_refusal(old(self)@, dfg@.values, inst) is Some {
                        inst_entry_refusal(old(self)@, dfg@.values, inst) == Some(e)
                    } else {
                        !has_bb(old(self)@, bb) && e == IrError::NotInLayout
                    }
                },
            },
    {
        if let Some(e) = self.check_inst(dfg, inst) {
            return Err(e);
        }
        let i = match self.find_bb(bb) {
            Some(i) => i,
            None => {
                return Err(IrError::NotInLayout);
            },
        };
        let ghost lv = old(self)@;
        let ghost j = lv[i as int].1.len() as int;
        self.bbs[i].insts.push(inst);
        proof {
            lemma_bb_place(lv, i as int, bb);
            assert(self@[i as int].1 =~= lv[i as int].1.insert(j, inst));
            assert(self@ =~= with_inst(lv, i as int, j, inst));
            lemma_with_inst(lv, dfg@.values, dfg@.bbs, i as int, j, inst);
        }
        Ok(())
    }

    /// Gives the instruction `inst` the place before the instruction
    /// `anchor`, in the basic block of `anchor`.
    ///
    /// Refused, with nothing changed, as [`inst_entry_refusal`] says, or else
    /// with `NotInLayout` when `anchor` has no place in the layout.
    pub(crate) fn insert_inst_before(
        &mut self,
        dfg: &DataFlowGraph,
        inst: Value,
        anchor: Value,
    ) -> (r: Result<(), IrError>)
        requires
            old(self).wf(),
            layout_in_graph(old(self)@, dfg@.values, dfg@.bbs),
        ensures
            final(self).wf(),
            layout_in_graph(final(self)@, dfg@.values, dfg@.bbs),
            match r {
                Ok(_) => {
                    &&& inst_entry_refusal(old(self)@, dfg@.values, inst) is None
                    &&& has_inst(old(self)@, anchor)
                    &&& final(self)@ == with_inst(
                        old(self)@,
                        inst_place(old(self)@, anchor).0,
                        inst_place(old(self)@, anchor).1,
                        inst,
                    )
                    &&& forall|x: BasicBlock| has_bb(final(self)@, x) <==> has_bb(old(self)@, x)
                    &&& forall|v: Value|
                        has_inst(final(self)@, v) <==> (v == inst || has_inst(old(self)@, v))
                },
                Err(e) => {
                    &&& *final(self) == *old(self)
                    &&& if inst_entry_refusal(old(self)@, dfg@.values, inst) is Some {
                        inst_entry_refusal(old(self)@, dfg@.values, inst) == Some(e)
                    } else {
                        !has_inst(old(self)@, anchor) && e == IrError::NotInLayout
                    }
                },
            },
    {
        if let Some(e) = self.check_inst(dfg, inst) {
            return Err(e);
        }
        let (i, j) = match self.find_inst(anchor) {
            Some(p) => p,
            None => {
                return Err(IrError::NotInLayout);
            },
        };
        let ghost lv = old(self)@;
        self.bbs[i].insts.insert(j, inst);
        proof {
            lemma_inst_place(lv, i as int, j as int, anchor);
            assert(self@ =~= with_inst(lv, i as int, j as int, inst));
            lemma_with_inst(lv, dfg@.values, dfg@.bbs, i as int, j as int, inst);
        }
        Ok(())
    }

    /// Takes the instruction `inst` out of the layout.
    ///
    /// Refused with `NotInLayout`, with nothing changed, when `inst` has no
    /// place in the layout.
    pub fn remove_inst(&mut self, dfg: &DataFlowGraph, inst: Value) -> (r: Result<(), IrError>)
        requires
            old(self).wf(),
            layout_in_graph(old(self)@, dfg@.values, dfg@.bbs),
        ensures
            final(self).wf(),
            layout_in_graph(final(self)@, dfg@.values, dfg@.bbs),
            match r {
                Ok(_) => {
                    &&& has_inst(old(self)@, inst)
                    &&& final(self)@ == without_inst(
                        old(self)@,
                        inst_place(old(self)@, inst).0,
                        inst_place(old(self)@, inst).1,
                    )
                    &&& forall|x: BasicBlock| has_bb(final(self)@, x) <==> has_bb(old(self)@, x)
                    &&& forall|v: Value|
                        has_inst(final(self)@, v) <==> (v != inst && has_inst(old(self)@, v))
                },
                Err(e) => !has_inst(old(self)@, inst) && e == IrError::NotInLayout && *final(self)
                    == *old(self),
            },
    {
        let (i, j) = match self.find_inst(inst) {
            Some(p) => p,
            None => {
                return Err(IrError::NotInLayout);
            },
        };
        let ghost lv = old(self)@;
        self.bbs[i].insts.remove(j);
        proof {
            lemma_inst_place(lv, i as int, j as int, inst);
            assert(self@ =~= without_inst(lv, i as int, j as int));
            lemma_without_inst(lv, dfg@.values, dfg@.bbs, i as int, j as int);
        }
        Ok(())
    }

    /// The instruction before `inst` in its basic block, if `inst` has a
    /// place in the layout and is not the first of its block.
    pub fn inst_prev(&self, inst: Value) -> (r: Option<Value>)
        requires
            self.wf(),
        ensures
            r == (if has_inst(self@, inst) && inst_place(self@, inst).1 > 0 {
                Some(self@[inst_place(self@, inst).0].1[inst_place(self@, inst).1 - 1])
            } else {
                None
            }),
    {
        match self.find_inst(inst) {
            Some((i, j)) => {
                proof {
                    lemma_inst_place(self@, i as int, j as int, inst);
                }
                if j > 0 {
                    Some(self.bbs[i].insts[j - 1])
                } else {
                    None
                }
            },
            None => None,
        }
    }

    /// The instruction after `inst` in its basic block, if `inst` has a place
    /// in the layout and is not the last of its block.
    pub fn inst_next(&self, inst: Value) -> (r: Option<Value>)
        requires
            self.wf(),
        ensures
            r == (if has_inst(self@, inst) && inst_place(self@, inst).1 + 1 < self@[inst_place(
                self@,
                inst,
            ).0].1.len() {
                Some(self@[inst_place(self@, inst).0].1[inst_place(self@, inst).1 + 1])
            } else {
                None
            }),
    {
        match self.find_inst(inst) {
            Some((i, j)) => {
                proof {
                    lemma_inst_place(self@, i as int, j as int, inst);
                }
                let n = self.bbs[i].insts.len();
                assert(j < n);
                if j + 1 < n {
                    Some(self.bbs[i].insts[j + 1])
                } else {
                    None
                }
            },
            None => None,
        }
    }

    /// Decides whether an instruction can be given a place, and why not.
    fn check_inst(&self, dfg: &DataFlowGraph, inst: Value) -> (r: Option<IrError>)
        ensures
            r == inst_entry_refusal(self@, dfg@.values, inst),
    {
        match dfg.value(inst) {
            None => Some(IrError::UnknownValue),
            Some(d) => {
                if !d.is_inst() {
                    Some(IrError::NotInstruction)
                } else if self.find_inst(inst).is_some() {
                    Some(IrError::AlreadyInLayout)
                } else {
                    None
                }
            },
        }
    }
}

} // verus!
