//! What holds of every well-formed graph, function and shared state, stated
//! one by one.

use crate::ir::context::Context;
use crate::ir::dfg::{created, graph_wf, GraphView};
use crate::ir::entities::{
    bb_uses, is_inst_kind, value_uses, BasicBlock, Function, Value, ValueDataView,
};
use crate::ir::program::{held_by_function, program_wf, ProgramView};
use crate::ir::function::{function_wf, FunctionView};
use crate::ir::types::{Type, TypeFactory};
use crate::ir::usedef::{
    block_remove_user, in_scope, lemma_block_insert_remove_roundtrip,
    lemma_insert_remove_roundtrip, locals_after_remove, record, remove_user, unused_in,
    unused_in_blocks,
};
use vstd::prelude::*;

verus! {

/// Interners are isolated: a handle that one interner knows is known to no
/// interner with another number, and is equal to no handle that such an
/// interner knows.
pub proof fn lemma_interners_apart(a: &TypeFactory, b: &TypeFactory, t: Type, u: Type)
    requires
        a.id() != b.id(),
        a.knows(t),
        b.knows(u),
    ensures
        !b.knows(t),
        t != u,
{
}

/// A graph without values and basic blocks is well formed wherever its
/// return type is known.
pub proof fn lemma_empty_graph_wf(g: GraphView, cx: &Context)
    requires
        cx.wf(),
        g.values == crate::ir::table::Values::empty(),
        g.bbs == crate::ir::table::Blocks::empty(),
        cx.types.knows(g.ret_ty),
    ensures
        graph_wf(g, cx),
{
}

/// Every operand of a value of a well-formed graph is a value of the graph or
/// a global value, and lists the value among its users.
pub proof fn lemma_operand_lists_user(g: GraphView, cx: &Context, v: Value, i: int)
    requires
        graph_wf(g, cx),
        g.values.contains_key(v),
        0 <= i < value_uses(g.values[v].kind).len(),
    ensures
        in_scope(g.values, cx.values@, value_uses(g.values[v].kind)[i]),
        record(g.values, cx.values@, value_uses(g.values[v].kind)[i]).used_by.contains(v),
{
}

/// Every user that a value of a well-formed graph lists is a value of the
/// graph and names the value in at least one operand place.
pub proof fn lemma_user_names_value(g: GraphView, cx: &Context, u: Value, w: Value)
    requires
        graph_wf(g, cx),
        g.values.contains_key(u),
        g.values[u].used_by.contains(w),
    ensures
        g.values.contains_key(w),
        exists|i: int|
            0 <= i < value_uses(g.values[w].kind).len() && value_uses(g.values[w].kind)[i] == u,
{
    assert(value_uses(g.values[w].kind).contains(u));
}

/// Every user that a global value lists, and that is a value of a well-formed
/// graph, names the global value in at least one operand place.
pub proof fn lemma_local_user_names_global(g: GraphView, cx: &Context, u: Value, w: Value)
    requires
        graph_wf(g, cx),
        cx.values@.contains_key(u),
        cx.values@[u].used_by.contains(w),
        g.values.contains_key(w),
    ensures
        exists|i: int|
            0 <= i < value_uses(g.values[w].kind).len() && value_uses(g.values[w].kind)[i] == u,
{
    assert(value_uses(g.values[w].kind).contains(u));
}

/// Every operand of a global value of a well-formed shared state is a global
/// value and lists the value among its users.
pub proof fn lemma_global_operand_lists_user(cx: &Context, v: Value, i: int)
    requires
        cx.wf(),
        cx.values@.contains_key(v),
        0 <= i < value_uses(cx.values@[v].kind).len(),
    ensures
        cx.values@.contains_key(value_uses(cx.values@[v].kind)[i]),
        cx.values@[value_uses(cx.values@[v].kind)[i]].used_by.contains(v),
{
    let e = crate::ir::table::Values::empty();
    let u = value_uses(cx.values@[v].kind)[i];
    assert(in_scope(cx.values@, e, u));
    assert(record(cx.values@, e, u).used_by.contains(v));
}

/// Every user that a global value lists, and that is itself a global value,
/// names the value in at least one operand place.
pub proof fn lemma_global_user_names_value(cx: &Context, u: Value, w: Value)
    requires
        cx.wf(),
        cx.values@.contains_key(u),
        cx.values@[u].used_by.contains(w),
        cx.values@.contains_key(w),
    ensures
        exists|i: int|
            0 <= i < value_uses(cx.values@[w].kind).len() && value_uses(cx.values@[w].kind)[i]
                == u,
{
    assert(value_uses(cx.values@[w].kind).contains(u));
}

/// Every user that a global value of a well-formed program lists exists and
/// names the global value in at least one operand place: it is a global
/// value, or a value of a function of the program.
pub proof fn lemma_program_user_names_global(p: ProgramView, u: Value, w: Value)
    requires
        program_wf(p),
        p.cx.values@.contains_key(u),
        p.cx.values@[u].used_by.contains(w),
    ensures
        (p.cx.values@.contains_key(w) && value_uses(p.cx.values@[w].kind).contains(u)) || exists|
            f: Function,
        |
            p.funcs.contains_key(f) && #[trigger] p.funcs[f].dfg.values.contains_key(w)
                && value_uses(p.funcs[f].dfg.values[w].kind).contains(u),
{
    if !p.cx.values@.contains_key(w) {
        assert(held_by_function(p.funcs, w));
        let f = choose|f: Function|
            p.funcs.contains_key(f) && #[trigger] p.funcs[f].dfg.values.contains_key(w);
        assert(function_wf(p.funcs[f], &p.cx));
    }
}

/// Every basic block that a value of a well-formed graph names is a block of
/// the graph and lists the value among its users.
pub proof fn lemma_block_lists_user(g: GraphView, cx: &Context, v: Value, i: int)
    requires
        graph_wf(g, cx),
        g.values.contains_key(v),
        0 <= i < bb_uses(g.values[v].kind).len(),
    ensures
        g.bbs.contains_key(bb_uses(g.values[v].kind)[i]),
        g.bbs[bb_uses(g.values[v].kind)[i]].used_by.contains(v),
{
}

/// Every user that a basic block of a well-formed graph lists is a value of
/// the graph and names the block.
pub proof fn lemma_user_names_block(g: GraphView, cx: &Context, bb: BasicBlock, w: Value)
    requires
        graph_wf(g, cx),
        g.bbs.contains_key(bb),
        g.bbs[bb].used_by.contains(w),
    ensures
        g.values.contains_key(w),
        exists|i: int| 0 <= i < bb_uses(g.values[w].kind).len() && bb_uses(g.values[w].kind)[i] == bb,
{
    assert(bb_uses(g.values[w].kind).contains(bb));
}

/// Every basic block in the layout of a well-formed function is a block of
/// its graph.
pub proof fn lemma_layout_block_exists(f: FunctionView, cx: &Context, i: int)
    requires
        function_wf(f, cx),
        0 <= i < f.layout.len(),
    ensures
        f.dfg.bbs.contains_key(f.layout[i].0),
{
}

/// Every instruction in the layout of a well-formed function is a value of
/// its graph whose kind is an instruction.
pub proof fn lemma_layout_inst_exists(f: FunctionView, cx: &Context, i: int, j: int)
    requires
        function_wf(f, cx),
        0 <= i < f.layout.len(),
        0 <= j < f.layout[i].1.len(),
    ensures
        f.dfg.values.contains_key(f.layout[i].1[j]),
        is_inst_kind(f.dfg.values[f.layout[i].1[j]].kind),
{
}

/// Creating a value in a well-formed graph and then removing it, while it
/// has no users, leaves the graph and the global values as they were before
/// the value was created: every operand and every basic block of the value
/// lists the users that it listed before.
pub proof fn lemma_create_remove_roundtrip(
    pre: GraphView,
    pre_cx: &Context,
    mid: GraphView,
    mid_cx: &Context,
    post: GraphView,
    post_cx: &Context,
    v: Value,
    d: ValueDataView,
)
    requires
        pre_cx.wf(),
        graph_wf(pre, pre_cx),
        created(pre, pre_cx, mid, mid_cx, v, d),
        post.values == locals_after_remove(mid.values, v),
        post_cx.values@ == remove_user(mid_cx.values@, value_uses(mid.values[v].kind), v),
        post.bbs == block_remove_user(mid.bbs, bb_uses(mid.values[v].kind), v),
    ensures
        post.values == pre.values,
        post_cx.values@ == pre_cx.values@,
        post.bbs == pre.bbs,
{
    let l = pre.values;
    let g = pre_cx.values@;
    let b = pre.bbs;
    assert(!l.contains_key(v));
    assert(unused_in(l, v)) by {
        assert forall|u: Value| #[trigger] l.contains_key(u) implies !l[u].used_by.contains(v) by {}
    }
    assert(unused_in(g, v)) by {
        assert forall|u: Value| #[trigger] g.contains_key(u) implies !g[u].used_by.contains(v) by {}
    }
    assert(unused_in_blocks(b, v)) by {
        assert forall|bb: BasicBlock| #[trigger] b.contains_key(bb) implies !b[bb].used_by.contains(
            v,
        ) by {
            if b[bb].used_by.contains(v) {
                assert(l.contains_key(v));
            }
        }
    }
    assert(mid.values[v] == d);
    lemma_insert_remove_roundtrip(l, v, d);
    lemma_insert_remove_roundtrip(g, v, d);
    lemma_block_insert_remove_roundtrip(b, bb_uses(d.kind), v);
}

} // verus!
