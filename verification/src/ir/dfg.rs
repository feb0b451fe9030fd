//! The data-flow graph of a function: its values and basic blocks, the
//! builders that create them, and the operations that replace and remove
//! them while the use–def relation stays consistent.

use crate::ir::context::{context_step, creation_refusal, types_owned, values_sound, Context};
use crate::ir::entities::{
    bb_uses, check_opt_name, is_inst_kind, name_view, valid_opt_name, value_uses, BasicBlock,
    BasicBlockData, BasicBlockDataView, BinaryOp, Function, KindView, Value, ValueData,
    ValueDataView, ValueKind,
};
use crate::ir::error::IrError;
use crate::ir::layout::{has_bb, has_inst, layout_in_graph, Layout, LayoutView};
use crate::ir::table::{BlockMap, Blocks, ValueMap, Values};
use crate::ir::types::{
    all_known, owned, same_types, table_extends, Type, TypeData, TypeShape,
};
use crate::ir::typing::{
    builder_refusal, own_shape, result_shape, result_type, shape, types_after, with_types, Env,
    Scope,
};
use crate::ir::usedef::{
    add_user, block_add_user, block_remove_user, graph_consistent, in_scope, lemma_add_user_none,
    lemma_add_user_step, lemma_block_add_user_none, lemma_block_add_user_step,
    lemma_block_remove_user_step, lemma_globals_stay_consistent, lemma_insert_consistent,
    lemma_remove_consistent, lemma_remove_user_step, locals_after_insert, locals_after_remove,
    lemma_rewire_consistent, lemma_rewired_kinds_none, lemma_rewired_kinds_step, record,
    remove_user, rewired, rewired_kinds, scopes_disjoint, unused_in, unused_in_blocks,
};
use vstd::prelude::*;

verus! {

/// The mathematical value of a [`DataFlowGraph`].
pub struct GraphView {
    pub values: Values,
    pub bbs: Blocks,
    pub ret_ty: Type,
}

/// The parameters of the basic block `bb` are sound: the type of the block is
/// a basic block type, and its parameter types are the types of the
/// parameters, which are values of the graph that refer to their places in
/// the block.
pub open spec fn params_sound(
    d: BasicBlockDataView,
    bb: BasicBlock,
    l: Values,
    table: Seq<TypeShape>,
) -> bool {
    match shape(table, d.ty) {
        Some(TypeShape::BasicBlock(ps)) => {
            &&& ps.len() == d.params.len()
            &&& forall|i: int|
                0 <= i < d.params.len() ==> {
                    &&& l.contains_key(#[trigger] d.params[i])
                    &&& l[d.params[i]].kind == (KindView::BlockArgRef { bb, index: i as usize })
                    &&& l[d.params[i]].ty == ps[i]
                }
        },
        _ => false,
    }
}

/// The type of every basic block of `b` is a handle of the interner with the
/// number `owner`.
pub open spec fn block_types_owned(b: Blocks, owner: u64) -> bool {
    forall|bb: BasicBlock| #[trigger] b.contains_key(bb) ==> b[bb].ty.1 == owner
}

/// The basic blocks of a graph are sound: their handles were handed out by
/// the counter, their names are well formed, and their parameters are sound.
pub open spec fn blocks_sound(b: Blocks, l: Values, table: Seq<TypeShape>, bound: nat) -> bool {
    forall|bb: BasicBlock| #[trigger]
        b.contains_key(bb) ==> {
            &&& bb.0 < bound
            &&& valid_opt_name(b[bb].name)
            &&& params_sound(b[bb], bb, l, table)
        }
}

/// The record of a new value without users and without a name.
pub open spec fn fresh_record(ty: Type, kind: KindView) -> ValueDataView {
    ValueDataView { ty, name: None, kind, used_by: Set::<Value>::empty() }
}

/// What the creation of the value `v` with record `d` does to a graph and to
/// the shared state: the value enters the graph, its operands and basic
/// blocks list it among their users, the counter of values moves on by one,
/// and nothing else changes.
pub open spec fn created(
    pre: GraphView,
    pre_cx: &Context,
    post: GraphView,
    post_cx: &Context,
    v: Value,
    d: ValueDataView,
) -> bool {
    &&& v.0 == pre_cx.ids.value_bound()
    &&& post.values == locals_after_insert(pre.values, v, d)
    &&& post_cx.values@ == add_user(pre_cx.values@, value_uses(d.kind), v)
    &&& post.bbs == block_add_user(pre.bbs, bb_uses(d.kind), v)
    &&& post.ret_ty == pre.ret_ty
    &&& post_cx.ids.value_bound() == pre_cx.ids.value_bound() + 1
    &&& post_cx.ids.bb_bound() == pre_cx.ids.bb_bound()
    &&& post_cx.ids.func_bound() == pre_cx.ids.func_bound()
    &&& post_cx.func_tys@ == pre_cx.func_tys@
}

/// The surroundings in which the values of a graph are checked.
pub open spec fn graph_env(g: GraphView, cx: &Context) -> Env {
    Env {
        owner: cx.types.id(),
        types: cx.types@,
        locals: g.values,
        globals: cx.values@,
        blocks: g.bbs,
        func_tys: cx.func_tys@,
        ret_ty: Some(g.ret_ty),
    }
}

/// `t` is a type of the interner of `cx`, and its entry has the shape `d`,
/// where there is one.
pub open spec fn holds_shape(cx: &Context, t: Type, d: Option<TypeShape>) -> bool {
    &&& cx.types.knows(t)
    &&& d matches Some(shape) ==> cx.types@[t.0 as int] == shape
}

/// What building a value of kind `k` does and returns. The shape of the type
/// of the value is interned where the kind asks for one. Then either the
/// value is created with the type that the kind decides, a type of the
/// interner whose entry has that shape, or the kind is refused as
/// [`builder_refusal`] says, and nothing else has changed.
pub open spec fn build_outcome(
    pre: GraphView,
    pre_cx: &Context,
    post: GraphView,
    post_cx: &Context,
    k: KindView,
    r: Result<Value, IrError>,
) -> bool {
    let env = graph_env(pre, pre_cx);
    let after = with_types(env, types_after(env, k));
    &&& post_cx.types.id() == pre_cx.types.id()
    &&& post_cx.types@ == types_after(env, k)
    &&& match r {
        Ok(v) => {
            &&& builder_refusal(env, k, pre_cx.ids.value_bound() < u64::MAX) is None
            &&& result_type(after, k) is Some
            &&& holds_shape(post_cx, result_type(after, k)->0, result_shape(env, k))
            &&& created(pre, pre_cx, post, post_cx, v, fresh_record(result_type(after, k)->0, k))
        },
        Err(e) => {
            &&& builder_refusal(env, k, pre_cx.ids.value_bound() < u64::MAX) == Some(e)
            &&& post == pre
            &&& post_cx.values@ == pre_cx.values@
            &&& post_cx.func_tys@ == pre_cx.func_tys@
            &&& post_cx.ids == pre_cx.ids
        },
    }
}

/// What creating a value of kind `k` with the type of the shape `d` does and
/// returns, for the kinds whose type the caller chooses: the shape is
/// interned, or refused as the interner says, with nothing changed; then the
/// value is created with this type, or refused as [`creation_refusal`] says,
/// with nothing else changed.
pub open spec fn typed_outcome(
    pre: GraphView,
    pre_cx: &Context,
    post: GraphView,
    post_cx: &Context,
    k: KindView,
    d: TypeShape,
    r: Result<Value, IrError>,
) -> bool {
    let env = graph_env(pre, pre_cx);
    let table = crate::ir::types::intern_table(pre_cx.types.id(), pre_cx.types@, d);
    &&& post_cx.types@ == table
    &&& post_cx.types.id() == pre_cx.types.id()
    &&& match crate::ir::types::intern_result(pre_cx.types.id(), pre_cx.types@, d) {
        Err(e) => r == Err::<Value, IrError>(e) && post == pre && post_cx.values@
            == pre_cx.values@ && post_cx.func_tys@ == pre_cx.func_tys@ && post_cx.ids
            == pre_cx.ids,
        Ok(t) => match r {
            Ok(v) => {
                &&& creation_refusal(
                    with_types(env, table),
                    fresh_record(t, k),
                    pre_cx.ids.value_bound() < u64::MAX,
                ) is None
                &&& created(pre, pre_cx, post, post_cx, v, fresh_record(t, k))
            },
            Err(e) => {
                &&& creation_refusal(
                    with_types(env, table),
                    fresh_record(t, k),
                    pre_cx.ids.value_bound() < u64::MAX,
                ) == Some(e)
                &&& post == pre
                &&& post_cx.values@ == pre_cx.values@
                &&& post_cx.func_tys@ == pre_cx.func_tys@
                &&& post_cx.ids == pre_cx.ids
            },
        },
    }
}

/// Why a value cannot be removed from a graph: the graph does not hold it
/// (`UnknownValue`), it is a reference to a parameter, which leaves with what
/// it belongs to (`InvalidKind`), it still has users (`InUse`), or it still
/// has a place in the layout (`InLayout`).
pub open spec fn value_removal_refusal(l: Values, lv: LayoutView, v: Value) -> Option<IrError> {
    if !l.contains_key(v) {
        Some(IrError::UnknownValue)
    } else if l[v].kind is FuncArgRef || l[v].kind is BlockArgRef {
        Some(IrError::InvalidKind)
    } else if l[v].used_by != Set::<Value>::empty() {
        Some(IrError::InUse)
    } else if has_inst(lv, v) {
        Some(IrError::InLayout)
    } else {
        None
    }
}

/// The kind of the reference to parameter `i` of the basic block `owner`, or
/// of the function where there is no such block.
pub open spec fn arg_kind(owner: Option<BasicBlock>, i: int) -> KindView {
    match owner {
        Some(bb) => KindView::BlockArgRef { bb, index: i as usize },
        None => KindView::FuncArgRef { index: i as usize },
    }
}

/// The handles of `n` values created one after the other, the first with the
/// number `base`.
pub open spec fn arg_handles(base: nat, n: nat) -> Seq<Value> {
    Seq::new(n, |i: int| Value((base + i) as u64))
}

/// The values of a graph after references to parameters of the types `tys`
/// have been created, the first with the number `base`.
pub open spec fn with_args(
    l: Values,
    base: nat,
    tys: Seq<Type>,
    owner: Option<BasicBlock>,
) -> Values {
    Map::new(
        |v: Value| l.contains_key(v) || base <= v.0 < base + tys.len(),
        |v: Value|
            if l.contains_key(v) {
                l[v]
            } else {
                fresh_record(tys[v.0 - base], arg_kind(owner, v.0 - base))
            },
    )
}

/// The values of a graph without the values `gone`.
pub open spec fn without_values(l: Values, gone: Seq<Value>) -> Values {
    Map::new(|v: Value| l.contains_key(v) && !gone.contains(v), |v: Value| l[v])
}

/// Why a basic block cannot be created: a name that is not well formed
/// (`InvalidName`), a type that names no entry (`UnknownType`) or is not a
/// basic block type (`TypeMismatch`), a number of parameters other than the
/// type's (`ArityMismatch`), parameter types other than the type's
/// (`TypeMismatch`), or counters at their end (`IdsExhausted`).
pub open spec fn block_creation_refusal(
    cx: &Context,
    name: Option<Seq<char>>,
    params: Seq<Type>,
    ty: Type,
) -> Option<IrError> {
    if !valid_opt_name(name) {
        Some(IrError::InvalidName)
    } else {
        match own_shape(cx.types.id(), cx.types@, ty) {
            None => Some(IrError::UnknownType),
            Some(TypeShape::BasicBlock(ps)) => {
                if ps.len() != params.len() {
                    Some(IrError::ArityMismatch)
                } else if ps != params {
                    Some(IrError::TypeMismatch)
                } else if cx.ids.bb_bound() >= u64::MAX || cx.ids.value_bound() + params.len()
                    > u64::MAX {
                    Some(IrError::IdsExhausted)
                } else {
                    None
                }
            },
            Some(_) => Some(IrError::TypeMismatch),
        }
    }
}

/// What the creation of the basic block `bb` does to a graph and to the
/// shared state: the references to its parameters enter the graph, then the
/// block with these as its parameters; the counters move on by the number of
/// parameters and by one block; nothing else changes.
pub open spec fn block_created(
    pre: GraphView,
    pre_cx: &Context,
    post: GraphView,
    post_cx: &Context,
    bb: BasicBlock,
    name: Option<Seq<char>>,
    tys: Seq<Type>,
    ty: Type,
) -> bool {
    &&& bb.0 == pre_cx.ids.bb_bound()
    &&& post.values == with_args(pre.values, pre_cx.ids.value_bound(), tys, Some(bb))
    &&& post.bbs == pre.bbs.insert(
        bb,
        BasicBlockDataView {
            ty,
            name,
            params: arg_handles(pre_cx.ids.value_bound(), tys.len()),
            used_by: Set::<Value>::empty(),
        },
    )
    &&& post.ret_ty == pre.ret_ty
    &&& post_cx.values@ == pre_cx.values@
    &&& post_cx.types@ == pre_cx.types@
    &&& post_cx.func_tys@ == pre_cx.func_tys@
    &&& post_cx.ids.value_bound() == pre_cx.ids.value_bound() + tys.len()
    &&& post_cx.ids.bb_bound() == pre_cx.ids.bb_bound() + 1
    &&& post_cx.ids.func_bound() == pre_cx.ids.func_bound()
}

/// Some parameter of the block record `d` has users.
pub open spec fn some_param_used(l: Values, d: BasicBlockDataView) -> bool {
    exists|i: int|
        0 <= i < d.params.len() && l[#[trigger] d.params[i]].used_by != Set::<Value>::empty()
}

/// Why a basic block cannot be removed from a graph: the graph does not hold
/// it (`UnknownBlock`), a value still names it (`InUse`), it still has a
/// place in the layout (`InLayout`), or one of its parameters still has users
/// (`InUse`).
pub open spec fn block_removal_refusal(
    l: Values,
    b: Blocks,
    lv: LayoutView,
    bb: BasicBlock,
) -> Option<IrError> {
    if !b.contains_key(bb) {
        Some(IrError::UnknownBlock)
    } else if b[bb].used_by != Set::<Value>::empty() {
        Some(IrError::InUse)
    } else if has_bb(lv, bb) {
        Some(IrError::InLayout)
    } else if some_param_used(l, b[bb]) {
        Some(IrError::InUse)
    } else {
        None
    }
}

/// Why the uses of `old_v` cannot be replaced by uses of `new_v`: the graph
/// does not hold `old_v`, or `new_v` is not in scope (`UnknownValue`), or the
/// two have different types (`TypeMismatch`).
pub open spec fn replacement_refusal(
    l: Values,
    g: Values,
    old_v: Value,
    new_v: Value,
) -> Option<IrError> {
    if !l.contains_key(old_v) || !in_scope(l, g, new_v) {
        Some(IrError::UnknownValue)
    } else if l[old_v].ty != record(l, g, new_v).ty {
        Some(IrError::TypeMismatch)
    } else {
        None
    }
}

/// A graph is well formed in the shared state `cx`: the use–def relation
/// between its values, the global values and its basic blocks is consistent,
/// its values and basic blocks are sound, and its return type and the types
/// of its values and basic blocks are types of the interner of `cx`.
pub open spec fn graph_wf(g: GraphView, cx: &Context) -> bool {
    &&& graph_consistent(g.values, cx.values@, g.bbs)
    &&& values_sound(g.values, cx.types@, cx.ids.value_bound())
    &&& blocks_sound(g.bbs, g.values, cx.types@, cx.ids.bb_bound())
    &&& cx.types.knows(g.ret_ty)
    &&& types_owned(g.values, cx.types.id())
    &&& block_types_owned(g.bbs, cx.types.id())
}

/// The graph `post` holds what the graph `pre` held: every value, with its
/// type, an instruction exactly if it was one, and with its kind where the
/// kind has no operands; every basic block; and the return type.
pub open spec fn graph_extends(pre: GraphView, post: GraphView) -> bool {
    &&& post.ret_ty == pre.ret_ty
    &&& forall|v: Value| #[trigger]
        pre.values.contains_key(v) ==> {
            &&& post.values.contains_key(v)
            &&& post.values[v].ty == pre.values[v].ty
            &&& is_inst_kind(post.values[v].kind) == is_inst_kind(pre.values[v].kind)
            &&& value_uses(pre.values[v].kind).len() == 0 ==> post.values[v].kind
                == pre.values[v].kind
        }
    &&& forall|bb: BasicBlock| #[trigger]
        pre.bbs.contains_key(bb) ==> post.bbs.contains_key(bb)
}

/// What a change of a graph does around it: the shared state changes as
/// [`context_step`] allows for the values of the graph, every value that the
/// graph has gained was created since, and every user that a global value
/// lists afterwards is a value of the graph, or was listed before and was no
/// value of the graph then.
pub open spec fn edit_step(
    pre: GraphView,
    pre_cx: &Context,
    post: GraphView,
    post_cx: &Context,
) -> bool {
    &&& context_step(pre_cx, post_cx, pre.values.dom())
    &&& forall|v: Value| #[trigger]
        post.values.contains_key(v) ==> pre.values.contains_key(v) || v.0
            >= pre_cx.ids.value_bound()
    &&& forall|u: Value, w: Value|
        #![trigger post_cx.values@[u].used_by.contains(w)]
        post_cx.values@.contains_key(u) && post_cx.values@[u].used_by.contains(w)
            ==> post.values.contains_key(w) || (pre_cx.values@[u].used_by.contains(w)
            && !pre.values.contains_key(w))
}

/// One change of a graph after another is a change of the graph.
pub proof fn lemma_edit_steps_compose(
    a: GraphView,
    a_cx: &Context,
    b: GraphView,
    b_cx: &Context,
    c: GraphView,
    c_cx: &Context,
)
    requires
        edit_step(a, a_cx, b, b_cx),
        edit_step(b, b_cx, c, c_cx),
    ensures
        edit_step(a, a_cx, c, c_cx),
{
    let t0 = a_cx.types@;
    let t1 = b_cx.types@;
    let t2 = c_cx.types@;
    assert forall|i: int| 0 <= i < t0.len() implies #[trigger] t2[i] == t0[i] by {
        assert(t1[i] == t0[i]);
    }
    assert forall|u: Value| #[trigger] a_cx.values@.contains_key(u) implies {
        &&& c_cx.values@[u].ty == a_cx.values@[u].ty
        &&& c_cx.values@[u].name == a_cx.values@[u].name
        &&& c_cx.values@[u].kind == a_cx.values@[u].kind
        &&& forall|w: Value|
            !a.values.dom().contains(w) && w.0 < a_cx.ids.value_bound() ==> (
            c_cx.values@[u].used_by.contains(w) <==> a_cx.values@[u].used_by.contains(w))
    } by {
        assert(b_cx.values@.contains_key(u));
        assert forall|w: Value|
            !a.values.dom().contains(w) && w.0 < a_cx.ids.value_bound() implies (
        c_cx.values@[u].used_by.contains(w) <==> a_cx.values@[u].used_by.contains(w)) by {
            if b.values.contains_key(w) {
                assert(a.values.contains_key(w) || w.0 >= a_cx.ids.value_bound());
            }
        }
    }
    assert forall|v: Value| #[trigger] c.values.contains_key(v) implies a.values.contains_key(v)
        || v.0 >= a_cx.ids.value_bound() by {
        if b.values.contains_key(v) {
            assert(a.values.contains_key(v) || v.0 >= a_cx.ids.value_bound());
        }
    }
}

/// A well-formed graph stays well formed when another graph, which shares
/// no value with it, is changed.
pub proof fn lemma_other_graph_stays_wf(
    other: GraphView,
    pre_cx: &Context,
    post_cx: &Context,
    mine: Set<Value>,
)
    requires
        graph_wf(other, pre_cx),
        context_step(pre_cx, post_cx, mine),
        forall|v: Value| other.values.contains_key(v) ==> !mine.contains(v),
    ensures
        graph_wf(other, post_cx),
{
    let l = other.values;
    let b = other.bbs;
    let g0 = pre_cx.values@;
    let g2 = post_cx.values@;
    let t0 = pre_cx.types@;
    let t1 = post_cx.types@;
    assert forall|t: Type| t.0 < t0.len() implies shape(t1, t) == shape(t0, t) by {
        assert(t1[t.0 as int] == t0[t.0 as int]);
    }
    assert forall|w: Value, i: int|
        #![trigger value_uses(l[w].kind)[i]]
        l.contains_key(w) && 0 <= i < value_uses(l[w].kind).len() implies in_scope(
        l,
        g2,
        value_uses(l[w].kind)[i],
    ) && record(l, g2, value_uses(l[w].kind)[i]).used_by.contains(w) by {
        let u = value_uses(l[w].kind)[i];
        assert(in_scope(l, g0, u));
        assert(record(l, g0, u).used_by.contains(w));
        if !l.contains_key(u) {
            assert(g0.contains_key(u));
            assert(g2.dom().contains(u));
        }
    }
    assert forall|u: Value, w: Value|
        #![trigger g2[u].used_by.contains(w)]
        g2.contains_key(u) && g2[u].used_by.contains(w) && l.contains_key(w) implies value_uses(
        l[w].kind,
    ).contains(u) by {
        assert(g2.dom().contains(u));
        assert(g0.contains_key(u));
        assert(g0[u].used_by.contains(w));
    }
    assert(scopes_disjoint(l, g2)) by {
        assert forall|x: Value| #[trigger] l.contains_key(x) implies !g2.contains_key(x) by {
            if g2.contains_key(x) {
                assert(g2.dom().contains(x));
                assert(g0.contains_key(x));
            }
        }
    }
    assert forall|bb: BasicBlock| #[trigger] b.contains_key(bb) implies params_sound(
        b[bb],
        bb,
        l,
        t1,
    ) by {
        assert(params_sound(b[bb], bb, l, t0));
        assert(shape(t0, b[bb].ty) is Some);
    }
}

/// A graph and a shared state stay well formed when the interner grows.
pub proof fn lemma_types_grow(g: GraphView, pre_cx: &Context, post_cx: &Context)
    requires
        pre_cx.wf(),
        graph_consistent(g.values, pre_cx.values@, g.bbs),
        values_sound(g.values, pre_cx.types@, pre_cx.ids.value_bound()),
        blocks_sound(g.bbs, g.values, pre_cx.types@, pre_cx.ids.bb_bound()),
        pre_cx.types.knows(g.ret_ty),
        post_cx.types.id() == pre_cx.types.id(),
        post_cx.types.wf(),
        table_extends(pre_cx.types@, post_cx.types@),
        post_cx.values@ == pre_cx.values@,
        post_cx.func_tys@ == pre_cx.func_tys@,
        post_cx.ids == pre_cx.ids,
    ensures
        post_cx.wf(),
        graph_consistent(g.values, post_cx.values@, g.bbs),
        values_sound(g.values, post_cx.types@, post_cx.ids.value_bound()),
        blocks_sound(g.bbs, g.values, post_cx.types@, post_cx.ids.bb_bound()),
        post_cx.types.knows(g.ret_ty),
{
    let t0 = pre_cx.types@;
    let t1 = post_cx.types@;
    assert forall|t: Type| t.0 < t0.len() implies shape(t1, t) == shape(t0, t) by {
        assert(t1[t.0 as int] == t0[t.0 as int]);
    }
    assert forall|f: crate::ir::entities::Function| #[trigger]
        post_cx.func_tys@.contains_key(f) implies shape(t1, post_cx.func_tys@[f]) == shape(
        t0,
        pre_cx.func_tys@[f],
    ) by {
        assert(pre_cx.func_tys@.contains_key(f));
    }
    assert forall|bb: BasicBlock| #[trigger] g.bbs.contains_key(bb) implies params_sound(
        g.bbs[bb],
        bb,
        g.values,
        t1,
    ) by {
        assert(params_sound(g.bbs[bb], bb, g.values, t0));
        assert(shape(t0, g.bbs[bb].ty) is Some);
    }
}

/// A layout within a graph is within every graph that holds what the graph
/// held.
pub proof fn lemma_layout_stays_in_graph(lv: LayoutView, pre: GraphView, post: GraphView)
    requires
        layout_in_graph(lv, pre.values, pre.bbs),
        graph_extends(pre, post),
    ensures
        layout_in_graph(lv, post.values, post.bbs),
{
    assert forall|i: int| 0 <= i < lv.len() implies post.bbs.contains_key(#[trigger] lv[i].0) by {
        assert(pre.bbs.contains_key(lv[i].0));
    }
    assert forall|i: int, j: int| 0 <= i < lv.len() && 0 <= j < lv[i].1.len() implies post.values.contains_key(
        #[trigger] lv[i].1[j],
    ) && is_inst_kind(post.values[lv[i].1[j]].kind) by {
        assert(pre.values.contains_key(lv[i].1[j]));
    }
}

/// The data-flow graph of a function: the store of its values and basic
/// blocks, and the keeper of the use–def relation between them.
pub struct DataFlowGraph {
    values: ValueMap,
    bbs: BlockMap,
    ret_ty: Type,
}

impl View for DataFlowGraph {
    type V = GraphView;

    closed spec fn view(&self) -> GraphView {
        GraphView { values: self.values@, bbs: self.bbs@, ret_ty: self.ret_ty }
    }
}

impl DataFlowGraph {
    /// The surroundings in which the values of the graph are checked.
    pub open spec fn env(&self, cx: &Context) -> Env {
        graph_env(self@, cx)
    }

    /// The graph is well formed in the shared state `cx`.
    pub open spec fn wf(&self, cx: &Context) -> bool {
        graph_wf(self@, cx)
    }

    /// Creates an empty graph for a function that returns `ret_ty`. The graph
    /// is well formed in a shared state whose interner knows `ret_ty`.
    pub fn new(ret_ty: Type) -> (r: DataFlowGraph)
        ensures
            r@ == (GraphView { values: Values::empty(), bbs: Blocks::empty(), ret_ty }),
    {
        DataFlowGraph { values: ValueMap::new(), bbs: BlockMap::new(), ret_ty }
    }

    /// The return type of the function of the graph.
    pub fn ret_ty(&self) -> (r: Type)
        ensures
            r == self@.ret_ty,
    {
        self.ret_ty
    }

    /// The record of the value `v` of the graph, if there is one.
    pub fn value(&self, v: Value) -> (r: Option<&ValueData>)
        ensures
            match r {
                Some(d) => self@.values.contains_key(v) && d@ == self@.values[v],
                None => !self@.values.contains_key(v),
            },
    {
        self.values.get(v)
    }

    /// The handles of the values of the graph, each once, in no particular
    /// order.
    pub fn values(&self) -> (r: Vec<Value>)
        ensures
            r@.to_set() == self@.values.dom(),
            r@.no_duplicates(),
    {
        self.values.handles()
    }

    /// The handles of the basic blocks of the graph, each once, in no
    /// particular order.
    pub fn bbs(&self) -> (r: Vec<BasicBlock>)
        ensures
            r@.to_set() == self@.bbs.dom(),
            r@.no_duplicates(),
    {
        self.bbs.handles()
    }

    /// The values of the graph, by handle.
    pub(crate) fn value_map(&self) -> (r: &ValueMap)
        ensures
            r@ == self@.values,
    {
        &self.values
    }

    /// The record of the basic block `bb` of the graph, if there is one.
    pub fn bb(&self, bb: BasicBlock) -> (r: Option<&BasicBlockData>)
        ensures
            match r {
                Some(d) => self@.bbs.contains_key(bb) && d@ == self@.bbs[bb],
                None => !self@.bbs.contains_key(bb),
            },
    {
        self.bbs.get(bb)
    }

    /// Creating a value keeps a well-formed graph and a well-formed shared
    /// state well formed.
    proof fn lemma_created(
        pre: GraphView,
        pre_cx: &Context,
        post: GraphView,
        post_cx: &Context,
        v: Value,
        d: ValueDataView,
    )
        requires
            pre_cx.wf(),
            graph_consistent(pre.values, pre_cx.values@, pre.bbs),
            values_sound(pre.values, pre_cx.types@, pre_cx.ids.value_bound()),
            blocks_sound(pre.bbs, pre.values, pre_cx.types@, pre_cx.ids.bb_bound()),
            pre_cx.types.knows(pre.ret_ty),
            v.0 == pre_cx.ids.value_bound(),
            d.used_by == Set::<Value>::empty(),
            valid_opt_name(d.name),
            d.ty.0 < pre_cx.types@.len(),
            forall|i: int|
                0 <= i < value_uses(d.kind).len() ==> in_scope(
                    pre.values,
                    pre_cx.values@,
                    value_uses(d.kind)[i],
                ),
            forall|i: int| 0 <= i < bb_uses(d.kind).len() ==> pre.bbs.contains_key(bb_uses(d.kind)[i]),
            post.values == locals_after_insert(pre.values, v, d),
            post_cx.values@ == add_user(pre_cx.values@, value_uses(d.kind), v),
            post.bbs == block_add_user(pre.bbs, bb_uses(d.kind), v),
            post.ret_ty == pre.ret_ty,
            post_cx.types == pre_cx.types,
            post_cx.func_tys@ == pre_cx.func_tys@,
            post_cx.ids.value_bound() == v.0 + 1,
            post_cx.ids.bb_bound() == pre_cx.ids.bb_bound(),
            post_cx.ids.func_bound() == pre_cx.ids.func_bound(),
        ensures
            post_cx.wf(),
            graph_consistent(post.values, post_cx.values@, post.bbs),
            values_sound(post.values, post_cx.types@, post_cx.ids.value_bound()),
            blocks_sound(post.bbs, post.values, post_cx.types@, post_cx.ids.bb_bound()),
            edit_step(pre, pre_cx, post, post_cx),
    {
        let l0 = pre.values;
        let g0 = pre_cx.values@;
        let b0 = pre.bbs;
        let l2 = post.values;
        let g2 = post_cx.values@;
        let b2 = post.bbs;
        let table = pre_cx.types@;
        assert(g2.dom() =~= g0.dom());
        assert(unused_in(l0, v)) by {
            assert forall|u: Value| #[trigger] l0.contains_key(u) implies !l0[u].used_by.contains(
                v,
            ) by {}
        }
        assert(unused_in(g0, v)) by {
            assert forall|u: Value| #[trigger] g0.contains_key(u) implies !g0[u].used_by.contains(
                v,
            ) by {}
        }
        assert(unused_in_blocks(b0, v)) by {
            assert forall|bb: BasicBlock| #[trigger] b0.contains_key(bb) implies !b0[bb].used_by.contains(
                v,
            ) by {
                if b0[bb].used_by.contains(v) {
                    assert(l0.contains_key(v));
                }
            }
        }
        lemma_insert_consistent(l0, g0, b0, v, d);
        assert(g2.dom() =~= g0.dom());
        lemma_globals_stay_consistent(g0, g2);
        assert forall|x: Value| #[trigger] g2.contains_key(x) implies {
            &&& x.0 < post_cx.ids.value_bound()
            &&& g2[x].ty.0 < table.len()
            &&& valid_opt_name(g2[x].name)
            &&& forall|w: Value| g2[x].used_by.contains(w) ==> w.0 < post_cx.ids.value_bound()
        } by {
            assert(g0.contains_key(x));
        }
        assert forall|x: Value| #[trigger] l2.contains_key(x) implies {
            &&& x.0 < post_cx.ids.value_bound()
            &&& l2[x].ty.0 < table.len()
            &&& valid_opt_name(l2[x].name)
            &&& forall|w: Value| l2[x].used_by.contains(w) ==> w.0 < post_cx.ids.value_bound()
        } by {
            if x != v {
                assert(l0.contains_key(x));
            }
        }
        assert forall|bb: BasicBlock| #[trigger] b2.contains_key(bb) implies {
            &&& bb.0 < post_cx.ids.bb_bound()
            &&& valid_opt_name(b2[bb].name)
            &&& params_sound(b2[bb], bb, l2, table)
        } by {
            assert(b0.contains_key(bb));
            assert(params_sound(b0[bb], bb, l0, table));
            let ps = b0[bb].params;
            assert forall|i: int| 0 <= i < ps.len() implies {
                &&& l2.contains_key(#[trigger] ps[i])
                &&& l2[ps[i]].kind == l0[ps[i]].kind
                &&& l2[ps[i]].ty == l0[ps[i]].ty
            } by {
                assert(l0.contains_key(ps[i]));
            }
        }
    }

    /// Creates a value of the graph from its record and returns its handle.
    /// The operands and the basic blocks of the value now list it among their
    /// users.
    ///
    /// The record is refused, and nothing changes, as [`creation_refusal`]
    /// says for the surroundings of the graph.
    pub fn new_value(&mut self, cx: &mut Context, data: ValueData) -> (r: Result<Value, IrError>)
        requires
            old(cx).wf(),
            old(self).wf(&*old(cx)),
        ensures
            final(cx).wf(),
            final(self).wf(&*final(cx)),
            graph_extends(old(self)@, final(self)@),
            edit_step(old(self)@, &*old(cx), final(self)@, &*final(cx)),
            match r {
                Ok(v) => {
                    &&& creation_refusal(
                        old(self).env(&*old(cx)),
                        data@,
                        old(cx).ids.value_bound() < u64::MAX,
                    ) is None
                    &&& created(old(self)@, &*old(cx), final(self)@, &*final(cx), v, data@)
                    &&& final(cx).types == old(cx).types
                },
                Err(e) => {
                    &&& creation_refusal(
                        old(self).env(&*old(cx)),
                        data@,
                        old(cx).ids.value_bound() < u64::MAX,
                    ) == Some(e)
                    &&& *final(self) == *old(self)
                    &&& *final(cx) == *old(cx)
                },
            },
    {
        if !check_opt_name(data.name()) {
            return Err(IrError::InvalidName);
        }
        if data.has_users() {
            return Err(IrError::InUse);
        }
        let scope = Scope {
            types: &cx.types,
            locals: &self.values,
            globals: &cx.values,
            blocks: &self.bbs,
            func_tys: &cx.func_tys,
            ret_ty: Some(self.ret_ty),
        };
        assert(scope@ == self.env(&*cx));
        if let Some(e) = scope.check(data.kind(), *data.ty()) {
            return Err(e);
        }
        let v = match cx.ids.next_value_id() {
            Some(id) => Value(id),
            None => {
                return Err(IrError::IdsExhausted);
            },
        };
        let ghost d = data@;
        proof {
            assert(!in_scope(old(self)@.values, old(cx).values@, v));
        }
        self.enroll(cx, v, data);
        proof {
            let env = old(self).env(&*old(cx));
            assert forall|i: int| 0 <= i < value_uses(d.kind).len() implies in_scope(
                old(self)@.values,
                old(cx).values@,
                value_uses(d.kind)[i],
            ) by {
                assert(in_scope(env.locals, env.globals, value_uses(d.kind)[i]));
            }
            assert forall|i: int| 0 <= i < bb_uses(d.kind).len() implies old(
                self,
            )@.bbs.contains_key(bb_uses(d.kind)[i]) by {
                assert(env.blocks.contains_key(bb_uses(d.kind)[i]));
            }
            Self::lemma_created(old(self)@, &*old(cx), self@, &*cx, v, d);
        }
        Ok(v)
    }

    /// Enters a checked record into the graph under a new handle and lists the
    /// handle with the operands and basic blocks of the record.
    fn enroll(&mut self, cx: &mut Context, v: Value, data: ValueData)
        requires
            graph_consistent(old(self)@.values, old(cx).values@, old(self)@.bbs),
            !in_scope(old(self)@.values, old(cx).values@, v),
        ensures
            final(self)@.values == locals_after_insert(old(self)@.values, v, data@),
            final(cx).values@ == add_user(old(cx).values@, value_uses(data@.kind), v),
            final(self)@.bbs == block_add_user(old(self)@.bbs, bb_uses(data@.kind), v),
            final(self)@.ret_ty == old(self)@.ret_ty,
            final(cx).types == old(cx).types,
            final(cx).func_tys == old(cx).func_tys,
            final(cx).ids == old(cx).ids,
    {
        let ghost l0 = old(self)@.values;
        let ghost g0 = old(cx).values@;
        let ghost b0 = old(self)@.bbs;
        let ghost ops = value_uses(data@.kind);
        let ghost bbs = bb_uses(data@.kind);
        proof {
            lemma_add_user_none(l0, v);
            lemma_add_user_none(g0, v);
            lemma_block_add_user_none(b0, v);
            assert(ops.take(0) =~= Seq::<Value>::empty());
            assert(ops.skip(0) =~= ops);
            assert(bbs.take(0) =~= Seq::<BasicBlock>::empty());
            assert(bbs.skip(0) =~= bbs);
        }
        let mut it = data.kind().value_uses();
        let ghost mut n: int = 0;
        loop
            invariant_except_break
                it.wf(),
                it.kind() == data@.kind,
                it.remaining() == ops.skip(n),
            invariant
                ops == value_uses(data@.kind),
                0 <= n <= ops.len(),
                scopes_disjoint(l0, g0),
                self@.values == add_user(l0, ops.take(n), v),
                cx.values@ == add_user(g0, ops.take(n), v),
                self@.bbs == b0,
                self@.ret_ty == old(self)@.ret_ty,
                cx.types == old(cx).types,
                cx.func_tys == old(cx).func_tys,
                cx.ids == old(cx).ids,
            ensures
                n == ops.len(),
            decreases it.remaining().len(),
        {
            match it.next() {
                Some(u) => {
                    assert(u == ops[n]);
                    proof {
                        lemma_add_user_step(l0, ops, n, v);
                        lemma_add_user_step(g0, ops, n, v);
                        assert(ops.skip(n).skip(1) =~= ops.skip(n + 1));
                    }
                    if !self.values.add_user(u, v) {
                        cx.values.add_user(u, v);
                    }
                    proof {
                        n = n + 1;
                    }
                },
                None => {
                    break ;
                },
            }
        }
        assert(ops.take(n) =~= ops);
        let mut bit = data.kind().bb_uses();
        let ghost mut m: int = 0;
        loop
            invariant_except_break
                bit.wf(),
                bit.kind() == data@.kind,
                bit.remaining() == bbs.skip(m),
            invariant
                bbs == bb_uses(data@.kind),
                0 <= m <= bbs.len(),
                self@.values == add_user(l0, ops, v),
                cx.values@ == add_user(g0, ops, v),
                self@.bbs == block_add_user(b0, bbs.take(m), v),
                self@.ret_ty == old(self)@.ret_ty,
                cx.types == old(cx).types,
                cx.func_tys == old(cx).func_tys,
                cx.ids == old(cx).ids,
            ensures
                m == bbs.len(),
            decreases bit.remaining().len(),
        {
            match bit.next() {
                Some(b) => {
                    assert(b == bbs[m]);
                    proof {
                        lemma_block_add_user_step(b0, bbs, m, v);
                        assert(bbs.skip(m).skip(1) =~= bbs.skip(m + 1));
                    }
                    self.bbs.add_user(b, v);
                    proof {
                        m = m + 1;
                    }
                },
                None => {
                    break ;
                },
            }
        }
        assert(bbs.take(m) =~= bbs);
        self.values.insert(v, data);
    }

    /// Removing a value keeps a well-formed graph and a well-formed shared
    /// state well formed, and a layout that does not hold the value within
    /// the graph.
    proof fn lemma_removed(
        pre: GraphView,
        pre_cx: &Context,
        post: GraphView,
        post_cx: &Context,
        lv: LayoutView,
        v: Value,
    )
        requires
            pre_cx.wf(),
            graph_consistent(pre.values, pre_cx.values@, pre.bbs),
            values_sound(pre.values, pre_cx.types@, pre_cx.ids.value_bound()),
            blocks_sound(pre.bbs, pre.values, pre_cx.types@, pre_cx.ids.bb_bound()),
            layout_in_graph(lv, pre.values, pre.bbs),
            value_removal_refusal(pre.values, lv, v) is None,
            post.values == locals_after_remove(pre.values, v),
            post_cx.values@ == remove_user(pre_cx.values@, value_uses(pre.values[v].kind), v),
            post.bbs == block_remove_user(pre.bbs, bb_uses(pre.values[v].kind), v),
            post_cx.types == pre_cx.types,
            post_cx.func_tys == pre_cx.func_tys,
            post_cx.ids == pre_cx.ids,
        ensures
            post_cx.wf(),
            graph_consistent(post.values, post_cx.values@, post.bbs),
            values_sound(post.values, post_cx.types@, post_cx.ids.value_bound()),
            blocks_sound(post.bbs, post.values, post_cx.types@, post_cx.ids.bb_bound()),
            layout_in_graph(lv, post.values, post.bbs),
    {
        let l0 = pre.values;
        let g0 = pre_cx.values@;
        let b0 = pre.bbs;
        let l2 = post.values;
        let g2 = post_cx.values@;
        let b2 = post.bbs;
        let table = pre_cx.types@;
        lemma_remove_consistent(l0, g0, b0, v);
        assert(g2.dom() =~= g0.dom());
        lemma_globals_stay_consistent(g0, g2);
        assert forall|x: Value| #[trigger] g2.contains_key(x) implies {
            &&& x.0 < post_cx.ids.value_bound()
            &&& g2[x].ty.0 < table.len()
            &&& valid_opt_name(g2[x].name)
            &&& forall|w: Value| g2[x].used_by.contains(w) ==> w.0 < post_cx.ids.value_bound()
        } by {
            assert(g0.contains_key(x));
        }
        assert forall|x: Value| #[trigger] l2.contains_key(x) implies {
            &&& x.0 < post_cx.ids.value_bound()
            &&& l2[x].ty.0 < table.len()
            &&& valid_opt_name(l2[x].name)
            &&& forall|w: Value| l2[x].used_by.contains(w) ==> w.0 < post_cx.ids.value_bound()
        } by {
            assert(l0.contains_key(x));
        }
        assert forall|bb: BasicBlock| #[trigger] b2.contains_key(bb) implies {
            &&& bb.0 < post_cx.ids.bb_bound()
            &&& valid_opt_name(b2[bb].name)
            &&& params_sound(b2[bb], bb, l2, table)
        } by {
            assert(b0.contains_key(bb));
            assert(params_sound(b0[bb], bb, l0, table));
            let ps = b0[bb].params;
            assert forall|i: int| 0 <= i < ps.len() implies {
                &&& l2.contains_key(#[trigger] ps[i])
                &&& l2[ps[i]].kind == l0[ps[i]].kind
                &&& l2[ps[i]].ty == l0[ps[i]].ty
            } by {
                assert(l0.contains_key(ps[i]));
            }
        }
        assert forall|i: int| 0 <= i < lv.len() implies b2.contains_key(#[trigger] lv[i].0) by {
            assert(b0.contains_key(lv[i].0));
        }
        assert forall|i: int, j: int| 0 <= i < lv.len() && 0 <= j < lv[i].1.len() implies l2.contains_key(
            #[trigger] lv[i].1[j],
        ) && crate::ir::entities::is_inst_kind(l2[lv[i].1[j]].kind) by {
            assert(l0.contains_key(lv[i].1[j]));
            if lv[i].1[j] == v {
                assert(crate::ir::layout::inst_at(lv, i, j, v));
            }
        }
    }

    /// Removes the value `v` from the graph and returns its record. The
    /// operands and the basic blocks of the value no longer list it among
    /// their users.
    ///
    /// Refused, with nothing changed, as [`value_removal_refusal`] says for
    /// the layout of the function of the graph.
    pub(crate) fn remove_value(&mut self, cx: &mut Context, layout: &Layout, v: Value) -> (r: Result<ValueData, IrError>)
        requires
            old(cx).wf(),
            old(self).wf(&*old(cx)),
            layout_in_graph(layout@, old(self)@.values, old(self)@.bbs),
        ensures
            final(cx).wf(),
            final(self).wf(&*final(cx)),
            layout_in_graph(layout@, final(self)@.values, final(self)@.bbs),
            edit_step(old(self)@, &*old(cx), final(self)@, &*final(cx)),
            match r {
                Ok(d) => {
                    &&& value_removal_refusal(old(self)@.values, layout@, v) is None
                    &&& d@ == old(self)@.values[v]
                    &&& final(self)@.values == locals_after_remove(old(self)@.values, v)
                    &&& final(cx).values@ == remove_user(old(cx).values@, value_uses(d@.kind), v)
                    &&& final(self)@.bbs == block_remove_user(
                        old(self)@.bbs,
                        bb_uses(d@.kind),
                        v,
                    )
                    &&& final(self)@.ret_ty == old(self)@.ret_ty
                    &&& final(cx).ids == old(cx).ids
                    &&& final(cx).types == old(cx).types
                    &&& final(cx).func_tys == old(cx).func_tys
                },
                Err(e) => {
                    &&& value_removal_refusal(old(self)@.values, layout@, v) == Some(e)
                    &&& *final(self) == *old(self)
                    &&& *final(cx) == *old(cx)
                },
            },
    {
        match self.values.get(v) {
            None => {
                return Err(IrError::UnknownValue);
            },
            Some(d) => {
                match d.kind() {
                    ValueKind::FuncArgRef { .. } => {
                        return Err(IrError::InvalidKind);
                    },
                    ValueKind::BlockArgRef { .. } => {
                        return Err(IrError::InvalidKind);
                    },
                    _ => {},
                }
                if d.has_users() {
                    return Err(IrError::InUse);
                }
            },
        }
        if layout.has_inst(v) {
            return Err(IrError::InLayout);
        }
        let ghost l0 = old(self)@.values;
        let ghost g0 = old(cx).values@;
        let ghost b0 = old(self)@.bbs;
        let data = match self.values.remove(v) {
            Some(d) => d,
            None => vstd::pervasive::unreached(),
        };
        let ghost l1 = l0.remove(v);
        let ghost ops = value_uses(data@.kind);
        let ghost bbs = bb_uses(data@.kind);
        proof {
            lemma_add_user_none(l1, v);
            lemma_add_user_none(g0, v);
            lemma_block_add_user_none(b0, v);
            assert(ops.take(0) =~= Seq::<Value>::empty());
            assert(ops.skip(0) =~= ops);
            assert(bbs.take(0) =~= Seq::<BasicBlock>::empty());
            assert(bbs.skip(0) =~= bbs);
        }
        let mut it = data.kind().value_uses();
        let ghost mut n: int = 0;
        loop
            invariant_except_break
                it.wf(),
                it.kind() == data@.kind,
                it.remaining() == ops.skip(n),
            invariant
                ops == value_uses(data@.kind),
                0 <= n <= ops.len(),
                scopes_disjoint(l0, g0),
                l1 == l0.remove(v),
                self@.values == remove_user(l1, ops.take(n), v),
                cx.values@ == remove_user(g0, ops.take(n), v),
                self@.bbs == b0,
                self@.ret_ty == old(self)@.ret_ty,
                cx.types == old(cx).types,
                cx.func_tys == old(cx).func_tys,
                cx.ids == old(cx).ids,
            ensures
                n == ops.len(),
            decreases it.remaining().len(),
        {
            match it.next() {
                Some(u) => {
                    assert(u == ops[n]);
                    proof {
                        lemma_remove_user_step(l1, ops, n, v);
                        lemma_remove_user_step(g0, ops, n, v);
                        assert(ops.skip(n).skip(1) =~= ops.skip(n + 1));
                        if l1.contains_key(u) {
                            assert(l0.contains_key(u));
                        }
                    }
                    if !self.values.remove_user(u, v) {
                        cx.values.remove_user(u, v);
                    }
                    proof {
                        n = n + 1;
                    }
                },
                None => {
                    break ;
                },
            }
        }
        assert(ops.take(n) =~= ops);
        let mut bit = data.kind().bb_uses();
        let ghost mut m: int = 0;
        loop
            invariant_except_break
                bit.wf(),
                bit.kind() == data@.kind,
                bit.remaining() == bbs.skip(m),
            invariant
                bbs == bb_uses(data@.kind),
                0 <= m <= bbs.len(),
                self@.values == remove_user(l1, ops, v),
                cx.values@ == remove_user(g0, ops, v),
                self@.bbs == block_remove_user(b0, bbs.take(m), v),
                self@.ret_ty == old(self)@.ret_ty,
                cx.types == old(cx).types,
                cx.func_tys == old(cx).func_tys,
                cx.ids == old(cx).ids,
            ensures
                m == bbs.len(),
            decreases bit.remaining().len(),
        {
            match bit.next() {
                Some(b) => {
                    assert(b == bbs[m]);
                    proof {
                        lemma_block_remove_user_step(b0, bbs, m, v);
                        assert(bbs.skip(m).skip(1) =~= bbs.skip(m + 1));
                    }
                    self.bbs.remove_user(b, v);
                    proof {
                        m = m + 1;
                    }
                },
                None => {
                    break ;
                },
            }
        }
        proof {
            assert(bbs.take(m) =~= bbs);
            Self::lemma_removed(old(self)@, &*old(cx), self@, &*cx, layout@, v);
        }
        Ok(data)
    }

    /// Sets or clears the name of the value `v` of the graph.
    ///
    /// Refused, with nothing changed, when the graph does not hold `v`
    /// (`UnknownValue`), or else when the name is not well formed
    /// (`InvalidName`).
    pub fn set_value_name(&mut self, cx: &Context, v: Value, name: Option<String>) -> (r: Result<
        (),
        IrError,
    >)
        requires
            cx.wf(),
            old(self).wf(cx),
        ensures
            final(self).wf(cx),
            graph_extends(old(self)@, final(self)@),
            edit_step(old(self)@, cx, final(self)@, cx),
            match r {
                Ok(_) => {
                    &&& old(self)@.values.contains_key(v)
                    &&& valid_opt_name(name_view(name))
                    &&& final(self)@ == (GraphView {
                        values: old(self)@.values.insert(
                            v,
                            ValueDataView { name: name_view(name), ..old(self)@.values[v] },
                        ),
                        ..old(self)@
                    })
                },
                Err(e) => {
                    &&& *final(self) == *old(self)
                    &&& if !old(self)@.values.contains_key(v) {
                        e == IrError::UnknownValue
                    } else {
                        !valid_opt_name(name_view(name)) && e == IrError::InvalidName
                    }
                },
            },
    {
        if !self.values.contains(v) {
            return Err(IrError::UnknownValue);
        }
        if !check_opt_name(&name) {
            return Err(IrError::InvalidName);
        }
        let ghost l0 = old(self)@.values;
        let mut data = match self.values.remove(v) {
            Some(d) => d,
            None => vstd::pervasive::unreached(),
        };
        let _ = data.set_name(name);
        self.values.insert(v, data);
        proof {
            let l2 = self@.values;
            let g = cx.values@;
            let b = self@.bbs;
            assert(l2 =~= l0.insert(v, ValueDataView { name: name_view(name), ..l0[v] }));
            assert forall|x: Value| #[trigger] l2.contains_key(x) implies l0.contains_key(x)
                && l2[x].kind == l0[x].kind && l2[x].used_by == l0[x].used_by && l2[x].ty
                == l0[x].ty by {}
            assert forall|w: Value, i: int|
                #![trigger value_uses(l2[w].kind)[i]]
                l2.contains_key(w) && 0 <= i < value_uses(l2[w].kind).len() implies in_scope(
                l2,
                g,
                value_uses(l2[w].kind)[i],
            ) && crate::ir::usedef::record(l2, g, value_uses(l2[w].kind)[i]).used_by.contains(
                w,
            ) by {
                let u = value_uses(l0[w].kind)[i];
                assert(in_scope(l0, g, u));
                assert(crate::ir::usedef::record(l0, g, u).used_by.contains(w));
            }
            assert forall|u: Value, w: Value|
                #![trigger l2[u].used_by.contains(w)]
                l2.contains_key(u) && l2[u].used_by.contains(w) implies l2.contains_key(w)
                && value_uses(l2[w].kind).contains(u) by {
                assert(l0[u].used_by.contains(w));
            }
            assert forall|u: Value, w: Value|
                #![trigger g[u].used_by.contains(w)]
                g.contains_key(u) && g[u].used_by.contains(w) && l2.contains_key(w) implies value_uses(
                l2[w].kind,
            ).contains(u) by {}
            assert forall|w: Value, i: int|
                #![trigger bb_uses(l2[w].kind)[i]]
                l2.contains_key(w) && 0 <= i < bb_uses(l2[w].kind).len() implies b.contains_key(
                bb_uses(l2[w].kind)[i],
            ) && b[bb_uses(l2[w].kind)[i]].used_by.contains(w) by {
                assert(b.contains_key(bb_uses(l0[w].kind)[i]));
            }
            assert forall|bb: BasicBlock, w: Value|
                #![trigger b[bb].used_by.contains(w)]
                b.contains_key(bb) && b[bb].used_by.contains(w) implies l2.contains_key(w)
                && bb_uses(l2[w].kind).contains(bb) by {
                assert(l0.contains_key(w));
            }
            assert(scopes_disjoint(l2, g)) by {
                assert forall|x: Value| #[trigger] l2.contains_key(x) implies !g.contains_key(x) by {
                    assert(l0.contains_key(x));
                }
            }
            assert forall|bb: BasicBlock| #[trigger] b.contains_key(bb) implies params_sound(
                b[bb],
                bb,
                l2,
                cx.types@,
            ) by {
                assert(params_sound(b[bb], bb, l0, cx.types@));
                let ps = b[bb].params;
                assert forall|i: int| 0 <= i < ps.len() implies {
                    &&& l2.contains_key(#[trigger] ps[i])
                    &&& l2[ps[i]].kind == l0[ps[i]].kind
                    &&& l2[ps[i]].ty == l0[ps[i]].ty
                } by {
                    assert(l0.contains_key(ps[i]));
                }
            }
        }
        Ok(())
    }

    /// Creates one reference to a parameter.
    fn mint_arg(&mut self, cx: &mut Context, ty: Type, kind: ValueKind) -> (v: Value)
        requires
            old(cx).wf(),
            old(self).wf(&*old(cx)),
            old(cx).types.knows(ty),
            kind@ is FuncArgRef || kind@ is BlockArgRef,
            old(cx).ids.value_bound() < u64::MAX,
        ensures
            final(cx).wf(),
            final(self).wf(&*final(cx)),
            v.0 == old(cx).ids.value_bound(),
            final(self)@ == (GraphView {
                values: old(self)@.values.insert(v, fresh_record(ty, kind@)),
                ..old(self)@
            }),
            final(cx).values@ == old(cx).values@,
            final(cx).types == old(cx).types,
            final(cx).func_tys == old(cx).func_tys,
            final(cx).ids.value_bound() == old(cx).ids.value_bound() + 1,
            final(cx).ids.bb_bound() == old(cx).ids.bb_bound(),
            final(cx).ids.func_bound() == old(cx).ids.func_bound(),
    {
        let v = match cx.ids.next_value_id() {
            Some(id) => Value(id),
            None => vstd::pervasive::unreached(),
        };
        let data = ValueData::new(ty, kind);
        let ghost d = data@;
        assert(value_uses(d.kind) =~= Seq::<Value>::empty());
        assert(bb_uses(d.kind) =~= Seq::<BasicBlock>::empty());
        self.enroll(cx, v, data);
        proof {
            lemma_add_user_none(old(self)@.values, v);
            lemma_add_user_none(old(cx).values@, v);
            lemma_block_add_user_none(old(self)@.bbs, v);
            Self::lemma_created(old(self)@, &*old(cx), self@, &*cx, v, d);
        }
        v
    }

    /// Creates references to parameters of the types `tys`, in order, for
    /// the basic block `owner`, or for the function where there is no such
    /// block, and returns their handles.
    pub(crate) fn mint_args(
        &mut self,
        cx: &mut Context,
        tys: &Vec<Type>,
        owner: Option<BasicBlock>,
    ) -> (r: Vec<Value>)
        requires
            old(cx).wf(),
            old(self).wf(&*old(cx)),
            owned(old(cx).types.id(), tys@),
            all_known(old(cx).types@, tys@),
            old(cx).ids.value_bound() + tys@.len() <= u64::MAX,
        ensures
            final(cx).wf(),
            final(self).wf(&*final(cx)),
            graph_extends(old(self)@, final(self)@),
            edit_step(old(self)@, &*old(cx), final(self)@, &*final(cx)),
            r@ == arg_handles(old(cx).ids.value_bound(), tys@.len()),
            final(self)@ == (GraphView {
                values: with_args(old(self)@.values, old(cx).ids.value_bound(), tys@, owner),
                ..old(self)@
            }),
            final(cx).values@ == old(cx).values@,
            final(cx).types == old(cx).types,
            final(cx).func_tys == old(cx).func_tys,
            final(cx).ids.value_bound() == old(cx).ids.value_bound() + tys@.len(),
            final(cx).ids.bb_bound() == old(cx).ids.bb_bound(),
            final(cx).ids.func_bound() == old(cx).ids.func_bound(),
    {
        let ghost l0 = old(self)@.values;
        let ghost base = old(cx).ids.value_bound();
        let mut out: Vec<Value> = Vec::new();
        let mut i: usize = 0;
        proof {
            assert(with_args(l0, base, tys@.take(0), owner) =~= l0);
            assert(out@ =~= arg_handles(base, 0));
        }
        while i < tys.len()
            invariant
                i <= tys.len(),
                cx.wf(),
                self.wf(&*cx),
                owned(cx.types.id(), tys@),
                all_known(cx.types@, tys@),
                values_sound(l0, cx.types@, base),
                base + tys@.len() <= u64::MAX,
                out@ == arg_handles(base, i as nat),
                self@ == (GraphView {
                    values: with_args(l0, base, tys@.take(i as int), owner),
                    ..old(self)@
                }),
                cx.values@ == old(cx).values@,
                cx.types == old(cx).types,
                cx.func_tys == old(cx).func_tys,
                cx.ids.value_bound() == base + i,
                cx.ids.bb_bound() == old(cx).ids.bb_bound(),
                cx.ids.func_bound() == old(cx).ids.func_bound(),
            decreases tys.len() - i,
        {
            let kind = match owner {
                Some(bb) => ValueKind::BlockArgRef { bb, index: i },
                None => ValueKind::FuncArgRef { index: i },
            };
            let ty = tys[i];
            assert(cx.types.knows(tys@[i as int]));
            let ghost before = self@.values;
            let v = self.mint_arg(cx, ty, kind);
            out.push(v);
            proof {
                assert(out@ =~= arg_handles(base, (i + 1) as nat));
                let next = with_args(l0, base, tys@.take(i + 1), owner);
                assert(!l0.contains_key(v));
                assert forall|x: Value| next.contains_key(x) implies #[trigger] next[x]
                    == before.insert(v, fresh_record(ty, kind@))[x] by {
                    if !l0.contains_key(x) {
                        assert(tys@.take(i + 1)[x.0 - base] == tys@[x.0 - base]);
                        if x != v {
                            assert(tys@.take(i as int)[x.0 - base] == tys@[x.0 - base]);
                        }
                    }
                }
                assert(before.insert(v, fresh_record(ty, kind@)) =~= next);
            }
            i = i + 1;
        }
        assert(tys@.take(i as int) =~= tys@);
        out
    }

    /// Creates a basic block with parameters of the types `params`, whose
    /// type `ty` is the basic block type with these parameter types, and
    /// returns its handle. The references to the parameters are created with
    /// the block.
    ///
    /// Refused, with nothing changed, as [`block_creation_refusal`] says.
    pub fn new_bb_with_params(
        &mut self,
        cx: &mut Context,
        name: Option<String>,
        params: Vec<Type>,
        ty: Type,
    ) -> (r: Result<BasicBlock, IrError>)
        requires
            old(cx).wf(),
            old(self).wf(&*old(cx)),
        ensures
            final(cx).wf(),
            final(self).wf(&*final(cx)),
            graph_extends(old(self)@, final(self)@),
            edit_step(old(self)@, &*old(cx), final(self)@, &*final(cx)),
            match r {
                Ok(bb) => {
                    &&& block_creation_refusal(&*old(cx), name_view(name), params@, ty) is None
                    &&& block_created(
                        old(self)@,
                        &*old(cx),
                        final(self)@,
                        &*final(cx),
                        bb,
                        name_view(name),
                        params@,
                        ty,
                    )
                },
                Err(e) => {
                    &&& block_creation_refusal(&*old(cx), name_view(name), params@, ty) == Some(e)
                    &&& *final(self) == *old(self)
                    &&& *final(cx) == *old(cx)
                },
            },
    {
        if !check_opt_name(&name) {
            return Err(IrError::InvalidName);
        }
        match cx.types.kind(ty) {
            None => {
                return Err(IrError::UnknownType);
            },
            Some(TypeData::BasicBlock(ps)) => {
                if ps.len() != params.len() {
                    return Err(IrError::ArityMismatch);
                }
                if !same_types(ps, &params) {
                    return Err(IrError::TypeMismatch);
                }
            },
            Some(_) => {
                return Err(IrError::TypeMismatch);
            },
        }
        if !cx.ids.has_bb_id() || !cx.ids.has_value_ids(params.len()) {
            return Err(IrError::IdsExhausted);
        }
        let ghost l0 = old(self)@.values;
        let ghost b0 = old(self)@.bbs;
        let ghost base = old(cx).ids.value_bound();
        let ghost table = old(cx).types@;
        proof {
            crate::ir::types::lemma_entry_admissible(table, ty);
            assert(crate::ir::types::components(table[ty.0 as int]) == params@);
        }
        let bb = match cx.ids.next_bb_id() {
            Some(id) => BasicBlock(id),
            None => vstd::pervasive::unreached(),
        };
        assert(cx.wf());
        assert(self.wf(&*cx));
        let handles = self.mint_args(cx, &params, Some(bb));
        let data = match BasicBlockData::with_params(&cx.types, name, handles, ty) {
            Ok(d) => d,
            Err(_) => vstd::pervasive::unreached(),
        };
        let ghost mid = self@.values;
        self.bbs.insert(bb, data);
        proof {
            let l2 = self@.values;
            let g = cx.values@;
            let b2 = self@.bbs;
            assert(!b0.contains_key(bb));
            assert forall|w: Value, i: int|
                #![trigger bb_uses(l2[w].kind)[i]]
                l2.contains_key(w) && 0 <= i < bb_uses(l2[w].kind).len() implies b2.contains_key(
                bb_uses(l2[w].kind)[i],
            ) && b2[bb_uses(l2[w].kind)[i]].used_by.contains(w) by {
                assert(b0.contains_key(bb_uses(l2[w].kind)[i]));
            }
            assert forall|x: BasicBlock, w: Value|
                #![trigger b2[x].used_by.contains(w)]
                b2.contains_key(x) && b2[x].used_by.contains(w) implies l2.contains_key(w) && bb_uses(
                l2[w].kind,
            ).contains(x) by {
                if x != bb {
                    assert(b0[x].used_by.contains(w));
                }
            }
            assert forall|x: BasicBlock| #[trigger] b2.contains_key(x) implies {
                &&& x.0 < cx.ids.bb_bound()
                &&& valid_opt_name(b2[x].name)
                &&& params_sound(b2[x], x, l2, table)
            } by {
                if x == bb {
                    let ps = b2[bb].params;
                    assert forall|i: int| 0 <= i < ps.len() implies {
                        &&& l2.contains_key(#[trigger] ps[i])
                        &&& l2[ps[i]].kind == (KindView::BlockArgRef { bb, index: i as usize })
                        &&& l2[ps[i]].ty == params@[i]
                    } by {
                        assert(ps[i] == Value((base + i) as u64));
                        assert(!l0.contains_key(ps[i]));
                    }
                } else {
                    assert(b0.contains_key(x));
                }
            }
        }
        Ok(bb)
    }

    /// Creates a basic block without parameters and returns its handle. The
    /// type of such blocks is interned first.
    ///
    /// Refused with `InvalidName` when the name is not well formed, or else
    /// with `IdsExhausted` when the counter of blocks is at its end or the
    /// type of such blocks cannot enter the interner. On refusal nothing has
    /// changed.
    pub fn new_bb(&mut self, cx: &mut Context, name: Option<String>) -> (r: Result<BasicBlock, IrError>)
        requires
            old(cx).wf(),
            old(self).wf(&*old(cx)),
        ensures
            final(cx).wf(),
            final(self).wf(&*final(cx)),
            graph_extends(old(self)@, final(self)@),
            edit_step(old(self)@, &*old(cx), final(self)@, &*final(cx)),
            match r {
                Ok(bb) => {
                    &&& valid_opt_name(name_view(name))
                    &&& old(cx).ids.bb_bound() < u64::MAX
                    &&& crate::ir::types::intern_result(
                        old(cx).types.id(),
                        old(cx).types@,
                        TypeShape::BasicBlock(Seq::empty()),
                    ) is Ok
                    &&& final(cx).types@ == crate::ir::types::intern_table(
                        old(cx).types.id(),
                        old(cx).types@,
                        TypeShape::BasicBlock(Seq::empty()),
                    )
                    &&& bb.0 == old(cx).ids.bb_bound()
                    &&& final(self)@.bbs == old(self)@.bbs.insert(
                        bb,
                        BasicBlockDataView {
                            ty: crate::ir::types::intern_result(
                                old(cx).types.id(),
                                old(cx).types@,
                                TypeShape::BasicBlock(Seq::empty()),
                            )->Ok_0,
                            name: name_view(name),
                            params: Seq::<Value>::empty(),
                            used_by: Set::<Value>::empty(),
                        },
                    )
                    &&& final(self)@.values == old(self)@.values
                    &&& final(self)@.ret_ty == old(self)@.ret_ty
                    &&& final(cx).values@ == old(cx).values@
                    &&& final(cx).func_tys@ == old(cx).func_tys@
                    &&& final(cx).ids.value_bound() == old(cx).ids.value_bound()
                    &&& final(cx).ids.bb_bound() == old(cx).ids.bb_bound() + 1
                    &&& final(cx).ids.func_bound() == old(cx).ids.func_bound()
                },
                Err(e) => {
                    &&& *final(self) == *old(self)
                    &&& *final(cx) == *old(cx)
                    &&& if !valid_opt_name(name_view(name)) {
                        e == IrError::InvalidName
                    } else {
                        e == IrError::IdsExhausted && (old(cx).ids.bb_bound() >= u64::MAX
                            || crate::ir::types::intern_result(
                            old(cx).types.id(),
                            old(cx).types@,
                            TypeShape::BasicBlock(Seq::empty()),
                        ) is Err)
                    }
                },
            },
    {
        if !check_opt_name(&name) {
            return Err(IrError::InvalidName);
        }
        if !cx.ids.has_bb_id() {
            return Err(IrError::IdsExhausted);
        }
        proof {
            let d = TypeShape::BasicBlock(Seq::empty());
            assert(crate::ir::types::components(d) =~= Seq::empty());
            assert(crate::ir::types::unit_free_components(d) =~= Seq::empty());
        }
        let ty = match cx.types.get_basic_block(Vec::new()) {
            Ok(t) => t,
            Err(e) => {
                return Err(IrError::IdsExhausted);
            },
        };
        proof {
            lemma_types_grow(self@, &*old(cx), &*cx);
        }
        let ghost mid = *cx;
        let params: Vec<Type> = Vec::new();
        proof {
            assert(params@ =~= Seq::<Type>::empty());
            mid.ids.lemma_bounds();
            assert(block_creation_refusal(&mid, name_view(name), params@, ty) is None);
        }
        let r = self.new_bb_with_params(cx, name, params, ty);
        proof {
            let base = mid.ids.value_bound();
            match r {
                Ok(bb) => {
                    assert(with_args(old(self)@.values, base, Seq::<Type>::empty(), Some(bb))
                        =~= old(self)@.values);
                },
                Err(_) => {},
            }
            assert(arg_handles(base, 0) =~= Seq::<Value>::empty());
            lemma_edit_steps_compose(old(self)@, &*old(cx), old(self)@, &mid, self@, &*cx);
        }
        r
    }

    /// Removing a basic block with the references to its parameters keeps a
    /// well-formed graph well formed, and a layout that does not hold the
    /// block within the graph.
    proof fn lemma_block_removed(
        pre: GraphView,
        cx: &Context,
        post: GraphView,
        lv: LayoutView,
        bb: BasicBlock,
    )
        requires
            cx.wf(),
            graph_consistent(pre.values, cx.values@, pre.bbs),
            values_sound(pre.values, cx.types@, cx.ids.value_bound()),
            blocks_sound(pre.bbs, pre.values, cx.types@, cx.ids.bb_bound()),
            layout_in_graph(lv, pre.values, pre.bbs),
            block_removal_refusal(pre.values, pre.bbs, lv, bb) is None,
            post.values == without_values(pre.values, pre.bbs[bb].params),
            post.bbs == pre.bbs.remove(bb),
        ensures
            graph_consistent(post.values, cx.values@, post.bbs),
            values_sound(post.values, cx.types@, cx.ids.value_bound()),
            blocks_sound(post.bbs, post.values, cx.types@, cx.ids.bb_bound()),
            layout_in_graph(lv, post.values, post.bbs),
    {
        let l0 = pre.values;
        let g = cx.values@;
        let b0 = pre.bbs;
        let l2 = post.values;
        let b2 = post.bbs;
        let table = cx.types@;
        let gone = b0[bb].params;
        assert(params_sound(b0[bb], bb, l0, table));
        assert forall|p: Value| gone.contains(p) implies l0.contains_key(p) && l0[p].kind
            is BlockArgRef && l0[p].kind->BlockArgRef_bb == bb && l0[p].used_by == Set::<
            Value,
        >::empty() by {
            let i = choose|i: int| 0 <= i < gone.len() && gone[i] == p;
            assert(l0.contains_key(gone[i]));
            assert(!some_param_used(l0, b0[bb]));
        }
        assert forall|w: Value, i: int|
            #![trigger value_uses(l2[w].kind)[i]]
            l2.contains_key(w) && 0 <= i < value_uses(l2[w].kind).len() implies in_scope(
            l2,
            g,
            value_uses(l2[w].kind)[i],
        ) && crate::ir::usedef::record(l2, g, value_uses(l2[w].kind)[i]).used_by.contains(w) by {
            let u = value_uses(l0[w].kind)[i];
            assert(in_scope(l0, g, u));
            assert(crate::ir::usedef::record(l0, g, u).used_by.contains(w));
            if gone.contains(u) {
                assert(l0[u].used_by.contains(w));
            }
        }
        assert forall|u: Value, w: Value|
            #![trigger l2[u].used_by.contains(w)]
            l2.contains_key(u) && l2[u].used_by.contains(w) implies l2.contains_key(w)
            && value_uses(l2[w].kind).contains(u) by {
            assert(l0[u].used_by.contains(w));
            assert(value_uses(l0[w].kind).contains(u));
            if gone.contains(w) {
                assert(value_uses(l0[w].kind).len() == 0);
            }
        }
        assert forall|u: Value, w: Value|
            #![trigger g[u].used_by.contains(w)]
            g.contains_key(u) && g[u].used_by.contains(w) && l2.contains_key(w) implies value_uses(
            l2[w].kind,
        ).contains(u) by {}
        assert forall|w: Value, i: int|
            #![trigger bb_uses(l2[w].kind)[i]]
            l2.contains_key(w) && 0 <= i < bb_uses(l2[w].kind).len() implies b2.contains_key(
            bb_uses(l2[w].kind)[i],
        ) && b2[bb_uses(l2[w].kind)[i]].used_by.contains(w) by {
            let x = bb_uses(l0[w].kind)[i];
            assert(b0.contains_key(x));
            if x == bb {
                assert(b0[bb].used_by.contains(w));
            }
        }
        assert forall|x: BasicBlock, w: Value|
            #![trigger b2[x].used_by.contains(w)]
            b2.contains_key(x) && b2[x].used_by.contains(w) implies l2.contains_key(w) && bb_uses(
            l2[w].kind,
        ).contains(x) by {
            assert(b0[x].used_by.contains(w));
            assert(bb_uses(l0[w].kind).contains(x));
            if gone.contains(w) {
                assert(bb_uses(l0[w].kind).len() == 0);
            }
        }
        assert(scopes_disjoint(l2, g)) by {
            assert forall|x: Value| #[trigger] l2.contains_key(x) implies !g.contains_key(x) by {
                assert(l0.contains_key(x));
            }
        }
        assert forall|x: Value| #[trigger] l2.contains_key(x) implies {
            &&& x.0 < cx.ids.value_bound()
            &&& l2[x].ty.0 < table.len()
            &&& valid_opt_name(l2[x].name)
            &&& forall|w: Value| l2[x].used_by.contains(w) ==> w.0 < cx.ids.value_bound()
        } by {
            assert(l0.contains_key(x));
        }
        assert forall|x: BasicBlock| #[trigger] b2.contains_key(x) implies {
            &&& x.0 < cx.ids.bb_bound()
            &&& valid_opt_name(b2[x].name)
            &&& params_sound(b2[x], x, l2, table)
        } by {
            assert(b0.contains_key(x));
            assert(params_sound(b0[x], x, l0, table));
            let ps = b0[x].params;
            assert forall|i: int| 0 <= i < ps.len() implies l2.contains_key(#[trigger] ps[i]) by {
                assert(l0.contains_key(ps[i]));
                if gone.contains(ps[i]) {
                    assert(l0[ps[i]].kind->BlockArgRef_bb == bb);
                }
            }
        }
        assert forall|i: int| 0 <= i < lv.len() implies b2.contains_key(#[trigger] lv[i].0) by {
            assert(b0.contains_key(lv[i].0));
            if lv[i].0 == bb {
                assert(crate::ir::layout::bb_at(lv, i, bb));
            }
        }
        assert forall|i: int, j: int| 0 <= i < lv.len() && 0 <= j < lv[i].1.len() implies l2.contains_key(
            #[trigger] lv[i].1[j],
        ) && crate::ir::entities::is_inst_kind(l2[lv[i].1[j]].kind) by {
            assert(l0.contains_key(lv[i].1[j]));
        }
    }

    /// Whether some parameter of the block record `d` has users.
    fn any_param_used(&self, d: &BasicBlockData) -> (r: bool)
        requires
            forall|k: int|
                0 <= k < d@.params.len() ==> self@.values.contains_key(#[trigger] d@.params[k]),
        ensures
            r == some_param_used(self@.values, d@),
    {
        let ps = d.params();
        let mut i: usize = 0;
        while i < ps.len()
            invariant
                i <= ps.len(),
                ps@ == d@.params,
                forall|k: int| 0 <= k < ps@.len() ==> self@.values.contains_key(#[trigger] ps@[k]),
                forall|k: int|
                    0 <= k < i ==> self@.values[#[trigger] ps@[k]].used_by == Set::<Value>::empty(),
            decreases ps.len() - i,
        {
            match self.values.get(ps[i]) {
                Some(p) => {
                    if p.has_users() {
                        return true;
                    }
                },
                None => {},
            }
            i = i + 1;
        }
        false
    }

    /// Removes the basic block `bb` and the references to its parameters
    /// from the graph, and returns the record of the block.
    ///
    /// Refused, with nothing changed, as [`block_removal_refusal`] says for
    /// the layout of the function of the graph.
    pub(crate) fn remove_bb(&mut self, cx: &Context, layout: &Layout, bb: BasicBlock) -> (r: Result<BasicBlockData, IrError>)
        requires
            cx.wf(),
            old(self).wf(cx),
            layout_in_graph(layout@, old(self)@.values, old(self)@.bbs),
        ensures
            final(self).wf(cx),
            layout_in_graph(layout@, final(self)@.values, final(self)@.bbs),
            edit_step(old(self)@, cx, final(self)@, cx),
            match r {
                Ok(d) => {
                    &&& block_removal_refusal(old(self)@.values, old(self)@.bbs, layout@, bb)
                        is None
                    &&& d@ == old(self)@.bbs[bb]
                    &&& final(self)@ == (GraphView {
                        values: without_values(old(self)@.values, d@.params),
                        bbs: old(self)@.bbs.remove(bb),
                        ..old(self)@
                    })
                },
                Err(e) => {
                    &&& block_removal_refusal(old(self)@.values, old(self)@.bbs, layout@, bb)
                        == Some(e)
                    &&& *final(self) == *old(self)
                },
            },
    {
        let ghost l0 = old(self)@.values;
        let ghost b0 = old(self)@.bbs;
        match self.bbs.get(bb) {
            None => {
                return Err(IrError::UnknownBlock);
            },
            Some(d) => {
                if d.has_users() {
                    return Err(IrError::InUse);
                }
                if layout.has_bb(bb) {
                    return Err(IrError::InLayout);
                }
                assert(params_sound(b0[bb], bb, l0, cx.types@));
                if self.any_param_used(d) {
                    return Err(IrError::InUse);
                }
            },
        }
        let data = match self.bbs.remove(bb) {
            Some(d) => d,
            None => vstd::pervasive::unreached(),
        };
        let ghost gone = data@.params;
        let mut i: usize = 0;
        assert(without_values(l0, gone.take(0)) =~= l0);
        while i < data.params().len()
            invariant
                i <= gone.len(),
                gone == data@.params,
                self@ == (GraphView {
                    values: without_values(l0, gone.take(i as int)),
                    bbs: b0.remove(bb),
                    ..old(self)@
                }),
            decreases gone.len() - i,
        {
            let p = data.params()[i];
            self.values.remove(p);
            proof {
                let before = without_values(l0, gone.take(i as int));
                let after = without_values(l0, gone.take(i + 1));
                assert(gone.take(i + 1) =~= gone.take(i as int).push(p));
                assert forall|k: Value| gone.take(i + 1).contains(k) <==> (gone.take(
                    i as int,
                ).contains(k) || k == p) by {
                    if gone.take(i as int).contains(k) {
                        let j = choose|j: int| 0 <= j < i && gone.take(i as int)[j] == k;
                        assert(gone.take(i + 1)[j] == k);
                    }
                    if k == p {
                        assert(gone.take(i + 1)[i as int] == k);
                    }
                }
                assert(before.remove(p) =~= after);
            }
            i = i + 1;
        }
        proof {
            assert(gone.take(i as int) =~= gone);
            Self::lemma_block_removed(old(self)@, cx, self@, layout@, bb);
        }
        Ok(data)
    }

    /// Replacing the uses of a value keeps a well-formed graph and a
    /// well-formed shared state well formed, and keeps every value the
    /// instruction or not that it was.
    proof fn lemma_replaced(
        pre: GraphView,
        pre_cx: &Context,
        post: GraphView,
        post_cx: &Context,
        a: Value,
        b: Value,
    )
        requires
            pre_cx.wf(),
            graph_consistent(pre.values, pre_cx.values@, pre.bbs),
            values_sound(pre.values, pre_cx.types@, pre_cx.ids.value_bound()),
            blocks_sound(pre.bbs, pre.values, pre_cx.types@, pre_cx.ids.bb_bound()),
            replacement_refusal(pre.values, pre_cx.values@, a, b) is None,
            a != b,
            post.values == rewired(pre.values, a, b, pre.values[a].used_by),
            post_cx.values@ == rewired(pre_cx.values@, a, b, pre.values[a].used_by),
            post.bbs == pre.bbs,
            post_cx.types == pre_cx.types,
            post_cx.func_tys == pre_cx.func_tys,
            post_cx.ids == pre_cx.ids,
        ensures
            post_cx.wf(),
            graph_consistent(post.values, post_cx.values@, post.bbs),
            values_sound(post.values, post_cx.types@, post_cx.ids.value_bound()),
            blocks_sound(post.bbs, post.values, post_cx.types@, post_cx.ids.bb_bound()),
            forall|v: Value| #[trigger]
                pre.values.contains_key(v) ==> {
                    &&& post.values.contains_key(v)
                    &&& post.values[v].ty == pre.values[v].ty
                    &&& is_inst_kind(post.values[v].kind) == is_inst_kind(pre.values[v].kind)
                    &&& value_uses(pre.values[v].kind).len() == 0 ==> post.values[v].kind
                        == pre.values[v].kind
                },
            edit_step(pre, pre_cx, post, post_cx),
    {
        let l0 = pre.values;
        let g0 = pre_cx.values@;
        let bs = pre.bbs;
        let l2 = post.values;
        let g2 = post_cx.values@;
        let users = l0[a].used_by;
        let table = pre_cx.types@;
        lemma_rewire_consistent(l0, g0, bs, a, b);
        assert forall|w: Value| users.contains(w) implies l0.contains_key(w) && !g0.contains_key(
            w,
        ) && value_uses(l0[w].kind).contains(a) && w.0 < pre_cx.ids.value_bound() by {
            assert(l0[a].used_by.contains(w));
        }
        assert(g2.dom() =~= g0.dom());
        assert forall|u: Value| #[trigger] g0.contains_key(u) implies g2[u].kind == g0[u].kind
            && forall|w: Value|
            g0.contains_key(w) ==> (g2[u].used_by.contains(w) <==> g0[u].used_by.contains(w)) by {
            assert(u != a);
        }
        lemma_globals_stay_consistent(g0, g2);
        assert forall|x: Value| #[trigger] g2.contains_key(x) implies {
            &&& x.0 < post_cx.ids.value_bound()
            &&& g2[x].ty.0 < table.len()
            &&& valid_opt_name(g2[x].name)
            &&& forall|w: Value| g2[x].used_by.contains(w) ==> w.0 < post_cx.ids.value_bound()
        } by {
            assert(g0.contains_key(x));
        }
        assert forall|x: Value| #[trigger] l2.contains_key(x) implies {
            &&& x.0 < post_cx.ids.value_bound()
            &&& l2[x].ty.0 < table.len()
            &&& valid_opt_name(l2[x].name)
            &&& forall|w: Value| l2[x].used_by.contains(w) ==> w.0 < post_cx.ids.value_bound()
        } by {
            assert(l0.contains_key(x));
        }
        assert forall|v: Value| #[trigger] l0.contains_key(v) implies l2.contains_key(v)
            && crate::ir::entities::is_inst_kind(l2[v].kind) == crate::ir::entities::is_inst_kind(
            l0[v].kind,
        ) && (value_uses(l0[v].kind).len() == 0 ==> l2[v].kind == l0[v].kind) by {
            crate::ir::entities::lemma_subst_kind(l0[v].kind, a, b);
        }
        assert forall|bb: BasicBlock| #[trigger] bs.contains_key(bb) implies params_sound(
            bs[bb],
            bb,
            l2,
            table,
        ) by {
            assert(params_sound(bs[bb], bb, l0, table));
            let ps = bs[bb].params;
            assert forall|i: int| 0 <= i < ps.len() implies {
                &&& l2.contains_key(#[trigger] ps[i])
                &&& l2[ps[i]].kind == l0[ps[i]].kind
                &&& l2[ps[i]].ty == l0[ps[i]].ty
            } by {
                assert(l0.contains_key(ps[i]));
                assert(value_uses(l0[ps[i]].kind).len() == 0);
            }
        }
    }

    /// Replaces every use of the value `old_v` of the graph by a use of
    /// `new_v`: every user of `old_v` names `new_v` in each operand place
    /// where it named `old_v`, and moves from the users of `old_v` to the
    /// users of `new_v`. The two values have one type. The users keep their
    /// handles, and no layout is touched.
    ///
    /// Replacing a value by itself changes nothing. Refused, with nothing
    /// changed, as [`replacement_refusal`] says.
    pub fn replace_value_with(&mut self, cx: &mut Context, old_v: Value, new_v: Value) -> (r: Result<(), IrError>)
        requires
            old(cx).wf(),
            old(self).wf(&*old(cx)),
        ensures
            final(cx).wf(),
            final(self).wf(&*final(cx)),
            graph_extends(old(self)@, final(self)@),
            edit_step(old(self)@, &*old(cx), final(self)@, &*final(cx)),
            final(self)@.bbs == old(self)@.bbs,
            final(self)@.ret_ty == old(self)@.ret_ty,
            final(cx).ids == old(cx).ids,
            final(cx).types == old(cx).types,
            final(cx).func_tys == old(cx).func_tys,
            match r {
                Ok(_) => {
                    &&& replacement_refusal(old(self)@.values, old(cx).values@, old_v, new_v)
                        is None
                    &&& if old_v == new_v {
                        *final(self) == *old(self) && *final(cx) == *old(cx)
                    } else {
                        &&& final(self)@.values == rewired(
                            old(self)@.values,
                            old_v,
                            new_v,
                            old(self)@.values[old_v].used_by,
                        )
                        &&& final(cx).values@ == rewired(
                            old(cx).values@,
                            old_v,
                            new_v,
                            old(self)@.values[old_v].used_by,
                        )
                    }
                },
                Err(e) => {
                    &&& replacement_refusal(old(self)@.values, old(cx).values@, old_v, new_v)
                        == Some(e)
                    &&& *final(self) == *old(self)
                    &&& *final(cx) == *old(cx)
                },
            },
    {
        let ghost l0 = old(self)@.values;
        let ghost g0 = old(cx).values@;
        let users = match self.values.get(old_v) {
            None => {
                return Err(IrError::UnknownValue);
            },
            Some(d) => {
                let new_ty = match self.values.get(new_v) {
                    Some(n) => *n.ty(),
                    None => match cx.values.get(new_v) {
                        Some(n) => *n.ty(),
                        None => {
                            return Err(IrError::UnknownValue);
                        },
                    },
                };
                if *d.ty() != new_ty {
                    return Err(IrError::TypeMismatch);
                }
                if old_v == new_v {
                    return Ok(());
                }
                d.used_by()
            },
        };
        let ghost us = l0[old_v].used_by;
        assert(users@.to_set() == us);
        proof {
            lemma_rewired_kinds_none(l0, old_v, new_v);
            assert(users@.take(0) =~= Seq::<Value>::empty());
        }
        let mut i: usize = 0;
        while i < users.len()
            invariant
                i <= users.len(),
                users@.no_duplicates(),
                self@ == (GraphView {
                    values: rewired_kinds(l0, old_v, new_v, users@.take(i as int)),
                    ..old(self)@
                }),
                *cx == *old(cx),
            decreases users.len() - i,
        {
            proof {
                lemma_rewired_kinds_step(l0, old_v, new_v, users@, i as int);
            }
            self.values.replace_operand(users[i], old_v, new_v);
            i = i + 1;
        }
        assert(users@.take(i as int) =~= users@);
        let ghost l1 = self@.values;
        self.values.clear_users(old_v);
        if !self.values.add_users(new_v, &users) {
            cx.values.add_users(new_v, &users);
        }
        proof {
            let l2 = self@.values;
            let g2 = cx.values@;
            assert forall|w: Value| us.contains(w) implies l0.contains_key(w) && !g0.contains_key(
                w,
            ) by {
                assert(l0[old_v].used_by.contains(w));
            }
            assert forall|w: Value| users@.contains(w) <==> us.contains(w) by {}
            assert(l2 =~= rewired(l0, old_v, new_v, us));
            assert(g2 =~= rewired(g0, old_v, new_v, us)) by {
                assert forall|k: Value| g0.contains_key(k) implies #[trigger] g2[k] == rewired(
                    g0,
                    old_v,
                    new_v,
                    us,
                )[k] by {
                    assert(k != old_v);
                    assert(!us.contains(k));
                }
            }
            Self::lemma_replaced(old(self)@, &*old(cx), self@, &*cx, old_v, new_v);
        }
        Ok(())
    }

    /// Builds a value of the given kind: decides its type by the kind and the
    /// types of its operands, interning the type where it has to be made,
    /// and creates the value.
    ///
    /// What is done and returned is what [`build_outcome`] says. The kinds
    /// whose type the caller chooses cannot be built this way and are refused.
    pub fn build(&mut self, cx: &mut Context, kind: ValueKind) -> (r: Result<Value, IrError>)
        requires
            old(cx).wf(),
            old(self).wf(&*old(cx)),
        ensures
            final(cx).wf(),
            final(self).wf(&*final(cx)),
            graph_extends(old(self)@, final(self)@),
            edit_step(old(self)@, &*old(cx), final(self)@, &*final(cx)),
            build_outcome(old(self)@, &*old(cx), final(self)@, &*final(cx), kind@, r),
    {
        let ghost env = graph_env(old(self)@, &*old(cx));
        let ghost k = kind@;
        let to_intern = {
            let scope = Scope {
                types: &cx.types,
                locals: &self.values,
                globals: &cx.values,
                blocks: &self.bbs,
                func_tys: &cx.func_tys,
                ret_ty: Some(self.ret_ty),
            };
            assert(scope@ == env);
            scope.result_shape(&kind)
        };
        if let Some(d) = to_intern {
            match cx.types.get_type(d) {
                Err(IrError::IdsExhausted) => {
                    return Err(IrError::IdsExhausted);
                },
                _ => {},
            }
        }
        proof {
            lemma_types_grow(self@, &*old(cx), &*cx);
        }
        let ghost after = with_types(env, cx.types@);
        let ty = {
            let scope = Scope {
                types: &cx.types,
                locals: &self.values,
                globals: &cx.values,
                blocks: &self.bbs,
                func_tys: &cx.func_tys,
                ret_ty: Some(self.ret_ty),
            };
            assert(scope@ == after);
            let ty = scope.result_type(&kind);
            if let Some(e) = scope.check_typed(&kind, ty) {
                return Err(e);
            }
            ty
        };
        let ghost mid = *cx;
        match ty {
            Some(t) => {
                let r = self.new_value(cx, ValueData::new(t, kind));
                assert(graph_env(old(self)@, &mid) == after);
                r
            },
            None => vstd::pervasive::unreached(),
        }
    }

    /// Creates a zero initializer of the type `ty`.
    ///
    /// Refused, with nothing changed, as [`creation_refusal`] says.
    pub fn zero_init(&mut self, cx: &mut Context, ty: Type) -> (r: Result<Value, IrError>)
        requires
            old(cx).wf(),
            old(self).wf(&*old(cx)),
        ensures
            final(cx).wf(),
            final(self).wf(&*final(cx)),
            graph_extends(old(self)@, final(self)@),
            edit_step(old(self)@, &*old(cx), final(self)@, &*final(cx)),
            final(cx).types == old(cx).types,
            match r {
                Ok(v) => old(cx).types.knows(ty) && old(cx).ids.value_bound() < u64::MAX
                    && created(
                    old(self)@,
                    &*old(cx),
                    final(self)@,
                    &*final(cx),
                    v,
                    fresh_record(ty, KindView::ZeroInit),
                ),
                Err(e) => {
                    &&& *final(self) == *old(self)
                    &&& *final(cx) == *old(cx)
                    &&& if !old(cx).types.knows(ty) {
                        e == IrError::UnknownType
                    } else {
                        e == IrError::IdsExhausted && old(cx).ids.value_bound() >= u64::MAX
                    }
                },
            },
    {
        proof {
            assert(value_uses(KindView::ZeroInit) =~= Seq::<Value>::empty());
            assert(bb_uses(KindView::ZeroInit) =~= Seq::<BasicBlock>::empty());
        }
        self.new_value(cx, ValueData::new(ty, ValueKind::ZeroInit))
    }

    /// Creates an undefined value of the type `ty`.
    ///
    /// Refused, with nothing changed, as [`creation_refusal`] says.
    pub fn undef(&mut self, cx: &mut Context, ty: Type) -> (r: Result<Value, IrError>)
        requires
            old(cx).wf(),
            old(self).wf(&*old(cx)),
        ensures
            final(cx).wf(),
            final(self).wf(&*final(cx)),
            graph_extends(old(self)@, final(self)@),
            edit_step(old(self)@, &*old(cx), final(self)@, &*final(cx)),
            final(cx).types == old(cx).types,
            match r {
                Ok(v) => old(cx).types.knows(ty) && old(cx).ids.value_bound() < u64::MAX
                    && created(
                    old(self)@,
                    &*old(cx),
                    final(self)@,
                    &*final(cx),
                    v,
                    fresh_record(ty, KindView::Undef),
                ),
                Err(e) => {
                    &&& *final(self) == *old(self)
                    &&& *final(cx) == *old(cx)
                    &&& if !old(cx).types.knows(ty) {
                        e == IrError::UnknownType
                    } else {
                        e == IrError::IdsExhausted && old(cx).ids.value_bound() >= u64::MAX
                    }
                },
            },
    {
        proof {
            assert(value_uses(KindView::Undef) =~= Seq::<Value>::empty());
            assert(bb_uses(KindView::Undef) =~= Seq::<BasicBlock>::empty());
        }
        self.new_value(cx, ValueData::new(ty, ValueKind::Undef))
    }

    /// Creates a local allocation of memory for a value of the type
    /// `elem_ty`. The allocation has the type of pointers to `elem_ty`.
    ///
    /// What is done and returned is what [`typed_outcome`] says for the
    /// shape of that pointer type.
    pub fn local_alloc(&mut self, cx: &mut Context, elem_ty: Type) -> (r: Result<Value, IrError>)
        requires
            old(cx).wf(),
            old(self).wf(&*old(cx)),
        ensures
            final(cx).wf(),
            final(self).wf(&*final(cx)),
            graph_extends(old(self)@, final(self)@),
            edit_step(old(self)@, &*old(cx), final(self)@, &*final(cx)),
            typed_outcome(
                old(self)@,
                &*old(cx),
                final(self)@,
                &*final(cx),
                KindView::Alloc,
                TypeShape::Pointer(elem_ty),
                r,
            ),
    {
        let t = match cx.types.get_pointer(elem_ty) {
            Ok(t) => t,
            Err(e) => {
                return Err(e);
            },
        };
        proof {
            lemma_types_grow(self@, &*old(cx), &*cx);
        }
        let ghost mid = *cx;
        let r = self.new_value(cx, ValueData::new(t, ValueKind::Alloc));
        assert(graph_env(old(self)@, &mid) == with_types(
            graph_env(old(self)@, &*old(cx)),
            mid.types@,
        ));
        r
    }

    /// Creates an integer constant. It has the 32-bit integer type.
    pub fn integer(&mut self, cx: &mut Context, value: i32) -> (r: Result<Value, IrError>)
        requires
            old(cx).wf(),
            old(self).wf(&*old(cx)),
        ensures
            final(cx).wf(),
            final(self).wf(&*final(cx)),
            graph_extends(old(self)@, final(self)@),
            edit_step(old(self)@, &*old(cx), final(self)@, &*final(cx)),
            build_outcome(
                old(self)@,
                &*old(cx),
                final(self)@,
                &*final(cx),
                KindView::Integer { value },
                r,
            ),
    {
        self.build(cx, ValueKind::Integer { value })
    }

    /// Creates an aggregate constant of the given elements: at least one,
    /// all of them constants of one type. It has the type of arrays of that
    /// type with the number of elements as length.
    pub fn aggregate(&mut self, cx: &mut Context, elems: Vec<Value>) -> (r: Result<Value, IrError>)
        requires
            old(cx).wf(),
            old(self).wf(&*old(cx)),
        ensures
            final(cx).wf(),
            final(self).wf(&*final(cx)),
            graph_extends(old(self)@, final(self)@),
            edit_step(old(self)@, &*old(cx), final(self)@, &*final(cx)),
            build_outcome(
                old(self)@,
                &*old(cx),
                final(self)@,
                &*final(cx),
                KindView::Aggregate { elems: elems@ },
                r,
            ),
    {
        self.build(cx, ValueKind::Aggregate { elems })
    }

    /// Creates a global allocation of memory that is initialized with the
    /// constant `init`. It has the type of pointers to the type of `init`.
    pub fn global_alloc(&mut self, cx: &mut Context, init: Value) -> (r: Result<Value, IrError>)
        requires
            old(cx).wf(),
            old(self).wf(&*old(cx)),
        ensures
            final(cx).wf(),
            final(self).wf(&*final(cx)),
            graph_extends(old(self)@, final(self)@),
            edit_step(old(self)@, &*old(cx), final(self)@, &*final(cx)),
            build_outcome(
                old(self)@,
                &*old(cx),
                final(self)@,
                &*final(cx),
                KindView::GlobalAlloc { init },
                r,
            ),
    {
        self.build(cx, ValueKind::GlobalAlloc { init })
    }

    /// Creates a load from the pointer `src`. It has the type that `src`
    /// points to.
    pub fn load(&mut self, cx: &mut Context, src: Value) -> (r: Result<Value, IrError>)
        requires
            old(cx).wf(),
            old(self).wf(&*old(cx)),
        ensures
            final(cx).wf(),
            final(self).wf(&*final(cx)),
            graph_extends(old(self)@, final(self)@),
            edit_step(old(self)@, &*old(cx), final(self)@, &*final(cx)),
            build_outcome(
                old(self)@,
                &*old(cx),
                final(self)@,
                &*final(cx),
                KindView::Load { src },
                r,
            ),
    {
        self.build(cx, ValueKind::Load { src })
    }

    /// Creates a store of `value` to `dest`, a pointer to the type of
    /// `value`. It has the type `unit`.
    pub fn store(
        &mut self,
        cx: &mut Context,
        value: Value,
        dest: Value,
    ) -> (r: Result<Value, IrError>)
        requires
            old(cx).wf(),
            old(self).wf(&*old(cx)),
        ensures
            final(cx).wf(),
            final(self).wf(&*final(cx)),
            graph_extends(old(self)@, final(self)@),
            edit_step(old(self)@, &*old(cx), final(self)@, &*final(cx)),
            build_outcome(
                old(self)@,
                &*old(cx),
                final(self)@,
                &*final(cx),
                KindView::Store { value, dest },
                r,
            ),
    {
        self.build(cx, ValueKind::Store { value, dest })
    }

    /// Creates a pointer calculation from the pointer `src` and the 32-bit
    /// integer `index`. It has the type of `src`.
    pub fn get_ptr(
        &mut self,
        cx: &mut Context,
        src: Value,
        index: Value,
    ) -> (r: Result<Value, IrError>)
        requires
            old(cx).wf(),
            old(self).wf(&*old(cx)),
        ensures
            final(cx).wf(),
            final(self).wf(&*final(cx)),
            graph_extends(old(self)@, final(self)@),
            edit_step(old(self)@, &*old(cx), final(self)@, &*final(cx)),
            build_outcome(
                old(self)@,
                &*old(cx),
                final(self)@,
                &*final(cx),
                KindView::GetPtr { src, index },
                r,
            ),
    {
        self.build(cx, ValueKind::GetPtr { src, index })
    }

    /// Creates an element pointer calculation from `src`, a pointer to an
    /// array, and `index`. It has the type of pointers to the element type of
    /// the array.
    pub fn get_elem_ptr(
        &mut self,
        cx: &mut Context,
        src: Value,
        index: Value,
    ) -> (r: Result<Value, IrError>)
        requires
            old(cx).wf(),
            old(self).wf(&*old(cx)),
        ensures
            final(cx).wf(),
            final(self).wf(&*final(cx)),
            graph_extends(old(self)@, final(self)@),
            edit_step(old(self)@, &*old(cx), final(self)@, &*final(cx)),
            build_outcome(
                old(self)@,
                &*old(cx),
                final(self)@,
                &*final(cx),
                KindView::GetElemPtr { src, index },
                r,
            ),
    {
        self.build(cx, ValueKind::GetElemPtr { src, index })
    }

    /// Creates a binary operation on two 32-bit integers. It has the 32-bit
    /// integer type, for comparisons too, whose result is 0 or 1.
    pub fn binary(
        &mut self,
        cx: &mut Context,
        op: BinaryOp,
        lhs: Value,
        rhs: Value,
    ) -> (r: Result<Value, IrError>)
        requires
            old(cx).wf(),
            old(self).wf(&*old(cx)),
        ensures
            final(cx).wf(),
            final(self).wf(&*final(cx)),
            graph_extends(old(self)@, final(self)@),
            edit_step(old(self)@, &*old(cx), final(self)@, &*final(cx)),
            build_outcome(
                old(self)@,
                &*old(cx),
                final(self)@,
                &*final(cx),
                KindView::Binary { op, lhs, rhs },
                r,
            ),
    {
        self.build(cx, ValueKind::Binary { op, lhs, rhs })
    }

    /// Creates a conditional branch on the 32-bit integer `cond` to one of
    /// two basic blocks, each with arguments of the types of its parameters.
    /// It has the type `unit`.
    pub fn branch(
        &mut self,
        cx: &mut Context,
        cond: Value,
        true_bb: BasicBlock,
        true_args: Vec<Value>,
        false_bb: BasicBlock,
        false_args: Vec<Value>,
    ) -> (r: Result<Value, IrError>)
        requires
            old(cx).wf(),
            old(self).wf(&*old(cx)),
        ensures
            final(cx).wf(),
            final(self).wf(&*final(cx)),
            graph_extends(old(self)@, final(self)@),
            edit_step(old(self)@, &*old(cx), final(self)@, &*final(cx)),
            build_outcome(
                old(self)@,
                &*old(cx),
                final(self)@,
                &*final(cx),
                KindView::Branch {
                    cond,
                    true_bb,
                    true_args: true_args@,
                    false_bb,
                    false_args: false_args@,
                },
                r,
            ),
    {
        self.build(cx, ValueKind::Branch { cond, true_bb, true_args, false_bb, false_args })
    }

    /// Creates a jump to a basic block, with arguments of the types of its
    /// parameters. It has the type `unit`.
    pub fn jump(
        &mut self,
        cx: &mut Context,
        target: BasicBlock,
        args: Vec<Value>,
    ) -> (r: Result<Value, IrError>)
        requires
            old(cx).wf(),
            old(self).wf(&*old(cx)),
        ensures
            final(cx).wf(),
            final(self).wf(&*final(cx)),
            graph_extends(old(self)@, final(self)@),
            edit_step(old(self)@, &*old(cx), final(self)@, &*final(cx)),
            build_outcome(
                old(self)@,
                &*old(cx),
                final(self)@,
                &*final(cx),
                KindView::Jump { target, args: args@ },
                r,
            ),
    {
        self.build(cx, ValueKind::Jump { target, args })
    }

    /// Creates a call of the function `callee`, with arguments of the types
    /// of its parameters. It has the return type of the function.
    pub fn call(
        &mut self,
        cx: &mut Context,
        callee: Function,
        args: Vec<Value>,
    ) -> (r: Result<Value, IrError>)
        requires
            old(cx).wf(),
            old(self).wf(&*old(cx)),
        ensures
            final(cx).wf(),
            final(self).wf(&*final(cx)),
            graph_extends(old(self)@, final(self)@),
            edit_step(old(self)@, &*old(cx), final(self)@, &*final(cx)),
            build_outcome(
                old(self)@,
                &*old(cx),
                final(self)@,
                &*final(cx),
                KindView::Call { callee, args: args@ },
                r,
            ),
    {
        self.build(cx, ValueKind::Call { callee, args })
    }

    /// Creates a return from the function of the graph: of a value of its
    /// return type, or of nothing where that type is `unit`. It has the type
    /// `unit`.
    pub fn return_(&mut self, cx: &mut Context, value: Option<Value>) -> (r: Result<Value, IrError>)
        requires
            old(cx).wf(),
            old(self).wf(&*old(cx)),
        ensures
            final(cx).wf(),
            final(self).wf(&*final(cx)),
            graph_extends(old(self)@, final(self)@),
            edit_step(old(self)@, &*old(cx), final(self)@, &*final(cx)),
            build_outcome(
                old(self)@,
                &*old(cx),
                final(self)@,
                &*final(cx),
                KindView::Return { value },
                r,
            ),
    {
        self.build(cx, ValueKind::Return { value })
    }
}

} // verus!
