//! Programs: the owners of global values and functions.

use crate::ir::context::{context_step, creation_refusal, removal_refusal, Context};
use crate::ir::dfg::{edit_step, graph_wf, lemma_other_graph_stays_wf, GraphView};
use crate::ir::table::without_users_in;
use crate::ir::types::{Type, TypeShape};
use crate::ir::entities::{value_uses, Function, Value, ValueData, ValueDataView};
use crate::ir::error::IrError;
use crate::ir::function::{function_wf, lemma_function_stays_wf, FunctionData, FunctionView};
use crate::ir::idman::{FunctionId, InternerId};
use crate::ir::table::{ValueMap, Values};
use crate::ir::usedef::{
    in_scope, locals_after_insert, locals_after_remove, record, scopes_disjoint,
};
use std::collections::HashMap;
use vstd::prelude::*;

verus! {

broadcast use vstd::std_specs::hash::group_hash_axioms;

/// The functions of a map from function numbers to functions, by handle.
pub open spec fn funcs_view(m: Map<FunctionId, FunctionData>) -> Map<Function, FunctionView> {
    Map::new(|f: Function| m.contains_key(f.0), |f: Function| m[f.0]@)
}

/// The functions `fs` share no value with the graph `g`.
pub open spec fn shares_no_value(fs: Map<Function, FunctionView>, g: GraphView) -> bool {
    forall|f: Function, v: Value|
        fs.contains_key(f) && #[trigger] fs[f].dfg.values.contains_key(v) ==> !g.values.contains_key(
            v,
        )
}

/// The mathematical value of a [`Program`].
pub struct ProgramView {
    pub cx: Context,
    pub funcs: Map<Function, FunctionView>,
}

/// No two functions of `fs` share a value.
pub open spec fn values_unshared(fs: Map<Function, FunctionView>) -> bool {
    forall|f1: Function, f2: Function, v: Value|
        #![trigger fs[f1].dfg.values.contains_key(v), fs[f2].dfg.values.contains_key(v)]
        fs.contains_key(f1) && fs.contains_key(f2) && f1 != f2 && fs[f1].dfg.values.contains_key(v)
            ==> !fs[f2].dfg.values.contains_key(v)
}

/// `w` is a value of a function of `fs`.
pub open spec fn held_by_function(fs: Map<Function, FunctionView>, w: Value) -> bool {
    exists|f: Function| fs.contains_key(f) && #[trigger] fs[f].dfg.values.contains_key(w)
}

/// Every user that a global value lists exists: it is a global value, a
/// value of a function of the program, or one of `outside`, the values of a
/// function that is being made and has not entered the program yet.
pub open spec fn users_exist(p: ProgramView, outside: Set<Value>) -> bool {
    forall|u: Value, w: Value|
        #![trigger p.cx.values@[u].used_by.contains(w)]
        p.cx.values@.contains_key(u) && p.cx.values@[u].used_by.contains(w)
            ==> p.cx.values@.contains_key(w) || held_by_function(p.funcs, w) || outside.contains(
            w,
        )
}

/// A program is well formed beside the values `outside`: its shared state is
/// well formed, every function is well formed in the shared state, no two
/// functions share a value, the shared state records the type of exactly the
/// functions of the program, and every user of a global value exists.
pub open spec fn program_wf_beside(p: ProgramView, outside: Set<Value>) -> bool {
    &&& p.cx.wf()
    &&& p.cx.func_tys@.dom() == p.funcs.dom()
    &&& values_unshared(p.funcs)
    &&& users_exist(p, outside)
    &&& forall|f: Function| #[trigger]
        p.funcs.contains_key(f) ==> p.cx.func_tys@[f] == p.funcs[f].ty && function_wf(
            p.funcs[f],
            &p.cx,
        )
}

/// A program is well formed: it is well formed beside no value, so that
/// every user of a global value is a global value or a value of a function
/// of the program.
pub open spec fn program_wf(p: ProgramView) -> bool {
    program_wf_beside(p, Set::<Value>::empty())
}

/// Changing one function of a well-formed program through its graph and its
/// layout keeps the program well formed: where the function is well formed
/// after the change and has kept its type, every other function is well
/// formed too.
pub proof fn lemma_function_edited(pre: ProgramView, post: ProgramView, f: Function)
    requires
        program_wf(pre),
        pre.funcs.contains_key(f),
        post.funcs.contains_key(f),
        post.funcs == pre.funcs.insert(f, post.funcs[f]),
        post.cx.wf(),
        function_wf(post.funcs[f], &post.cx),
        post.funcs[f].ty == pre.funcs[f].ty,
        edit_step(pre.funcs[f].dfg, &pre.cx, post.funcs[f].dfg, &post.cx),
    ensures
        program_wf(post),
{
    let mine = pre.funcs[f].dfg.values.dom();
    assert(post.cx.func_tys@.dom() =~= post.funcs.dom());
    assert forall|x: Function| #[trigger] post.funcs.contains_key(x) implies post.cx.func_tys@[x]
        == post.funcs[x].ty && function_wf(post.funcs[x], &post.cx) by {
        assert(pre.funcs.contains_key(x));
        if x != f {
            let other = pre.funcs[x];
            assert forall|v: Value| other.dfg.values.contains_key(v) implies !mine.contains(v) by {
                if pre.funcs[f].dfg.values.contains_key(v) {
                    assert(pre.funcs[x].dfg.values.contains_key(v));
                }
            }
            lemma_other_graph_stays_wf(other.dfg, &pre.cx, &post.cx, mine);
            lemma_function_stays_wf(other, &pre.cx, other, &post.cx);
        }
    }
    assert forall|f1: Function, f2: Function, v: Value|
        #![trigger post.funcs[f1].dfg.values.contains_key(v), post.funcs[f2].dfg.values.contains_key(v)]
        post.funcs.contains_key(f1) && post.funcs.contains_key(f2) && f1 != f2
            && post.funcs[f1].dfg.values.contains_key(v) implies !post.funcs[f2].dfg.values.contains_key(
        v,
    ) by {
        assert(pre.funcs.contains_key(f1) && pre.funcs.contains_key(f2));
        if post.funcs[f2].dfg.values.contains_key(v) {
            if f1 == f {
                assert(function_wf(pre.funcs[f2], &pre.cx));
                assert(pre.funcs[f2].dfg.values.contains_key(v));
                assert(v.0 < pre.cx.ids.value_bound());
                assert(pre.funcs[f1].dfg.values.contains_key(v));
            } else if f2 == f {
                assert(function_wf(pre.funcs[f1], &pre.cx));
                assert(pre.funcs[f1].dfg.values.contains_key(v));
                assert(v.0 < pre.cx.ids.value_bound());
                assert(pre.funcs[f2].dfg.values.contains_key(v));
            } else {
                assert(pre.funcs[f1].dfg.values.contains_key(v));
                assert(pre.funcs[f2].dfg.values.contains_key(v));
            }
        }
    }
    assert forall|u: Value, w: Value|
        #![trigger post.cx.values@[u].used_by.contains(w)]
        post.cx.values@.contains_key(u) && post.cx.values@[u].used_by.contains(w)
            implies post.cx.values@.contains_key(w) || held_by_function(post.funcs, w) by {
        if post.funcs[f].dfg.values.contains_key(w) {
            assert(held_by_function(post.funcs, w));
        } else {
            assert(pre.cx.values@.dom().contains(u));
            assert(pre.cx.values@[u].used_by.contains(w));
            if !pre.cx.values@.contains_key(w) {
                let x = choose|x: Function|
                    pre.funcs.contains_key(x) && #[trigger] pre.funcs[x].dfg.values.contains_key(
                        w,
                    );
                assert(post.funcs.contains_key(x) && post.funcs[x].dfg.values.contains_key(w));
            } else {
                assert(post.cx.values@.dom().contains(w));
            }
        }
    }
}

/// Changing a function that has not entered the program keeps the program
/// well formed beside the values of that function: the function shares no
/// value with the functions of the program, and the program was well formed
/// beside its values before the change.
pub proof fn lemma_outside_edited(
    pre: ProgramView,
    post: ProgramView,
    g_pre: GraphView,
    g_post: GraphView,
)
    requires
        program_wf_beside(pre, g_pre.values.dom()),
        post.funcs == pre.funcs,
        post.cx.wf(),
        edit_step(g_pre, &pre.cx, g_post, &post.cx),
        shares_no_value(pre.funcs, g_pre),
    ensures
        program_wf_beside(post, g_post.values.dom()),
        shares_no_value(post.funcs, g_post),
{
    let mine = g_pre.values.dom();
    assert forall|x: Function| #[trigger] post.funcs.contains_key(x) implies post.cx.func_tys@[x]
        == post.funcs[x].ty && function_wf(post.funcs[x], &post.cx) by {
        let other = pre.funcs[x];
        assert forall|v: Value| other.dfg.values.contains_key(v) implies !mine.contains(v) by {
            assert(pre.funcs[x].dfg.values.contains_key(v));
        }
        lemma_other_graph_stays_wf(other.dfg, &pre.cx, &post.cx, mine);
        lemma_function_stays_wf(other, &pre.cx, other, &post.cx);
    }
    assert forall|f: Function, v: Value|
        post.funcs.contains_key(f) && #[trigger] post.funcs[f].dfg.values.contains_key(
            v,
        ) implies !g_post.values.contains_key(v) by {
        assert(function_wf(pre.funcs[f], &pre.cx));
        assert(v.0 < pre.cx.ids.value_bound());
        assert(!g_pre.values.contains_key(v));
    }
    assert forall|u: Value, w: Value|
        #![trigger post.cx.values@[u].used_by.contains(w)]
        post.cx.values@.contains_key(u) && post.cx.values@[u].used_by.contains(w)
            implies post.cx.values@.contains_key(w) || held_by_function(post.funcs, w)
        || g_post.values.dom().contains(w) by {
        if !g_post.values.contains_key(w) {
            assert(pre.cx.values@.dom().contains(u));
            assert(pre.cx.values@[u].used_by.contains(w));
            if pre.cx.values@.contains_key(w) {
                assert(post.cx.values@.dom().contains(w));
            }
        }
    }
}

/// A well-formed graph stays well formed when a global value is created.
pub proof fn lemma_global_created_keeps_graph(
    g: GraphView,
    pre: &Context,
    post: &Context,
    v: Value,
    d: ValueDataView,
)
    requires
        pre.wf(),
        graph_wf(g, pre),
        v.0 == pre.ids.value_bound(),
        d.used_by == Set::<Value>::empty(),
        post.values@ == locals_after_insert(pre.values@, v, d),
        post.ids.value_bound() == pre.ids.value_bound() + 1,
        post.ids.bb_bound() == pre.ids.bb_bound(),
        post.types == pre.types,
    ensures
        graph_wf(g, post),
{
    let l = g.values;
    let g0 = pre.values@;
    let g2 = post.values@;
    let b = g.bbs;
    assert(!l.contains_key(v));
    assert forall|u: Value| g0.contains_key(u) implies g2.contains_key(u) && forall|w: Value|
        g0[u].used_by.contains(w) ==> #[trigger] g2[u].used_by.contains(w) by {}
    assert forall|w: Value, i: int|
        #![trigger value_uses(l[w].kind)[i]]
        l.contains_key(w) && 0 <= i < value_uses(l[w].kind).len() implies in_scope(
        l,
        g2,
        value_uses(l[w].kind)[i],
    ) && record(l, g2, value_uses(l[w].kind)[i]).used_by.contains(w) by {
        let u = value_uses(l[w].kind)[i];
        assert(in_scope(l, g0, u));
        assert(record(l, g0, u).used_by.contains(w));
    }
    assert forall|u: Value, w: Value|
        #![trigger g2[u].used_by.contains(w)]
        g2.contains_key(u) && g2[u].used_by.contains(w) && l.contains_key(w) implies value_uses(
        l[w].kind,
    ).contains(u) by {
        if u != v {
            assert(g0.contains_key(u));
            assert(w != v);
            assert(g0[u].used_by.contains(w));
        }
    }
    assert(scopes_disjoint(l, g2)) by {
        assert forall|x: Value| #[trigger] l.contains_key(x) implies !g2.contains_key(x) by {}
    }
    assert forall|x: Value| #[trigger] l.contains_key(x) implies {
        &&& x.0 < post.ids.value_bound()
        &&& forall|w: Value| l[x].used_by.contains(w) ==> w.0 < post.ids.value_bound()
    } by {}
}

/// A well-formed graph stays well formed when a global value without users
/// is removed.
pub proof fn lemma_global_removed_keeps_graph(g: GraphView, pre: &Context, post: &Context, v: Value)
    requires
        pre.wf(),
        graph_wf(g, pre),
        removal_refusal(pre.values@, v) is None,
        post.values@ == locals_after_remove(pre.values@, v),
        post.ids == pre.ids,
        post.types == pre.types,
    ensures
        graph_wf(g, post),
{
    let l = g.values;
    let g0 = pre.values@;
    let g2 = post.values@;
    assert(!l.contains_key(v)) by {
        if l.contains_key(v) {
            assert(!g0.contains_key(v));
        }
    }
    assert forall|w: Value, i: int|
        #![trigger value_uses(l[w].kind)[i]]
        l.contains_key(w) && 0 <= i < value_uses(l[w].kind).len() implies in_scope(
        l,
        g2,
        value_uses(l[w].kind)[i],
    ) && record(l, g2, value_uses(l[w].kind)[i]).used_by.contains(w) by {
        let u = value_uses(l[w].kind)[i];
        assert(in_scope(l, g0, u));
        assert(record(l, g0, u).used_by.contains(w));
        if u == v {
            assert(g0[v].used_by.contains(w));
        }
    }
    assert forall|u: Value, w: Value|
        #![trigger g2[u].used_by.contains(w)]
        g2.contains_key(u) && g2[u].used_by.contains(w) && l.contains_key(w) implies value_uses(
        l[w].kind,
    ).contains(u) by {
        assert(g0.contains_key(u));
        assert(g0[u].used_by.contains(w));
    }
    assert(scopes_disjoint(l, g2)) by {
        assert forall|x: Value| #[trigger] l.contains_key(x) implies !g2.contains_key(x) by {
            assert(!g0.contains_key(x));
        }
    }
}

/// A program: the owner of the global values and of the functions, and of
/// the state that they share.
pub struct Program {
    cx: Context,
    funcs: HashMap<FunctionId, FunctionData>,
}

impl View for Program {
    type V = ProgramView;

    closed spec fn view(&self) -> ProgramView {
        ProgramView { cx: self.cx, funcs: funcs_view(self.funcs@) }
    }
}

impl Program {
    /// The program is well formed.
    pub open spec fn wf(&self) -> bool {
        program_wf(self@)
    }

    /// The program is well formed beside the values `outside`.
    pub open spec fn wf_beside(&self, outside: Set<Value>) -> bool {
        program_wf_beside(self@, outside)
    }

    /// Creates an empty program, with the interner of the given number.
    pub fn new(id: InternerId) -> (r: Program)
        ensures
            r.wf(),
            r@.cx.types.id() == id.number(),
            r@.cx.types@ == Seq::<TypeShape>::empty(),
            r@.cx.func_tys@ == Map::<Function, Type>::empty(),
            r@.cx.ids.value_bound() == 0,
            r@.cx.ids.bb_bound() == 0,
            r@.cx.ids.func_bound() == 0,
            r@.funcs == Map::<Function, FunctionView>::empty(),
            r@.cx.values@ == Values::empty(),
    {
        let r = Program { cx: Context::new(id), funcs: HashMap::new() };
        assert(r@.funcs =~= Map::<Function, FunctionView>::empty());
        assert(r@.cx.func_tys@.dom() =~= r@.funcs.dom());
        r
    }

    /// Creates a global value from its record and returns its handle. The
    /// operands of the value now list it among their users.
    ///
    /// The record is refused, and nothing changes, as [`creation_refusal`]
    /// says for the surroundings of a global value.
    pub fn new_value(&mut self, data: ValueData) -> (r: Result<Value, IrError>)
        requires
            old(self).wf(),
        ensures
            final(self).wf(),
            final(self)@.funcs == old(self)@.funcs,
            match r {
                Ok(v) => {
                    &&& creation_refusal(
                        old(self)@.cx.global_env(),
                        data@,
                        old(self)@.cx.ids.value_bound() < u64::MAX,
                    ) is None
                    &&& v.0 == old(self)@.cx.ids.value_bound()
                    &&& final(self)@.cx.values@ == locals_after_insert(
                        old(self)@.cx.values@,
                        v,
                        data@,
                    )
                    &&& final(self)@.cx.ids.value_bound() == old(self)@.cx.ids.value_bound() + 1
                    &&& final(self)@.cx.ids.bb_bound() == old(self)@.cx.ids.bb_bound()
                    &&& final(self)@.cx.ids.func_bound() == old(self)@.cx.ids.func_bound()
                    &&& final(self)@.cx.types == old(self)@.cx.types
                    &&& final(self)@.cx.func_tys == old(self)@.cx.func_tys
                },
                Err(e) => {
                    &&& creation_refusal(
                        old(self)@.cx.global_env(),
                        data@,
                        old(self)@.cx.ids.value_bound() < u64::MAX,
                    ) == Some(e)
                    &&& *final(self) == *old(self)
                },
            },
    {
        let ghost d = data@;
        let r = self.cx.new_value(data);
        proof {
            match r {
                Ok(v) => {
                    assert forall|f: Function| #[trigger]
                        self@.funcs.contains_key(f) implies function_wf(
                        self@.funcs[f],
                        &self@.cx,
                    ) by {
                        assert(old(self)@.funcs.contains_key(f));
                        lemma_global_created_keeps_graph(
                            self@.funcs[f].dfg,
                            &old(self)@.cx,
                            &self@.cx,
                            v,
                            d,
                        );
                    }
                },
                Err(_) => {},
            }
        }
        r
    }

    /// Removes the global value `v` and returns its record. The operands of
    /// the value no longer list it among their users.
    ///
    /// Refused, with nothing changed, when `v` names no global value
    /// (`UnknownValue`) or the value still has users (`InUse`).
    pub fn remove_value(&mut self, v: Value) -> (r: Result<ValueData, IrError>)
        requires
            old(self).wf(),
        ensures
            final(self).wf(),
            final(self)@.funcs == old(self)@.funcs,
            match r {
                Ok(d) => {
                    &&& removal_refusal(old(self)@.cx.values@, v) is None
                    &&& d@ == old(self)@.cx.values@[v]
                    &&& final(self)@.cx.values@ == locals_after_remove(old(self)@.cx.values@, v)
                    &&& final(self)@.cx.ids == old(self)@.cx.ids
                    &&& final(self)@.cx.types == old(self)@.cx.types
                    &&& final(self)@.cx.func_tys == old(self)@.cx.func_tys
                },
                Err(e) => {
                    &&& removal_refusal(old(self)@.cx.values@, v) == Some(e)
                    &&& *final(self) == *old(self)
                },
            },
    {
        let r = self.cx.remove_value(v);
        proof {
            match r {
                Ok(_) => {
                    assert forall|f: Function| #[trigger]
                        self@.funcs.contains_key(f) implies function_wf(
                        self@.funcs[f],
                        &self@.cx,
                    ) by {
                        assert(old(self)@.funcs.contains_key(f));
                        lemma_global_removed_keeps_graph(
                            self@.funcs[f].dfg,
                            &old(self)@.cx,
                            &self@.cx,
                            v,
                        );
                    }
                },
                Err(_) => {},
            }
        }
        r
    }

    /// The global values.
    pub fn borrow_values(&self) -> (r: &ValueMap)
        ensures
            r@ == self@.cx.values@,
    {
        &self.cx.values
    }

    /// Enters a function into the program and returns its handle. The shared
    /// state now records the type of the function, so that calls of it can
    /// be created.
    ///
    /// Refused with `IdsExhausted`, with nothing changed, when the counter
    /// of functions is at its end.
    pub fn new_func(&mut self, data: FunctionData) -> (r: Result<Function, IrError>)
        requires
            old(self).wf_beside(data@.dfg.values.dom()),
            data.wf(&old(self)@.cx),
            shares_no_value(old(self)@.funcs, data@.dfg),
        ensures
            final(self).wf_beside(data@.dfg.values.dom()),
            match r {
                Ok(f) => {
                    &&& final(self).wf()
                    &&& f.0 == old(self)@.cx.ids.func_bound()
                    &&& final(self)@.funcs == old(self)@.funcs.insert(f, data@)
                    &&& final(self)@.cx.func_tys@ == old(self)@.cx.func_tys@.insert(f, data@.ty)
                    &&& final(self)@.cx.values == old(self)@.cx.values
                    &&& final(self)@.cx.types == old(self)@.cx.types
                    &&& final(self)@.cx.ids.value_bound() == old(self)@.cx.ids.value_bound()
                    &&& final(self)@.cx.ids.bb_bound() == old(self)@.cx.ids.bb_bound()
                    &&& final(self)@.cx.ids.func_bound() == old(self)@.cx.ids.func_bound() + 1
                },
                Err(e) => e == IrError::IdsExhausted && old(self)@.cx.ids.func_bound() == u64::MAX
                    && *final(self) == *old(self),
            },
    {
        let f = match self.cx.ids.next_func_id() {
            Some(id) => Function(id),
            None => {
                return Err(IrError::IdsExhausted);
            },
        };
        let ghost d = data@;
        self.cx.func_tys.insert(f, *data.ty());
        self.funcs.insert(f.0, data);
        proof {
            assert(self@.funcs =~= old(self)@.funcs.insert(f, d));
            assert(self@.cx.func_tys@.dom() =~= self@.funcs.dom());
            assert(!old(self)@.cx.func_tys@.contains_key(f));
            assert(!old(self)@.funcs.dom().contains(f));
            assert forall|f1: Function, f2: Function, v: Value|
                #![trigger self@.funcs[f1].dfg.values.contains_key(v), self@.funcs[f2].dfg.values.contains_key(v)]
                self@.funcs.contains_key(f1) && self@.funcs.contains_key(f2) && f1 != f2
                    && self@.funcs[f1].dfg.values.contains_key(v) implies !self@.funcs[f2].dfg.values.contains_key(
                v,
            ) by {
                if f1 == f {
                    if old(self)@.funcs[f2].dfg.values.contains_key(v) {
                        assert(!d.dfg.values.contains_key(v));
                    }
                } else if f2 == f {
                    assert(old(self)@.funcs[f1].dfg.values.contains_key(v));
                } else {
                    assert(old(self)@.funcs[f1].dfg.values.contains_key(v));
                    if self@.funcs[f2].dfg.values.contains_key(v) {
                        assert(old(self)@.funcs[f2].dfg.values.contains_key(v));
                    }
                }
            }
            assert forall|x: Function| #[trigger]
                self@.funcs.contains_key(x) implies self@.cx.func_tys@[x] == self@.funcs[x].ty
                && function_wf(self@.funcs[x], &self@.cx) by {
                if x != f {
                    assert(old(self)@.funcs.contains_key(x));
                }
            }
            assert forall|x: Function| #[trigger]
                self@.cx.func_tys@.contains_key(x) implies x.0 < self@.cx.ids.func_bound()
                && crate::ir::typing::shape(self@.cx.types@, self@.cx.func_tys@[x]) is Some
                && crate::ir::typing::shape(
                self@.cx.types@,
                self@.cx.func_tys@[x],
            )->0 is Function by {
                if x != f {
                    assert(old(self)@.cx.func_tys@.contains_key(x));
                }
            }
            assert forall|u: Value, w: Value|
                #![trigger self@.cx.values@[u].used_by.contains(w)]
                self@.cx.values@.contains_key(u) && self@.cx.values@[u].used_by.contains(w)
                    implies self@.cx.values@.contains_key(w) || held_by_function(
                self@.funcs,
                w,
            ) by {
                assert(old(self)@.cx.values@[u].used_by.contains(w));
                if d.dfg.values.contains_key(w) {
                    assert(self@.funcs.contains_key(f) && self@.funcs[f].dfg.values.contains_key(w));
                } else if !old(self)@.cx.values@.contains_key(w) {
                    let x = choose|x: Function|
                        old(self)@.funcs.contains_key(x) && #[trigger] old(
                            self,
                        )@.funcs[x].dfg.values.contains_key(w);
                    assert(self@.funcs.contains_key(x) && self@.funcs[x].dfg.values.contains_key(
                        w,
                    ));
                }
            }
        }
        Ok(f)
    }

    /// Removes the function `f` from the program and returns it, if the
    /// program holds it. The shared state no longer records its type, and no
    /// global value lists a value of the function among its users any more.
    pub fn remove_func(&mut self, f: Function) -> (r: Option<FunctionData>)
        requires
            old(self).wf(),
        ensures
            final(self).wf(),
            final(self)@.funcs == old(self)@.funcs.remove(f),
            final(self)@.cx.func_tys@ == old(self)@.cx.func_tys@.remove(f),
            final(self)@.cx.types == old(self)@.cx.types,
            final(self)@.cx.ids == old(self)@.cx.ids,
            match r {
                Some(d) => {
                    &&& old(self)@.funcs.contains_key(f)
                    &&& d@ == old(self)@.funcs[f]
                    &&& final(self)@.cx.values@ == without_users_in(
                        old(self)@.cx.values@,
                        d@.dfg.values.dom(),
                    )
                },
                None => !old(self)@.funcs.contains_key(f) && final(self)@.cx.values == old(
                    self,
                )@.cx.values,
            },
    {
        let r = self.funcs.remove(&f.0);
        self.cx.func_tys.remove(f);
        match &r {
            Some(d) => {
                self.cx.values.drop_users_in(d.dfg().value_map());
            },
            None => {},
        }
        proof {
            let pre = old(self)@;
            let post = self@;
            assert(post.funcs =~= pre.funcs.remove(f));
            assert(post.cx.func_tys@.dom() =~= post.funcs.dom());
            assert forall|f1: Function, f2: Function, v: Value|
                #![trigger post.funcs[f1].dfg.values.contains_key(v), post.funcs[f2].dfg.values.contains_key(v)]
                post.funcs.contains_key(f1) && post.funcs.contains_key(f2) && f1 != f2
                    && post.funcs[f1].dfg.values.contains_key(v) implies !post.funcs[f2].dfg.values.contains_key(
                v,
            ) by {
                assert(pre.funcs[f1].dfg.values.contains_key(v));
                if post.funcs[f2].dfg.values.contains_key(v) {
                    assert(pre.funcs[f2].dfg.values.contains_key(v));
                }
            }
            assert forall|x: Function| #[trigger]
                post.cx.func_tys@.contains_key(x) implies x.0 < post.cx.ids.func_bound()
                && crate::ir::typing::shape(post.cx.types@, post.cx.func_tys@[x]) is Some
                && crate::ir::typing::shape(post.cx.types@, post.cx.func_tys@[x])->0
                is Function by {
                assert(pre.cx.func_tys@.contains_key(x));
            }
            let g0 = pre.cx.values@;
            let g2 = post.cx.values@;
            if pre.funcs.contains_key(f) {
                let gone = pre.funcs[f].dfg.values.dom();
                assert(function_wf(pre.funcs[f], &pre.cx));
                assert(g2.dom() =~= g0.dom());
                assert forall|u: Value| #[trigger] g0.contains_key(u) implies g2[u].kind
                    == g0[u].kind && forall|w: Value|
                    g0.contains_key(w) ==> (g2[u].used_by.contains(w) <==> g0[u].used_by.contains(
                        w,
                    )) by {
                    assert forall|w: Value| g0.contains_key(w) implies (g2[u].used_by.contains(w)
                        <==> g0[u].used_by.contains(w)) by {
                        if gone.contains(w) {
                            assert(pre.funcs[f].dfg.values.contains_key(w));
                        }
                    }
                }
                crate::ir::usedef::lemma_globals_stay_consistent(g0, g2);
                assert forall|x: Value| #[trigger] g2.contains_key(x) implies {
                    &&& x.0 < post.cx.ids.value_bound()
                    &&& g2[x].ty.0 < post.cx.types@.len()
                    &&& crate::ir::entities::valid_opt_name(g2[x].name)
                    &&& forall|w: Value| g2[x].used_by.contains(w) ==> w.0 < post.cx.ids.value_bound()
                } by {
                    assert(g0.contains_key(x));
                }
                assert(post.cx.wf());
                let mid = Context { func_tys: pre.cx.func_tys, ..post.cx };
                assert(context_step(&pre.cx, &mid, gone)) by {
                    assert forall|u: Value| #[trigger] g0.contains_key(u) implies {
                        &&& g2[u].ty == g0[u].ty
                        &&& g2[u].name == g0[u].name
                        &&& g2[u].kind == g0[u].kind
                        &&& forall|w: Value|
                            #![trigger g2[u].used_by.contains(w)]
                            #![trigger g0[u].used_by.contains(w)]
                            !gone.contains(w) && w.0 < pre.cx.ids.value_bound() ==> (
                            g2[u].used_by.contains(w) <==> g0[u].used_by.contains(w))
                    } by {}
                }
                assert forall|x: Function| #[trigger]
                    post.funcs.contains_key(x) implies post.cx.func_tys@[x] == post.funcs[x].ty
                    && function_wf(post.funcs[x], &post.cx) by {
                    assert(pre.funcs.contains_key(x) && x != f);
                    let other = pre.funcs[x];
                    assert forall|v: Value| other.dfg.values.contains_key(v) implies !gone.contains(
                        v,
                    ) by {
                        if pre.funcs[f].dfg.values.contains_key(v) {
                            assert(pre.funcs[x].dfg.values.contains_key(v));
                        }
                    }
                    lemma_other_graph_stays_wf(other.dfg, &pre.cx, &mid, gone);
                    assert(graph_wf(other.dfg, &post.cx));
                    lemma_function_stays_wf(other, &pre.cx, other, &post.cx);
                }
                assert forall|u: Value, w: Value|
                    #![trigger post.cx.values@[u].used_by.contains(w)]
                    post.cx.values@.contains_key(u) && post.cx.values@[u].used_by.contains(w)
                        implies post.cx.values@.contains_key(w) || held_by_function(
                    post.funcs,
                    w,
                ) by {
                    assert(g0.contains_key(u));
                    assert(g0[u].used_by.contains(w) && !gone.contains(w));
                    if !g0.contains_key(w) {
                        let x = choose|x: Function|
                            pre.funcs.contains_key(x) && #[trigger] pre.funcs[x].dfg.values.contains_key(
                                w,
                            );
                        assert(x != f);
                        assert(post.funcs.contains_key(x) && post.funcs[x].dfg.values.contains_key(
                            w,
                        ));
                    }
                }
            } else {
                assert forall|x: Function| #[trigger]
                    post.funcs.contains_key(x) implies post.cx.func_tys@[x] == post.funcs[x].ty
                    && function_wf(post.funcs[x], &post.cx) by {
                    assert(pre.funcs.contains_key(x));
                }
                assert forall|u: Value, w: Value|
                    #![trigger post.cx.values@[u].used_by.contains(w)]
                    post.cx.values@.contains_key(u) && post.cx.values@[u].used_by.contains(w)
                        implies post.cx.values@.contains_key(w) || held_by_function(
                    post.funcs,
                    w,
                ) by {
                    if !g0.contains_key(w) {
                        let x = choose|x: Function|
                            pre.funcs.contains_key(x) && #[trigger] pre.funcs[x].dfg.values.contains_key(
                                w,
                            );
                        assert(post.funcs.contains_key(x) && post.funcs[x].dfg.values.contains_key(
                            w,
                        ));
                    }
                }
            }
        }
        r
    }

    /// The function `f`, if the program holds it.
    pub fn func(&self, f: Function) -> (r: Option<&FunctionData>)
        ensures
            match r {
                Some(d) => self@.funcs.contains_key(f) && d@ == self@.funcs[f],
                None => !self@.funcs.contains_key(f),
            },
    {
        self.funcs.get(&f.0)
    }

    /// The functions of the program, by the numbers of their handles.
    pub fn funcs(&self) -> (r: &HashMap<FunctionId, FunctionData>)
        ensures
            funcs_view(r@) == self@.funcs,
    {
        &self.funcs
    }

    /// The functions of the program, to be changed.
    pub fn funcs_mut(&mut self) -> (r: &mut HashMap<FunctionId, FunctionData>)
        ensures
            funcs_view(r@) == old(self)@.funcs,
            final(self)@ == (ProgramView { funcs: funcs_view(final(r)@), ..old(self)@ }),
    {
        &mut self.funcs
    }

    /// The state that the program shares.
    pub fn context(&self) -> (r: &Context)
        ensures
            *r == self@.cx,
    {
        &self.cx
    }

    /// The state that the program shares, to be changed.
    pub fn context_mut(&mut self) -> (r: &mut Context)
        ensures
            *r == old(self)@.cx,
            final(self)@ == (ProgramView { cx: *final(r), ..old(self)@ }),
    {
        &mut self.cx
    }

    /// The shared state and the functions, both to be changed: an operation
    /// on a function can be given the shared state.
    pub fn parts_mut(&mut self) -> (r: (&mut Context, &mut HashMap<FunctionId, FunctionData>))
        ensures
            *r.0 == old(self)@.cx,
            funcs_view(r.1@) == old(self)@.funcs,
            final(self)@ == (ProgramView { cx: *final(r.0), funcs: funcs_view(final(r.1)@) }),
    {
        (&mut self.cx, &mut self.funcs)
    }
}

} // verus!
