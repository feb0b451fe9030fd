//! Functions: a type, a name, parameters, a graph and a layout.

use crate::ir::context::{context_step, Context};
use crate::ir::dfg::{
    arg_handles, block_removal_refusal, edit_step, graph_extends, graph_wf, value_removal_refusal,
    with_args, without_values, DataFlowGraph, GraphView,
};
use crate::ir::entities::{
    bb_uses, check_name, valid_name, value_uses, BasicBlock, BasicBlockData, KindView, Value,
    ValueData,
};
use crate::ir::error::IrError;
use crate::ir::layout::{
    bb_entry_refusal, bb_place, has_bb, has_inst, inst_entry_refusal, inst_place, layout_in_graph,
    layout_wf, with_bb, with_inst, without_bb, without_inst, Layout, LayoutView,
};
use crate::ir::usedef::{block_remove_user, locals_after_remove, remove_user};
use crate::ir::table::{Blocks, Values};
use crate::ir::types::{clone_types, table_extends, Type, TypeData, TypeShape};
use crate::ir::typing::{own_shape, shape};
use vstd::prelude::*;

verus! {

/// The mathematical value of a [`FunctionData`].
pub struct FunctionView {
    pub ty: Type,
    pub name: Seq<char>,
    pub params: Seq<Value>,
    pub dfg: GraphView,
    pub layout: LayoutView,
}

/// The parameters of a function agree with its type: the type is a function
/// type, there are as many parameters as parameter types, each parameter is a
/// value of the graph that refers to its place among the parameters and has
/// the type of that place, and the graph checks returns against the return
/// type.
pub open spec fn signature_sound(f: FunctionView, table: Seq<TypeShape>) -> bool {
    match shape(table, f.ty) {
        Some(TypeShape::Function(ps, ret)) => {
            &&& f.dfg.ret_ty == ret
            &&& ps.len() == f.params.len()
            &&& forall|i: int|
                0 <= i < f.params.len() ==> {
                    &&& f.dfg.values.contains_key(#[trigger] f.params[i])
                    &&& f.dfg.values[f.params[i]].kind == (KindView::FuncArgRef {
                        index: i as usize,
                    })
                    &&& f.dfg.values[f.params[i]].ty == ps[i]
                }
        },
        _ => false,
    }
}

/// A function is well formed in the shared state `cx`: its name is well
/// formed, its parameters agree with its type, its graph is well formed,
/// nothing occupies two places of its layout, and everything that the layout
/// orders exists in the graph.
pub open spec fn function_wf(f: FunctionView, cx: &Context) -> bool {
    &&& valid_name(f.name)
    &&& f.ty.1 == cx.types.id()
    &&& signature_sound(f, cx.types@)
    &&& graph_wf(f.dfg, cx)
    &&& layout_wf(f.layout)
    &&& layout_in_graph(f.layout, f.dfg.values, f.dfg.bbs)
}

/// Why a function cannot be created: a name that is not well formed
/// (`InvalidName`), a type that names no entry (`UnknownType`) or is not a
/// function type (`TypeMismatch`), or a counter of values that cannot hand
/// out a handle for each parameter (`IdsExhausted`).
pub open spec fn function_refusal(cx: &Context, name: Seq<char>, ty: Type) -> Option<IrError> {
    if !valid_name(name) {
        Some(IrError::InvalidName)
    } else {
        match own_shape(cx.types.id(), cx.types@, ty) {
            None => Some(IrError::UnknownType),
            Some(TypeShape::Function(ps, ret)) => if cx.ids.value_bound() + ps.len() > u64::MAX {
                Some(IrError::IdsExhausted)
            } else {
                None
            },
            Some(_) => Some(IrError::TypeMismatch),
        }
    }
}

/// A function that keeps its type, name, parameters and layout, and whose
/// graph holds what it held, stays well formed where its graph does, also
/// when the interner has grown.
pub proof fn lemma_function_stays_wf(
    pre: FunctionView,
    pre_cx: &Context,
    post: FunctionView,
    post_cx: &Context,
)
    requires
        function_wf(pre, pre_cx),
        graph_wf(post.dfg, post_cx),
        graph_extends(pre.dfg, post.dfg),
        post.ty == pre.ty,
        post.name == pre.name,
        post.params == pre.params,
        post.layout == pre.layout,
        table_extends(pre_cx.types@, post_cx.types@),
    ensures
        function_wf(post, post_cx),
{
    let t0 = pre_cx.types@;
    let t1 = post_cx.types@;
    assert(t1[pre.ty.0 as int] == t0[pre.ty.0 as int]);
    crate::ir::dfg::lemma_layout_stays_in_graph(pre.layout, pre.dfg, post.dfg);
    assert forall|i: int| 0 <= i < pre.params.len() implies {
        &&& post.dfg.values.contains_key(#[trigger] post.params[i])
        &&& post.dfg.values[post.params[i]].kind == pre.dfg.values[pre.params[i]].kind
        &&& post.dfg.values[post.params[i]].ty == pre.dfg.values[pre.params[i]].ty
    } by {
        assert(pre.dfg.values.contains_key(pre.params[i]));
        assert(crate::ir::entities::value_uses(pre.dfg.values[pre.params[i]].kind).len() == 0);
    }
}

/// A function: its type, its name, its parameters, the graph of its values
/// and basic blocks, and their layout. A function whose layout is empty is a
/// declaration; any other is a definition.
pub struct FunctionData {
    ty: Type,
    name: String,
    params: Vec<Value>,
    dfg: DataFlowGraph,
    layout: Layout,
}

impl View for FunctionData {
    type V = FunctionView;

    closed spec fn view(&self) -> FunctionView {
        FunctionView {
            ty: self.ty,
            name: self.name@,
            params: self.params@,
            dfg: self.dfg@,
            layout: self.layout@,
        }
    }
}

impl FunctionData {
    /// The function is well formed in the shared state `cx`.
    pub open spec fn wf(&self, cx: &Context) -> bool {
        function_wf(self@, cx)
    }

    /// Creates a function of the given name and type, with a reference to
    /// each parameter in its graph and with an empty layout.
    ///
    /// Refused, with nothing changed, as [`function_refusal`] says.
    pub fn new(cx: &mut Context, name: String, ty: Type) -> (r: Result<FunctionData, IrError>)
        requires
            old(cx).wf(),
        ensures
            final(cx).wf(),
            context_step(&*old(cx), &*final(cx), Set::<Value>::empty()),
            match r {
                Ok(f) => {
                    &&& function_refusal(&*old(cx), name@, ty) is None
                    &&& f.wf(&*final(cx))
                    &&& f@.ty == ty
                    &&& f@.name == name@
                    &&& f@.layout == LayoutView::empty()
                    &&& f@.dfg.bbs == Blocks::empty()
                    &&& edit_step(
                        GraphView {
                            values: Values::empty(),
                            bbs: Blocks::empty(),
                            ret_ty: f@.dfg.ret_ty,
                        },
                        &*old(cx),
                        f@.dfg,
                        &*final(cx),
                    )
                    &&& shape(old(cx).types@, ty) matches Some(TypeShape::Function(ps, ret)) && {
                        &&& f@.params == arg_handles(old(cx).ids.value_bound(), ps.len())
                        &&& f@.dfg.values == with_args(
                            Values::empty(),
                            old(cx).ids.value_bound(),
                            ps,
                            None,
                        )
                        &&& f@.dfg.ret_ty == ret
                        &&& final(cx).ids.value_bound() == old(cx).ids.value_bound() + ps.len()
                    }
                    &&& final(cx).ids.bb_bound() == old(cx).ids.bb_bound()
                    &&& final(cx).ids.func_bound() == old(cx).ids.func_bound()
                    &&& final(cx).values@ == old(cx).values@
                    &&& final(cx).types == old(cx).types
                    &&& final(cx).func_tys == old(cx).func_tys
                },
                Err(e) => function_refusal(&*old(cx), name@, ty) == Some(e) && *final(cx) == *old(
                    cx,
                ),
            },
    {
        if !check_name(name.as_str()) {
            return Err(IrError::InvalidName);
        }
        let (tys, ret) = match cx.types.kind(ty) {
            None => {
                return Err(IrError::UnknownType);
            },
            Some(TypeData::Function(ps, ret)) => (clone_types(ps), *ret),
            Some(_) => {
                return Err(IrError::TypeMismatch);
            },
        };
        if !cx.ids.has_value_ids(tys.len()) {
            return Err(IrError::IdsExhausted);
        }
        let ghost table = cx.types@;
        let ghost base = cx.ids.value_bound();
        proof {
            crate::ir::types::lemma_entry_admissible(table, ty);
            let cs = crate::ir::types::components(table[ty.0 as int]);
            assert(cs[tys@.len() as int] == ret);
            assert forall|i: int| 0 <= i < tys@.len() implies (#[trigger] tys@[i]).0
                < table.len() && tys@[i].1 == cx.types.id() by {
                assert(cs[i] == tys@[i]);
            }
        }
        let mut dfg = DataFlowGraph::new(ret);
        let params = dfg.mint_args(cx, &tys, None);
        let f = FunctionData { ty, name, params, dfg, layout: Layout::new() };
        proof {
            let l2 = f@.dfg.values;
            assert forall|i: int| 0 <= i < f@.params.len() implies {
                &&& l2.contains_key(#[trigger] f@.params[i])
                &&& l2[f@.params[i]].kind == (KindView::FuncArgRef { index: i as usize })
                &&& l2[f@.params[i]].ty == tys@[i]
            } by {
                assert(f@.params[i] == Value((base + i) as u64));
            }
        }
        Ok(f)
    }

    /// Creates a function that is meant to stay a declaration. It differs
    /// from [`FunctionData::new`] in name only: what makes a declaration is
    /// the empty layout.
    pub fn new_decl(cx: &mut Context, name: String, ty: Type) -> (r: Result<FunctionData, IrError>)
        requires
            old(cx).wf(),
        ensures
            final(cx).wf(),
            context_step(&*old(cx), &*final(cx), Set::<Value>::empty()),
            match r {
                Ok(f) => {
                    &&& function_refusal(&*old(cx), name@, ty) is None
                    &&& f.wf(&*final(cx))
                    &&& f@.ty == ty
                    &&& f@.name == name@
                    &&& f@.layout == LayoutView::empty()
                    &&& f@.dfg.bbs == Blocks::empty()
                    &&& edit_step(
                        GraphView {
                            values: Values::empty(),
                            bbs: Blocks::empty(),
                            ret_ty: f@.dfg.ret_ty,
                        },
                        &*old(cx),
                        f@.dfg,
                        &*final(cx),
                    )
                    &&& shape(old(cx).types@, ty) matches Some(TypeShape::Function(ps, ret)) && {
                        &&& f@.params == arg_handles(old(cx).ids.value_bound(), ps.len())
                        &&& f@.dfg.values == with_args(
                            Values::empty(),
                            old(cx).ids.value_bound(),
                            ps,
                            None,
                        )
                        &&& f@.dfg.ret_ty == ret
                        &&& final(cx).ids.value_bound() == old(cx).ids.value_bound() + ps.len()
                    }
                    &&& final(cx).ids.bb_bound() == old(cx).ids.bb_bound()
                    &&& final(cx).ids.func_bound() == old(cx).ids.func_bound()
                    &&& final(cx).values@ == old(cx).values@
                    &&& final(cx).types == old(cx).types
                    &&& final(cx).func_tys == old(cx).func_tys
                },
                Err(e) => function_refusal(&*old(cx), name@, ty) == Some(e) && *final(cx) == *old(
                    cx,
                ),
            },
    {
        FunctionData::new(cx, name, ty)
    }

    /// The type of the function.
    pub fn ty(&self) -> (r: &Type)
        ensures
            *r == self@.ty,
    {
        &self.ty
    }

    /// The name of the function.
    pub fn name(&self) -> (r: &str)
        ensures
            r@ == self@.name,
    {
        self.name.as_str()
    }

    /// The parameters of the function.
    pub fn params(&self) -> (r: &[Value])
        ensures
            r@ == self@.params,
    {
        self.params.as_slice()
    }

    /// The graph of the function.
    pub fn dfg(&self) -> (r: &DataFlowGraph)
        ensures
            r@ == self@.dfg,
    {
        &self.dfg
    }

    /// The layout of the function.
    pub fn layout(&self) -> (r: &Layout)
        ensures
            r@ == self@.layout,
    {
        &self.layout
    }

    /// Whether the function is a declaration: its layout is empty.
    pub fn is_decl(&self) -> (r: bool)
        ensures
            r == (self@.layout.len() == 0),
    {
        self.layout.is_empty()
    }

    /// The graph of the function, to be changed.
    pub fn dfg_mut(&mut self) -> (r: &mut DataFlowGraph)
        ensures
            r@ == old(self)@.dfg,
            final(self)@ == (FunctionView { dfg: final(r)@, ..old(self)@ }),
    {
        &mut self.dfg
    }

    /// The layout of the function, to be changed.
    pub fn layout_mut(&mut self) -> (r: &mut Layout)
        ensures
            r@ == old(self)@.layout,
            final(self)@ == (FunctionView { layout: final(r)@, ..old(self)@ }),
    {
        &mut self.layout
    }

    /// The graph and the layout of the function, both to be changed: an
    /// operation on the one can be given the other.
    pub fn parts_mut(&mut self) -> (r: (&mut DataFlowGraph, &mut Layout))
        ensures
            r.0@ == old(self)@.dfg,
            r.1@ == old(self)@.layout,
            final(self)@ == (FunctionView {
                dfg: final(r.0)@,
                layout: final(r.1)@,
                ..old(self)@
            }),
    {
        (&mut self.dfg, &mut self.layout)
    }

    /// Removes the value `v` from the graph of the function and returns its
    /// record. The operands and the basic blocks of the value no longer list
    /// it among their users.
    ///
    /// Refused, with nothing changed, as [`value_removal_refusal`] says for
    /// the layout of the function: a value that still has a place in the
    /// layout stays.
    pub fn remove_value(&mut self, cx: &mut Context, v: Value) -> (r: Result<ValueData, IrError>)
        requires
            old(cx).wf(),
            old(self).wf(&*old(cx)),
        ensures
            final(cx).wf(),
            final(self).wf(&*final(cx)),
            edit_step(old(self)@.dfg, &*old(cx), final(self)@.dfg, &*final(cx)),
            final(self)@ == (FunctionView { dfg: final(self)@.dfg, ..old(self)@ }),
            final(cx).ids == old(cx).ids,
            final(cx).types == old(cx).types,
            final(cx).func_tys == old(cx).func_tys,
            match r {
                Ok(d) => {
                    &&& value_removal_refusal(old(self)@.dfg.values, old(self)@.layout, v)
                        is None
                    &&& d@ == old(self)@.dfg.values[v]
                    &&& final(self)@.dfg == (GraphView {
                        values: locals_after_remove(old(self)@.dfg.values, v),
                        bbs: block_remove_user(old(self)@.dfg.bbs, bb_uses(d@.kind), v),
                        ..old(self)@.dfg
                    })
                    &&& final(cx).values@ == remove_user(old(cx).values@, value_uses(d@.kind), v)
                },
                Err(e) => {
                    &&& value_removal_refusal(old(self)@.dfg.values, old(self)@.layout, v)
                        == Some(e)
                    &&& *final(self) == *old(self)
                    &&& *final(cx) == *old(cx)
                },
            },
    {
        let ghost pre = self@;
        let r = self.dfg.remove_value(cx, &self.layout, v);
        proof {
            if r is Ok {
                let post = self@;
                assert forall|i: int| 0 <= i < pre.params.len() implies {
                    &&& post.dfg.values.contains_key(#[trigger] post.params[i])
                    &&& post.dfg.values[post.params[i]].kind == pre.dfg.values[pre.params[i]].kind
                    &&& post.dfg.values[post.params[i]].ty == pre.dfg.values[pre.params[i]].ty
                } by {
                    assert(pre.dfg.values.contains_key(pre.params[i]));
                }
            }
        }
        r
    }

    /// Removes the basic block `bb` and the references to its parameters
    /// from the graph of the function, and returns the record of the block.
    ///
    /// Refused, with nothing changed, as [`block_removal_refusal`] says for
    /// the layout of the function: a block that still has a place in the
    /// layout stays.
    pub fn remove_bb(&mut self, cx: &Context, bb: BasicBlock) -> (r: Result<BasicBlockData, IrError>)
        requires
            cx.wf(),
            old(self).wf(cx),
        ensures
            final(self).wf(cx),
            edit_step(old(self)@.dfg, cx, final(self)@.dfg, cx),
            final(self)@ == (FunctionView { dfg: final(self)@.dfg, ..old(self)@ }),
            match r {
                Ok(d) => {
                    &&& block_removal_refusal(
                        old(self)@.dfg.values,
                        old(self)@.dfg.bbs,
                        old(self)@.layout,
                        bb,
                    ) is None
                    &&& d@ == old(self)@.dfg.bbs[bb]
                    &&& final(self)@.dfg == (GraphView {
                        values: without_values(old(self)@.dfg.values, d@.params),
                        bbs: old(self)@.dfg.bbs.remove(bb),
                        ..old(self)@.dfg
                    })
                },
                Err(e) => {
                    &&& block_removal_refusal(
                        old(self)@.dfg.values,
                        old(self)@.dfg.bbs,
                        old(self)@.layout,
                        bb,
                    ) == Some(e)
                    &&& *final(self) == *old(self)
                },
            },
    {
        let ghost pre = self@;
        let r = self.dfg.remove_bb(cx, &self.layout, bb);
        proof {
            match &r {
                Ok(d) => {
                    let post = self@;
                    let gone = d@.params;
                    assert(crate::ir::dfg::params_sound(
                        pre.dfg.bbs[bb],
                        bb,
                        pre.dfg.values,
                        cx.types@,
                    ));
                    assert forall|i: int| 0 <= i < pre.params.len() implies {
                        &&& post.dfg.values.contains_key(#[trigger] post.params[i])
                        &&& post.dfg.values[post.params[i]].kind
                            == pre.dfg.values[pre.params[i]].kind
                        &&& post.dfg.values[post.params[i]].ty == pre.dfg.values[pre.params[i]].ty
                    } by {
                        let p = pre.params[i];
                        assert(pre.dfg.values.contains_key(p));
                        if gone.contains(p) {
                            let k = choose|k: int| 0 <= k < gone.len() && gone[k] == p;
                            assert(pre.dfg.values[gone[k]].kind is BlockArgRef);
                        }
                    }
                },
                Err(_) => {},
            }
        }
        r
    }

    /// Gives the basic block `bb` of the function the last place in its
    /// layout.
    ///
    /// Refused, with nothing changed, as [`bb_entry_refusal`] says for the
    /// graph of the function.
    pub fn append_bb(&mut self, cx: &Context, bb: BasicBlock) -> (r: Result<(), IrError>)
        requires
            old(self).wf(cx),
        ensures
            final(self).wf(cx),
            final(self)@ == (FunctionView { layout: final(self)@.layout, ..old(self)@ }),
            match r {
                Ok(_) => {
                    &&& bb_entry_refusal(old(self)@.layout, old(self)@.dfg.bbs, bb) is None
                    &&& final(self)@.layout == with_bb(
                        old(self)@.layout,
                        old(self)@.layout.len() as int,
                        bb,
                    )
                },
                Err(e) => bb_entry_refusal(old(self)@.layout, old(self)@.dfg.bbs, bb) == Some(e)
                    && *final(self) == *old(self),
            },
    {
        self.layout.append_bb(&self.dfg, bb)
    }

    /// Gives the basic block `bb` of the function the place before the basic
    /// block `anchor` in its layout.
    ///
    /// Refused, with nothing changed, as [`bb_entry_refusal`] says for the
    /// graph of the function, or else with `NotInLayout` when `anchor` has no
    /// place in the layout.
    pub fn insert_bb_before(&mut self, cx: &Context, bb: BasicBlock, anchor: BasicBlock) -> (r:
        Result<(), IrError>)
        requires
            old(self).wf(cx),
        ensures
            final(self).wf(cx),
            final(self)@ == (FunctionView { layout: final(self)@.layout, ..old(self)@ }),
            match r {
                Ok(_) => {
                    &&& bb_entry_refusal(old(self)@.layout, old(self)@.dfg.bbs, bb) is None
                    &&& has_bb(old(self)@.layout, anchor)
                    &&& final(self)@.layout == with_bb(
                        old(self)@.layout,
                        bb_place(old(self)@.layout, anchor),
                        bb,
                    )
                },
                Err(e) => {
                    &&& *final(self) == *old(self)
                    &&& if bb_entry_refusal(old(self)@.layout, old(self)@.dfg.bbs, bb) is Some {
                        bb_entry_refusal(old(self)@.layout, old(self)@.dfg.bbs, bb) == Some(e)
                    } else {
                        !has_bb(old(self)@.layout, anchor) && e == IrError::NotInLayout
                    }
                },
            },
    {
        self.layout.insert_bb_before(&self.dfg, bb, anchor)
    }

    /// Gives the instruction `inst` of the function the last place in the
    /// basic block `bb` of its layout.
    ///
    /// Refused, with nothing changed, as [`inst_entry_refusal`] says for the
    /// graph of the function, or else with `NotInLayout` when `bb` has no
    /// place in the layout.
    pub fn append_inst(&mut self, cx: &Context, inst: Value, bb: BasicBlock) -> (r: Result<
        (),
        IrError,
    >)
        requires
            old(self).wf(cx),
        ensures
            final(self).wf(cx),
            final(self)@ == (FunctionView { layout: final(self)@.layout, ..old(self)@ }),
            match r {
                Ok(_) => {
                    &&& inst_entry_refusal(old(self)@.layout, old(self)@.dfg.values, inst) is None
                    &&& has_bb(old(self)@.layout, bb)
                    &&& final(self)@.layout == with_inst(
                        old(self)@.layout,
                        bb_place(old(self)@.layout, bb),
                        old(self)@.layout[bb_place(old(self)@.layout, bb)].1.len() as int,
                        inst,
                    )
                },
                Err(e) => {
                    &&& *final(self) == *old(self)
                    &&& if inst_entry_refusal(old(self)@.layout, old(self)@.dfg.values, inst)
                        is Some {
                        inst_entry_refusal(old(self)@.layout, old(self)@.dfg.values, inst) == Some(
                            e,
                        )
                    } else {
                        !has_bb(old(self)@.layout, bb) && e == IrError::NotInLayout
                    }
                },
            },
    {
        self.layout.append_inst(&self.dfg, inst, bb)
    }

    /// Gives the instruction `inst` of the function the place before the
    /// instruction `anchor` in its layout.
    ///
    /// Refused, with nothing changed, as [`inst_entry_refusal`] says for the
    /// graph of the function, or else with `NotInLayout` when `anchor` has no
    /// place in the layout.
    pub fn insert_inst_before(&mut self, cx: &Context, inst: Value, anchor: Value) -> (r: Result<
        (),
        IrError,
    >)
        requires
            old(self).wf(cx),
        ensures
            final(self).wf(cx),
            final(self)@ == (FunctionView { layout: final(self)@.layout, ..old(self)@ }),
            match r {
                Ok(_) => {
                    &&& inst_entry_refusal(old(self)@.layout, old(self)@.dfg.values, inst) is None
                    &&& has_inst(old(self)@.layout, anchor)
                    &&& final(self)@.layout == with_inst(
                        old(self)@.layout,
                        inst_place(old(self)@.layout, anchor).0,
                        inst_place(old(self)@.layout, anchor).1,
                        inst,
                    )
                },
                Err(e) => {
                    &&& *final(self) == *old(self)
                    &&& if inst_entry_refusal(old(self)@.layout, old(self)@.dfg.values, inst)
                        is Some {
                        inst_entry_refusal(old(self)@.layout, old(self)@.dfg.values, inst) == Some(
                            e,
                        )
                    } else {
                        !has_inst(old(self)@.layout, anchor) && e == IrError::NotInLayout
                    }
                },
            },
    {
        self.layout.insert_inst_before(&self.dfg, inst, anchor)
    }

    /// Takes the instruction `inst` out of the layout of the function. The
    /// value stays in the graph.
    ///
    /// Refused with `NotInLayout`, with nothing changed, when `inst` has no
    /// place in the layout.
    pub fn remove_inst(&mut self, cx: &Context, inst: Value) -> (r: Result<(), IrError>)
        requires
            old(self).wf(cx),
        ensures
            final(self).wf(cx),
            final(self)@ == (FunctionView { layout: final(self)@.layout, ..old(self)@ }),
            match r {
                Ok(_) => {
                    &&& has_inst(old(self)@.layout, inst)
                    &&& final(self)@.layout == without_inst(
                        old(self)@.layout,
                        inst_place(old(self)@.layout, inst).0,
                        inst_place(old(self)@.layout, inst).1,
                    )
                    &&& !has_inst(final(self)@.layout, inst)
                },
                Err(e) => !has_inst(old(self)@.layout, inst) && e == IrError::NotInLayout
                    && *final(self) == *old(self),
            },
    {
        self.layout.remove_inst(&self.dfg, inst)
    }

    /// Takes the basic block `bb`, with its instructions, out of the layout
    /// of the function. The block and the instructions stay in the graph.
    ///
    /// Refused with `NotInLayout`, with nothing changed, when `bb` has no
    /// place in the layout.
    pub fn layout_remove_bb(&mut self, cx: &Context, bb: BasicBlock) -> (r: Result<(), IrError>)
        requires
            old(self).wf(cx),
        ensures
            final(self).wf(cx),
            final(self)@ == (FunctionView { layout: final(self)@.layout, ..old(self)@ }),
            match r {
                Ok(_) => {
                    &&& has_bb(old(self)@.layout, bb)
                    &&& final(self)@.layout == without_bb(
                        old(self)@.layout,
                        bb_place(old(self)@.layout, bb),
                    )
                    &&& !has_bb(final(self)@.layout, bb)
                },
                Err(e) => {
                    &&& !has_bb(old(self)@.layout, bb)
                    &&& e == IrError::NotInLayout
                    &&& *final(self) == *old(self)
                },
            },
    {
        self.layout.remove_bb(&self.dfg, bb)
    }
}

} // verus!
