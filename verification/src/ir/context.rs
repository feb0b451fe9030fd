//! The state that a whole program shares: the interner of types, the
//! counters of handles, the global values, and the types of the functions.

use crate::ir::entities::{
    bb_uses, valid_opt_name, value_uses, check_opt_name, Function, Value, ValueData,
    ValueDataView,
};
use crate::ir::error::IrError;
use crate::ir::idman::{IdAllocator, InternerId};
use crate::ir::table::{BlockMap, Blocks, FuncTypes, ValueMap, Values};
use crate::ir::types::{table_extends, Type, TypeFactory, TypeShape};
use crate::ir::typing::{kind_refusal, shape, Env, Scope};
use crate::ir::usedef::{
    add_user, globals_consistent, lemma_add_user_step, lemma_insert_global_consistent,
    lemma_remove_global_consistent, lemma_remove_user_step, locals_after_insert,
    locals_after_remove, remove_user, unused_in,
};
use vstd::prelude::*;

verus! {

/// The values of a scope are sound: their handles were handed out by the
/// counter, their types are entries of the table, their names are well
/// formed, and so were the handles of their users handed out by the counter.
pub open spec fn values_sound(m: Values, table: Seq<TypeShape>, bound: nat) -> bool {
    forall|v: Value| #[trigger]
        m.contains_key(v) ==> {
            &&& v.0 < bound
            &&& m[v].ty.0 < table.len()
            &&& valid_opt_name(m[v].name)
            &&& forall|w: Value| m[v].used_by.contains(w) ==> w.0 < bound
        }
}

/// The type of every value of `m` is a handle of the interner with the number
/// `owner`.
pub open spec fn types_owned(m: Values, owner: u64) -> bool {
    forall|v: Value| #[trigger] m.contains_key(v) ==> m[v].ty.1 == owner
}

/// The type of every function of `tys` is a handle of the interner with the
/// number `owner`.
pub open spec fn func_tys_owned(tys: Map<Function, Type>, owner: u64) -> bool {
    forall|f: Function| #[trigger] tys.contains_key(f) ==> tys[f].1 == owner
}

/// The types of the functions are sound: the handles were handed out by the
/// counter, and each type is a function type of the table.
pub open spec fn func_tys_sound(tys: Map<Function, Type>, table: Seq<TypeShape>, bound: nat) -> bool {
    forall|f: Function| #[trigger]
        tys.contains_key(f) ==> f.0 < bound && shape(table, tys[f]) is Some && shape(
            table,
            tys[f],
        )->0 is Function
}

/// Why a value cannot be created: a name that is not well formed
/// (`InvalidName`), a record that already lists users (`InUse`), what the
/// rules of typing say, or counters at their end (`IdsExhausted`). Nothing
/// where the value can be created.
pub open spec fn creation_refusal(env: Env, d: ValueDataView, ids_left: bool) -> Option<IrError> {
    if !valid_opt_name(d.name) {
        Some(IrError::InvalidName)
    } else if d.used_by != Set::<Value>::empty() {
        Some(IrError::InUse)
    } else if kind_refusal(env, d.kind, d.ty) is Some {
        kind_refusal(env, d.kind, d.ty)
    } else if !ids_left {
        Some(IrError::IdsExhausted)
    } else {
        None
    }
}

/// Why a value cannot be removed from the scope `m`: it is not there
/// (`UnknownValue`), or it still has users (`InUse`).
pub open spec fn removal_refusal(m: Values, v: Value) -> Option<IrError> {
    if !m.contains_key(v) {
        Some(IrError::UnknownValue)
    } else if m[v].used_by != Set::<Value>::empty() {
        Some(IrError::InUse)
    } else {
        None
    }
}

/// What a change of a graph may do to the shared state around it: the
/// interner and the counters of values and blocks may have grown, and a
/// global value may list other users than before among `mine`, the values of
/// the graph, and among the values created since. Nothing else differs.
pub open spec fn context_step(pre: &Context, post: &Context, mine: Set<Value>) -> bool {
    &&& post.types.id() == pre.types.id()
    &&& table_extends(pre.types@, post.types@)
    &&& pre.ids.value_bound() <= post.ids.value_bound()
    &&& pre.ids.bb_bound() <= post.ids.bb_bound()
    &&& pre.ids.func_bound() == post.ids.func_bound()
    &&& post.func_tys@ == pre.func_tys@
    &&& post.values@.dom() == pre.values@.dom()
    &&& forall|u: Value| #[trigger]
        pre.values@.contains_key(u) ==> {
            &&& post.values@[u].ty == pre.values@[u].ty
            &&& post.values@[u].name == pre.values@[u].name
            &&& post.values@[u].kind == pre.values@[u].kind
            &&& forall|w: Value|
                #![trigger post.values@[u].used_by.contains(w)]
                #![trigger pre.values@[u].used_by.contains(w)]
                !mine.contains(w) && w.0 < pre.ids.value_bound() ==> (
                post.values@[u].used_by.contains(w) <==> pre.values@[u].used_by.contains(w))
        }
}

/// What a whole program shares: the interner of types, the counters of
/// handles, the global values, and the types of the functions.
pub struct Context {
    pub types: TypeFactory,
    pub ids: IdAllocator,
    pub values: ValueMap,
    pub func_tys: FuncTypes,
}

impl Context {
    /// The shared state is well formed: the interner is, the global values
    /// are sound and their use–def relation is consistent, and the types of
    /// the functions are sound.
    pub open spec fn wf(&self) -> bool {
        &&& self.types.wf()
        &&& globals_consistent(self.values@)
        &&& values_sound(self.values@, self.types@, self.ids.value_bound())
        &&& types_owned(self.values@, self.types.id())
        &&& func_tys_owned(self.func_tys@, self.types.id())
        &&& func_tys_sound(self.func_tys@, self.types@, self.ids.func_bound())
    }

    /// The surroundings of a global value: no local scope, no basic blocks and
    /// no function around it.
    pub open spec fn global_env(&self) -> Env {
        Env {
            owner: self.types.id(),
            types: self.types@,
            locals: Values::empty(),
            globals: self.values@,
            blocks: Blocks::empty(),
            func_tys: self.func_tys@,
            ret_ty: None,
        }
    }

    /// Creates the shared state of an empty program, with the interner of
    /// the given number.
    pub fn new(id: InternerId) -> (r: Context)
        ensures
            r.wf(),
            r.types.id() == id.number(),
            r.values@ == Values::empty(),
            r.func_tys@ == Map::<Function, Type>::empty(),
            r.types@ == Seq::<TypeShape>::empty(),
            r.ids.value_bound() == 0,
            r.ids.bb_bound() == 0,
            r.ids.func_bound() == 0,
    {
        Context {
            types: TypeFactory::new(id),
            ids: IdAllocator::new(),
            values: ValueMap::new(),
            func_tys: FuncTypes::new(),
        }
    }

    /// The record of the global value `v`, if there is one.
    pub fn value(&self, v: Value) -> (r: Option<&ValueData>)
        ensures
            match r {
                Some(d) => self.values@.contains_key(v) && d@ == self.values@[v],
                None => !self.values@.contains_key(v),
            },
    {
        self.values.get(v)
    }

    /// Creates a global value from its record and returns its handle. The
    /// operands of the value now list it among their users.
    ///
    /// The record is refused, and nothing changes, as [`creation_refusal`]
    /// says for the surroundings of a global value.
    pub fn new_value(&mut self, data: ValueData) -> (r: Result<Value, IrError>)
        requires
            old(self).wf(),
        ensures
            final(self).wf(),
            match r {
                Ok(v) => {
                    &&& creation_refusal(
                        old(self).global_env(),
                        data@,
                        old(self).ids.value_bound() < u64::MAX,
                    ) is None
                    &&& v.0 == old(self).ids.value_bound()
                    &&& final(self).values@ == locals_after_insert(old(self).values@, v, data@)
                    &&& final(self).ids.value_bound() == old(self).ids.value_bound() + 1
                    &&& final(self).ids.bb_bound() == old(self).ids.bb_bound()
                    &&& final(self).ids.func_bound() == old(self).ids.func_bound()
                    &&& final(self).types == old(self).types
                    &&& final(self).func_tys == old(self).func_tys
                },
                Err(e) => {
                    &&& creation_refusal(
                        old(self).global_env(),
                        data@,
                        old(self).ids.value_bound() < u64::MAX,
                    ) == Some(e)
                    &&& *final(self) == *old(self)
                },
            },
    {
        if !check_opt_name(data.name()) {
            return Err(IrError::InvalidName);
        }
        if data.has_users() {
            return Err(IrError::InUse);
        }
        let no_values = ValueMap::new();
        let no_blocks = BlockMap::new();
        let scope = Scope {
            types: &self.types,
            locals: &no_values,
            globals: &self.values,
            blocks: &no_blocks,
            func_tys: &self.func_tys,
            ret_ty: None,
        };
        assert(scope@ == self.global_env());
        if let Some(e) = scope.check(data.kind(), *data.ty()) {
            return Err(e);
        }
        let v = match self.ids.next_value_id() {
            Some(id) => Value(id),
            None => {
                return Err(IrError::IdsExhausted);
            },
        };
        let ghost g0 = old(self).values@;
        let ghost ops = value_uses(data@.kind);
        proof {
            crate::ir::usedef::lemma_add_user_none(g0, v);
            assert(ops.take(0) =~= Seq::<Value>::empty());
            assert(ops.skip(0) =~= ops);
        }
        let mut it = data.kind().value_uses();
        let ghost mut n: int = 0;
        loop
            invariant_except_break
                it.wf(),
                it.kind() == data@.kind,
                it.remaining() == ops.skip(n),
            invariant
                ops == value_uses(data@.kind),
                0 <= n <= ops.len(),
                self.values@ == add_user(g0, ops.take(n), v),
                self.types == old(self).types,
                self.func_tys == old(self).func_tys,
                self.ids.value_bound() == v.0 + 1,
                self.ids.bb_bound() == old(self).ids.bb_bound(),
                self.ids.func_bound() == old(self).ids.func_bound(),
            ensures
                n == ops.len(),
            decreases it.remaining().len(),
        {
            match it.next() {
                Some(u) => {
                    assert(u == ops[n]);
                    proof {
                        lemma_add_user_step(g0, ops, n, v);
                        assert(ops.skip(n).skip(1) =~= ops.skip(n + 1));
                    }
                    self.values.add_user(u, v);
                    proof {
                        n = n + 1;
                    }
                },
                None => {
                    break ;
                },
            }
        }
        proof {
            assert(ops.take(n) =~= ops);
            let env = old(self).global_env();
            assert forall|i: int| 0 <= i < ops.len() implies g0.contains_key(ops[i]) by {
                assert(crate::ir::usedef::in_scope(env.locals, env.globals, ops[i]));
            }
            assert(unused_in(g0, v)) by {
                assert forall|u: Value| #[trigger] g0.contains_key(u) implies !g0[u].used_by.contains(
                    v,
                ) by {}
            }
            assert(bb_uses(data@.kind).len() == 0) by {
                if bb_uses(data@.kind).len() > 0 {
                    assert(!env.blocks.contains_key(bb_uses(data@.kind)[0]));
                }
            }
            lemma_insert_global_consistent(g0, v, data@);
        }
        self.values.insert(v, data);
        proof {
            let g2 = self.values@;
            assert forall|x: Value| #[trigger] g2.contains_key(x) implies {
                &&& x.0 < self.ids.value_bound()
                &&& g2[x].ty.0 < self.types@.len()
                &&& valid_opt_name(g2[x].name)
                &&& forall|w: Value| g2[x].used_by.contains(w) ==> w.0 < self.ids.value_bound()
            } by {
                if x != v {
                    assert(g0.contains_key(x));
                }
            }
        }
        Ok(v)
    }

    /// Removes the global value `v` and returns its record. The operands of
    /// the value no longer list it among their users.
    ///
    /// Refused, with nothing changed, when `v` names no global value
    /// (`UnknownValue`) or the value still has users (`InUse`).
    pub fn remove_value(&mut self, v: Value) -> (r: Result<ValueData, IrError>)
        requires
            old(self).wf(),
        ensures
            final(self).wf(),
            match r {
                Ok(d) => {
                    &&& removal_refusal(old(self).values@, v) is None
                    &&& d@ == old(self).values@[v]
                    &&& final(self).values@ == locals_after_remove(old(self).values@, v)
                    &&& final(self).ids == old(self).ids
                    &&& final(self).types == old(self).types
                    &&& final(self).func_tys == old(self).func_tys
                },
                Err(e) => {
                    &&& removal_refusal(old(self).values@, v) == Some(e)
                    &&& *final(self) == *old(self)
                },
            },
    {
        match self.values.get(v) {
            None => {
                return Err(IrError::UnknownValue);
            },
            Some(d) => {
                if d.has_users() {
                    return Err(IrError::InUse);
                }
            },
        }
        let ghost g0 = old(self).values@;
        let data = match self.values.remove(v) {
            Some(d) => d,
            None => vstd::pervasive::unreached(),
        };
        let ghost ops = value_uses(data@.kind);
        let ghost g1 = g0.remove(v);
        proof {
            crate::ir::usedef::lemma_add_user_none(g1, v);
            assert(ops.take(0) =~= Seq::<Value>::empty());
            assert(ops.skip(0) =~= ops);
        }
        let mut it = data.kind().value_uses();
        let ghost mut n: int = 0;
        loop
            invariant_except_break
                it.wf(),
                it.kind() == data@.kind,
                it.remaining() == ops.skip(n),
            invariant
                ops == value_uses(data@.kind),
                0 <= n <= ops.len(),
                self.values@ == remove_user(g1, ops.take(n), v),
                self.types == old(self).types,
                self.func_tys == old(self).func_tys,
                self.ids == old(self).ids,
            ensures
                n == ops.len(),
            decreases it.remaining().len(),
        {
            match it.next() {
                Some(u) => {
                    assert(u == ops[n]);
                    proof {
                        lemma_remove_user_step(g1, ops, n, v);
                        assert(ops.skip(n).skip(1) =~= ops.skip(n + 1));
                    }
                    self.values.remove_user(u, v);
                    proof {
                        n = n + 1;
                    }
                },
                None => {
                    break ;
                },
            }
        }
        proof {
            assert(ops.take(n) =~= ops);
            lemma_remove_global_consistent(g0, v);
            let g2 = self.values@;
            assert forall|x: Value| #[trigger] g2.contains_key(x) implies {
                &&& x.0 < self.ids.value_bound()
                &&& g2[x].ty.0 < self.types@.len()
                &&& valid_opt_name(g2[x].name)
                &&& forall|w: Value| g2[x].used_by.contains(w) ==> w.0 < self.ids.value_bound()
            } by {
                assert(g0.contains_key(x));
            }
        }
        Ok(data)
    }
}

} // verus!
