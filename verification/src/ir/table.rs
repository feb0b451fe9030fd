//! Maps from handles to records.

use crate::ir::entities::{
    subst_kind, BasicBlock, BasicBlockData, BasicBlockDataView, Function, Value, ValueData,
    ValueDataView,
};
use crate::ir::idman::{BasicBlockId, FunctionId, ValueId};
use crate::ir::types::Type;
use std::collections::HashMap;
use vstd::prelude::*;
use vstd::std_specs::iter::IteratorSpec;

verus! {

broadcast use vstd::std_specs::hash::group_hash_axioms;

/// The values of one scope, by handle.
pub type Values = Map<Value, ValueDataView>;

/// The basic blocks of one graph, by handle.
pub type Blocks = Map<BasicBlock, BasicBlockDataView>;

/// The record of `m[target]` with `user` added to its users.
pub open spec fn with_user(d: ValueDataView, user: Value) -> ValueDataView {
    ValueDataView { used_by: d.used_by.insert(user), ..d }
}

/// The record of `m[target]` with `user` taken from its users.
pub open spec fn without_user(d: ValueDataView, user: Value) -> ValueDataView {
    ValueDataView { used_by: d.used_by.remove(user), ..d }
}

/// The record of a block with `user` added to its users.
pub open spec fn block_with_user(d: BasicBlockDataView, user: Value) -> BasicBlockDataView {
    BasicBlockDataView { used_by: d.used_by.insert(user), ..d }
}

/// The record of a block with `user` taken from its users.
pub open spec fn block_without_user(d: BasicBlockDataView, user: Value) -> BasicBlockDataView {
    BasicBlockDataView { used_by: d.used_by.remove(user), ..d }
}

/// The record `d` without the users among `gone`.
pub open spec fn without_users(d: ValueDataView, gone: Set<Value>) -> ValueDataView {
    ValueDataView { used_by: d.used_by.difference(gone), ..d }
}

/// `m` with the users among `gone` taken from every list of users.
pub open spec fn without_users_in(m: Values, gone: Set<Value>) -> Values {
    Map::new(|k: Value| m.contains_key(k), |k: Value| without_users(m[k], gone))
}

/// A map from value handles to the records of the values.
pub struct ValueMap {
    map: HashMap<ValueId, ValueData>,
}

impl View for ValueMap {
    type V = Values;

    closed spec fn view(&self) -> Values {
        Map::new(|v: Value| self.map@.contains_key(v.0), |v: Value| self.map@[v.0]@)
    }
}

impl ValueMap {
    /// Creates an empty map.
    pub fn new() -> (r: ValueMap)
        ensures
            r@ == Values::empty(),
    {
        let r = ValueMap { map: HashMap::new() };
        assert(r@ =~= Values::empty());
        r
    }

    /// Whether the map holds a record for `v`.
    pub fn contains(&self, v: Value) -> (r: bool)
        ensures
            r == self@.contains_key(v),
    {
        self.map.contains_key(&v.0)
    }

    /// The record of `v`, if the map holds one.
    pub fn get(&self, v: Value) -> (r: Option<&ValueData>)
        ensures
            match r {
                Some(d) => self@.contains_key(v) && d@ == self@[v],
                None => !self@.contains_key(v),
            },
    {
        self.map.get(&v.0)
    }

    /// The number of records.
    pub fn len(&self) -> (r: usize)
        ensures
            r == self@.dom().len(),
            self@.dom().finite(),
    {
        let r = self.map.len();
        proof {
            self.lemma_dom();
        }
        r
    }

    /// The handles of the values, each once, in no particular order.
    pub fn handles(&self) -> (r: Vec<Value>)
        ensures
            r@.to_set() == self@.dom(),
            r@.no_duplicates(),
    {
        let mut out: Vec<Value> = Vec::new();
        let ghost all: Seq<ValueId> = vstd::std_specs::hash::spec_keys_iter(
            &self.map,
        ).remaining().unref();
        for x in it: self.map.keys()
            invariant
                out@.len() == it.index(),
                all == it.seq().unref(),
                forall|i: int| 0 <= i < out@.len() ==> (#[trigger] out@[i]).0 == *it.seq()[i],
                it.seq().unref().to_set() == self.map@.dom(),
                it.seq().no_duplicates(),
        {
            out.push(Value(*x));
        }
        proof {
            assert(out@.len() == all.len());
            assert forall|i: int, j: int| 0 <= i < j < out@.len() implies out@[i] != out@[j] by {
                assert(all[i] != all[j]);
            }
            assert forall|v: Value| out@.to_set().contains(v) <==> self@.dom().contains(v) by {
                if out@.to_set().contains(v) {
                    let i = choose|i: int| 0 <= i < out@.len() && out@[i] == v;
                    assert(all[i] == v.0);
                    assert(all.to_set().contains(v.0));
                }
                if self@.dom().contains(v) {
                    assert(all.to_set().contains(v.0));
                    let i = choose|i: int| 0 <= i < all.len() && all[i] == v.0;
                    assert(out@[i] == v);
                }
            }
            assert(out@.to_set() =~= self@.dom());
        }
        out
    }

    proof fn lemma_dom(&self)
        ensures
            self@.dom().finite(),
            self@.dom().len() == self.map@.dom().len(),
    {
        let ids = self.map@.dom();
        let f = |id: ValueId| Value(id);
        assert(self@.dom() =~= ids.map(f)) by {
            assert forall|v: Value| self@.dom().contains(v) <==> ids.map(f).contains(v) by {
                if self@.dom().contains(v) {
                    assert(ids.contains(v.0) && v == f(v.0));
                }
            }
        }
        ids.lemma_map_finite(f);
        assert(vstd::relations::injective(f));
        vstd::set_lib::lemma_map_size(ids, ids.map(f), f);
    }

    pub(crate) fn insert(&mut self, v: Value, data: ValueData)
        ensures
            final(self)@ == old(self)@.insert(v, data@),
    {
        self.map.insert(v.0, data);
        assert(self@ =~= old(self)@.insert(v, data@));
    }

    pub(crate) fn remove(&mut self, v: Value) -> (r: Option<ValueData>)
        ensures
            final(self)@ == old(self)@.remove(v),
            match r {
                Some(d) => old(self)@.contains_key(v) && d@ == old(self)@[v],
                None => !old(self)@.contains_key(v),
            },
    {
        let r = self.map.remove(&v.0);
        assert(self@ =~= old(self)@.remove(v));
        r
    }

    /// Adds `user` to the users of `target`, where the map holds `target`.
    pub(crate) fn add_user(&mut self, target: Value, user: Value) -> (r: bool)
        ensures
            r == old(self)@.contains_key(target),
            r ==> final(self)@ == old(self)@.insert(target, with_user(old(self)@[target], user)),
            !r ==> final(self)@ == old(self)@,
    {
        match self.map.remove(&target.0) {
            Some(mut d) => {
                d.add_user(user);
                self.map.insert(target.0, d);
                assert(self@ =~= old(self)@.insert(target, with_user(old(self)@[target], user)));
                true
            },
            None => {
                assert(self@ =~= old(self)@);
                false
            },
        }
    }

    /// Takes `user` from the users of `target`, where the map holds `target`.
    pub(crate) fn remove_user(&mut self, target: Value, user: Value) -> (r: bool)
        ensures
            r == old(self)@.contains_key(target),
            r ==> final(self)@ == old(self)@.insert(
                target,
                without_user(old(self)@[target], user),
            ),
            !r ==> final(self)@ == old(self)@,
    {
        match self.map.remove(&target.0) {
            Some(mut d) => {
                d.remove_user(user);
                self.map.insert(target.0, d);
                assert(self@ =~= old(self)@.insert(
                    target,
                    without_user(old(self)@[target], user),
                ));
                true
            },
            None => {
                assert(self@ =~= old(self)@);
                false
            },
        }
    }
}

impl ValueMap {
    /// Replaces the operand `a` by `b` in the kind of `target`, where the map
    /// holds `target`.
    pub(crate) fn replace_operand(&mut self, target: Value, a: Value, b: Value) -> (r: bool)
        ensures
            r == old(self)@.contains_key(target),
            r ==> final(self)@ == old(self)@.insert(
                target,
                ValueDataView {
                    kind: subst_kind(old(self)@[target].kind, a, b),
                    ..old(self)@[target]
                },
            ),
            !r ==> final(self)@ == old(self)@,
    {
        match self.map.remove(&target.0) {
            Some(mut d) => {
                d.replace_operand(a, b);
                self.map.insert(target.0, d);
                assert(self@ =~= old(self)@.insert(
                    target,
                    ValueDataView {
                        kind: subst_kind(old(self)@[target].kind, a, b),
                        ..old(self)@[target]
                    },
                ));
                true
            },
            None => {
                assert(self@ =~= old(self)@);
                false
            },
        }
    }

    /// Empties the users of `target`, where the map holds `target`.
    pub(crate) fn clear_users(&mut self, target: Value) -> (r: bool)
        ensures
            r == old(self)@.contains_key(target),
            r ==> final(self)@ == old(self)@.insert(
                target,
                ValueDataView { used_by: Set::<Value>::empty(), ..old(self)@[target] },
            ),
            !r ==> final(self)@ == old(self)@,
    {
        match self.map.remove(&target.0) {
            Some(mut d) => {
                d.clear_users();
                self.map.insert(target.0, d);
                assert(self@ =~= old(self)@.insert(
                    target,
                    ValueDataView { used_by: Set::<Value>::empty(), ..old(self)@[target] },
                ));
                true
            },
            None => {
                assert(self@ =~= old(self)@);
                false
            },
        }
    }

    /// Adds `users` to the users of `target`, where the map holds `target`.
    pub(crate) fn add_users(&mut self, target: Value, users: &Vec<Value>) -> (r: bool)
        ensures
            r == old(self)@.contains_key(target),
            r ==> final(self)@ == old(self)@.insert(
                target,
                ValueDataView {
                    used_by: old(self)@[target].used_by.union(users@.to_set()),
                    ..old(self)@[target]
                },
            ),
            !r ==> final(self)@ == old(self)@,
    {
        match self.map.remove(&target.0) {
            Some(mut d) => {
                d.add_users(users);
                self.map.insert(target.0, d);
                assert(self@ =~= old(self)@.insert(
                    target,
                    ValueDataView {
                        used_by: old(self)@[target].used_by.union(users@.to_set()),
                        ..old(self)@[target]
                    },
                ));
                true
            },
            None => {
                assert(self@ =~= old(self)@);
                false
            },
        }
    }
}

impl ValueMap {
    /// Takes the users that `other` holds from the users of `target`, where
    /// the map holds `target`.
    fn drop_users_of(&mut self, target: Value, other: &ValueMap)
        ensures
            final(self)@ == (if old(self)@.contains_key(target) {
                old(self)@.insert(target, without_users(old(self)@[target], other@.dom()))
            } else {
                old(self)@
            }),
    {
        match self.map.remove(&target.0) {
            Some(mut d) => {
                let ghost d0 = d@;
                let users = d.used_by();
                let mut i: usize = 0;
                assert(d0.used_by.difference(users@.take(0).to_set().intersect(other@.dom()))
                    =~= d0.used_by);
                while i < users.len()
                    invariant
                        i <= users.len(),
                        users@.to_set() == d0.used_by,
                        d@ == (ValueDataView {
                            used_by: d0.used_by.difference(
                                users@.take(i as int).to_set().intersect(other@.dom()),
                            ),
                            ..d0
                        }),
                    decreases users.len() - i,
                {
                    let w = users[i];
                    proof {
                        let before = users@.take(i as int);
                        let after = users@.take(i + 1);
                        assert(after =~= before.push(w));
                        assert forall|k: Value| after.to_set().contains(k) <==> (before.to_set().contains(
                            k,
                        ) || k == w) by {
                            if before.contains(k) {
                                let j = choose|j: int| 0 <= j < before.len() && before[j] == k;
                                assert(after[j] == k);
                            }
                            if k == w {
                                assert(after[i as int] == k);
                            }
                            if after.contains(k) {
                                let j = choose|j: int| 0 <= j < after.len() && after[j] == k;
                                if j < i {
                                    assert(before[j] == k);
                                }
                            }
                        }
                    }
                    if other.contains(w) {
                        d.remove_user(w);
                        assert(d@.used_by =~= d0.used_by.difference(
                            users@.take(i + 1).to_set().intersect(other@.dom()),
                        ));
                    } else {
                        assert(d@.used_by =~= d0.used_by.difference(
                            users@.take(i + 1).to_set().intersect(other@.dom()),
                        ));
                    }
                    i = i + 1;
                }
                proof {
                    assert(users@.take(i as int) =~= users@);
                    assert(d0.used_by.difference(d0.used_by.intersect(other@.dom()))
                        =~= d0.used_by.difference(other@.dom()));
                }
                self.map.insert(target.0, d);
                assert(self@ =~= old(self)@.insert(
                    target,
                    without_users(old(self)@[target], other@.dom()),
                ));
            },
            None => {
                assert(self@ =~= old(self)@);
            },
        }
    }

    /// Takes the users that `other` holds from every list of users.
    pub(crate) fn drop_users_in(&mut self, other: &ValueMap)
        ensures
            final(self)@ == without_users_in(old(self)@, other@.dom()),
    {
        let targets = self.handles();
        let ghost m0 = self@;
        let ghost gone = other@.dom();
        let mut i: usize = 0;
        while i < targets.len()
            invariant
                i <= targets.len(),
                targets@.to_set() == m0.dom(),
                targets@.no_duplicates(),
                gone == other@.dom(),
                self@.dom() == m0.dom(),
                forall|k: Value|
                    m0.contains_key(k) ==> #[trigger] self@[k] == (if targets@.take(
                        i as int,
                    ).contains(k) {
                        without_users(m0[k], gone)
                    } else {
                        m0[k]
                    }),
            decreases targets.len() - i,
        {
            let t = targets[i];
            proof {
                let before = targets@.take(i as int);
                let after = targets@.take(i + 1);
                assert(after =~= before.push(t));
                assert(targets@.to_set().contains(t));
                assert(!before.contains(t)) by {
                    if before.contains(t) {
                        let j = choose|j: int| 0 <= j < before.len() && before[j] == t;
                        assert(targets@[j] == targets@[i as int]);
                    }
                }
                assert forall|k: Value| after.contains(k) <==> (before.contains(k) || k == t) by {
                    if before.contains(k) {
                        let j = choose|j: int| 0 <= j < before.len() && before[j] == k;
                        assert(after[j] == k);
                    }
                    if k == t {
                        assert(after[i as int] == k);
                    }
                }
            }
            let ghost mid = self@;
            self.drop_users_of(t, other);
            assert(self@.dom() =~= m0.dom());
            i = i + 1;
        }
        proof {
            assert(targets@.take(i as int) =~= targets@);
            assert forall|k: Value| m0.contains_key(k) implies targets@.contains(k) by {
                assert(targets@.to_set().contains(k));
            }
            assert(self@ =~= without_users_in(m0, gone));
        }
    }
}

/// A map from basic block handles to the records of the blocks.
pub struct BlockMap {
    map: HashMap<BasicBlockId, BasicBlockData>,
}

impl View for BlockMap {
    type V = Blocks;

    closed spec fn view(&self) -> Blocks {
        Map::new(|b: BasicBlock| self.map@.contains_key(b.0), |b: BasicBlock| self.map@[b.0]@)
    }
}

impl BlockMap {
    /// Creates an empty map.
    pub fn new() -> (r: BlockMap)
        ensures
            r@ == Blocks::empty(),
    {
        let r = BlockMap { map: HashMap::new() };
        assert(r@ =~= Blocks::empty());
        r
    }

    /// Whether the map holds a record for `bb`.
    pub fn contains(&self, bb: BasicBlock) -> (r: bool)
        ensures
            r == self@.contains_key(bb),
    {
        self.map.contains_key(&bb.0)
    }

    /// The record of `bb`, if the map holds one.
    pub fn get(&self, bb: BasicBlock) -> (r: Option<&BasicBlockData>)
        ensures
            match r {
                Some(d) => self@.contains_key(bb) && d@ == self@[bb],
                None => !self@.contains_key(bb),
            },
    {
        self.map.get(&bb.0)
    }

    /// The handles of the basic blocks, each once, in no particular order.
    pub fn handles(&self) -> (r: Vec<BasicBlock>)
        ensures
            r@.to_set() == self@.dom(),
            r@.no_duplicates(),
    {
        let mut out: Vec<BasicBlock> = Vec::new();
        let ghost all: Seq<BasicBlockId> = vstd::std_specs::hash::spec_keys_iter(
            &self.map,
        ).remaining().unref();
        for x in it: self.map.keys()
            invariant
                out@.len() == it.index(),
                all == it.seq().unref(),
                forall|i: int| 0 <= i < out@.len() ==> (#[trigger] out@[i]).0 == *it.seq()[i],
                it.seq().unref().to_set() == self.map@.dom(),
                it.seq().no_duplicates(),
        {
            out.push(BasicBlock(*x));
        }
        proof {
            assert(out@.len() == all.len());
            assert forall|i: int, j: int| 0 <= i < j < out@.len() implies out@[i] != out@[j] by {
                assert(all[i] != all[j]);
            }
            assert forall|b: BasicBlock| out@.to_set().contains(b) <==> self@.dom().contains(b) by {
                if out@.to_set().contains(b) {
                    let i = choose|i: int| 0 <= i < out@.len() && out@[i] == b;
                    assert(all[i] == b.0);
                    assert(all.to_set().contains(b.0));
                }
                if self@.dom().contains(b) {
                    assert(all.to_set().contains(b.0));
                    let i = choose|i: int| 0 <= i < all.len() && all[i] == b.0;
                    assert(out@[i] == b);
                }
            }
            assert(out@.to_set() =~= self@.dom());
        }
        out
    }

    pub(crate) fn insert(&mut self, bb: BasicBlock, data: BasicBlockData)
        ensures
            final(self)@ == old(self)@.insert(bb, data@),
    {
        self.map.insert(bb.0, data);
        assert(self@ =~= old(self)@.insert(bb, data@));
    }

    pub(crate) fn remove(&mut self, bb: BasicBlock) -> (r: Option<BasicBlockData>)
        ensures
            final(self)@ == old(self)@.remove(bb),
            match r {
                Some(d) => old(self)@.contains_key(bb) && d@ == old(self)@[bb],
                None => !old(self)@.contains_key(bb),
            },
    {
        let r = self.map.remove(&bb.0);
        assert(self@ =~= old(self)@.remove(bb));
        r
    }

    /// Adds `user` to the users of `target`, where the map holds `target`.
    pub(crate) fn add_user(&mut self, target: BasicBlock, user: Value) -> (r: bool)
        ensures
            r == old(self)@.contains_key(target),
            r ==> final(self)@ == old(self)@.insert(
                target,
                block_with_user(old(self)@[target], user),
            ),
            !r ==> final(self)@ == old(self)@,
    {
        match self.map.remove(&target.0) {
            Some(mut d) => {
                d.add_user(user);
                self.map.insert(target.0, d);
                assert(self@ =~= old(self)@.insert(
                    target,
                    block_with_user(old(self)@[target], user),
                ));
                true
            },
            None => {
                assert(self@ =~= old(self)@);
                false
            },
        }
    }

    /// Takes `user` from the users of `target`, where the map holds `target`.
    pub(crate) fn remove_user(&mut self, target: BasicBlock, user: Value) -> (r: bool)
        ensures
            r == old(self)@.contains_key(target),
            r ==> final(self)@ == old(self)@.insert(
                target,
                block_without_user(old(self)@[target], user),
            ),
            !r ==> final(self)@ == old(self)@,
    {
        match self.map.remove(&target.0) {
            Some(mut d) => {
                d.remove_user(user);
                self.map.insert(target.0, d);
                assert(self@ =~= old(self)@.insert(
                    target,
                    block_without_user(old(self)@[target], user),
                ));
                true
            },
            None => {
                assert(self@ =~= old(self)@);
                false
            },
        }
    }
}

/// A map from function handles to the types of the functions.
pub struct FuncTypes {
    map: HashMap<FunctionId, Type>,
}

impl View for FuncTypes {
    type V = Map<Function, Type>;

    closed spec fn view(&self) -> Map<Function, Type> {
        Map::new(|f: Function| self.map@.contains_key(f.0), |f: Function| self.map@[f.0])
    }
}

impl FuncTypes {
    /// Creates an empty map.
    pub fn new() -> (r: FuncTypes)
        ensures
            r@ == Map::<Function, Type>::empty(),
    {
        let r = FuncTypes { map: HashMap::new() };
        assert(r@ =~= Map::<Function, Type>::empty());
        r
    }

    /// The type of `f`, if the map holds one.
    pub fn get(&self, f: Function) -> (r: Option<Type>)
        ensures
            match r {
                Some(t) => self@.contains_key(f) && t == self@[f],
                None => !self@.contains_key(f),
            },
    {
        match self.map.get(&f.0) {
            Some(t) => Some(*t),
            None => None,
        }
    }

    pub(crate) fn insert(&mut self, f: Function, ty: Type)
        ensures
            final(self)@ == old(self)@.insert(f, ty),
    {
        self.map.insert(f.0, ty);
        assert(self@ =~= old(self)@.insert(f, ty));
    }

    pub(crate) fn remove(&mut self, f: Function)
        ensures
            final(self)@ == old(self)@.remove(f),
    {
        self.map.remove(&f.0);
        assert(self@ =~= old(self)@.remove(f));
    }
}

} // verus!
