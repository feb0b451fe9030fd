//! The use–def relation as a relation between maps of records: what it
//! means for it to be consistent, and that creating, removing and rewiring
//! values keeps it so.

use crate::ir::entities::{
    bb_uses, lemma_subst_kind, subst, subst_kind, subst_seq, value_uses, BasicBlock, Value,
    ValueDataView,
};
use crate::ir::table::{
    block_with_user, block_without_user, with_user, without_user, Blocks, Values,
};
use vstd::prelude::*;

verus! {

/// `v` names a value of the local scope `l` or of the global scope `g`.
pub open spec fn in_scope(l: Values, g: Values, v: Value) -> bool {
    l.contains_key(v) || g.contains_key(v)
}

/// The record that `v` names, looked for in the local scope first.
pub open spec fn record(l: Values, g: Values, v: Value) -> ValueDataView {
    if l.contains_key(v) {
        l[v]
    } else {
        g[v]
    }
}

/// No handle names a value in both scopes.
pub open spec fn scopes_disjoint(l: Values, g: Values) -> bool {
    forall|v: Value| #[trigger] l.contains_key(v) ==> !g.contains_key(v)
}

/// Every operand of every value of `l` is in scope and lists the value among
/// its users.
pub open spec fn uses_recorded(l: Values, g: Values) -> bool {
    forall|v: Value, i: int|
        #![trigger value_uses(l[v].kind)[i]]
        l.contains_key(v) && 0 <= i < value_uses(l[v].kind).len() ==> in_scope(
            l,
            g,
            value_uses(l[v].kind)[i],
        ) && record(l, g, value_uses(l[v].kind)[i]).used_by.contains(v)
}

/// Every user that a value of `m` lists, and that `users` holds, has the
/// value among its operands.
pub open spec fn users_real(m: Values, users: Values) -> bool {
    forall|u: Value, w: Value|
        #![trigger m[u].used_by.contains(w)]
        m.contains_key(u) && m[u].used_by.contains(w) && users.contains_key(w) ==> value_uses(
            users[w].kind,
        ).contains(u)
}

/// Every user that a value of `l` lists is a value of `l`.
pub open spec fn users_local(l: Values) -> bool {
    forall|u: Value, w: Value|
        #![trigger l[u].used_by.contains(w)]
        l.contains_key(u) && l[u].used_by.contains(w) ==> l.contains_key(w)
}

/// Every basic block that a value of `l` names is a block of `b` and lists
/// the value among its users.
pub open spec fn bb_uses_recorded(l: Values, b: Blocks) -> bool {
    forall|v: Value, i: int|
        #![trigger bb_uses(l[v].kind)[i]]
        l.contains_key(v) && 0 <= i < bb_uses(l[v].kind).len() ==> b.contains_key(
            bb_uses(l[v].kind)[i],
        ) && b[bb_uses(l[v].kind)[i]].used_by.contains(v)
}

/// Every user that a block of `b` lists is a value of `l` that names the
/// block.
pub open spec fn bb_users_real(b: Blocks, l: Values) -> bool {
    forall|bb: BasicBlock, w: Value|
        #![trigger b[bb].used_by.contains(w)]
        b.contains_key(bb) && b[bb].used_by.contains(w) ==> l.contains_key(w) && bb_uses(
            l[w].kind,
        ).contains(bb)
}

/// No value of `m` lists `v` among its users.
pub open spec fn unused_in(m: Values, v: Value) -> bool {
    forall|u: Value| #[trigger] m.contains_key(u) ==> !m[u].used_by.contains(v)
}

/// No block of `b` lists `v` among its users.
pub open spec fn unused_in_blocks(b: Blocks, v: Value) -> bool {
    forall|bb: BasicBlock| #[trigger] b.contains_key(bb) ==> !b[bb].used_by.contains(v)
}

/// The use–def relation between the values of a graph, the global values
/// around it and its basic blocks is consistent in both directions.
pub open spec fn graph_consistent(l: Values, g: Values, b: Blocks) -> bool {
    &&& scopes_disjoint(l, g)
    &&& uses_recorded(l, g)
    &&& users_local(l)
    &&& users_real(l, l)
    &&& users_real(g, l)
    &&& bb_uses_recorded(l, b)
    &&& bb_users_real(b, l)
}

/// The use–def relation among global values is consistent: operands of
/// global values are global values that list their users, and a user that is
/// itself a global value has the value among its operands. Global values name
/// no basic blocks.
pub open spec fn globals_consistent(g: Values) -> bool {
    &&& uses_recorded(g, Values::empty())
    &&& users_real(g, g)
    &&& forall|v: Value| #[trigger] g.contains_key(v) ==> bb_uses(g[v].kind).len() == 0
}

/// `m` with `user` added to the users of each of `targets` that it holds.
pub open spec fn add_user(m: Values, targets: Seq<Value>, user: Value) -> Values {
    Map::new(
        |k: Value| m.contains_key(k),
        |k: Value|
            if targets.contains(k) {
                with_user(m[k], user)
            } else {
                m[k]
            },
    )
}

/// `m` with `user` taken from the users of each of `targets` that it holds.
pub open spec fn remove_user(m: Values, targets: Seq<Value>, user: Value) -> Values {
    Map::new(
        |k: Value| m.contains_key(k),
        |k: Value|
            if targets.contains(k) {
                without_user(m[k], user)
            } else {
                m[k]
            },
    )
}

/// `b` with `user` added to the users of each of `targets` that it holds.
pub open spec fn block_add_user(b: Blocks, targets: Seq<BasicBlock>, user: Value) -> Blocks {
    Map::new(
        |k: BasicBlock| b.contains_key(k),
        |k: BasicBlock|
            if targets.contains(k) {
                block_with_user(b[k], user)
            } else {
                b[k]
            },
    )
}

/// `b` with `user` taken from the users of each of `targets` that it holds.
pub open spec fn block_remove_user(b: Blocks, targets: Seq<BasicBlock>, user: Value) -> Blocks {
    Map::new(
        |k: BasicBlock| b.contains_key(k),
        |k: BasicBlock|
            if targets.contains(k) {
                block_without_user(b[k], user)
            } else {
                b[k]
            },
    )
}

/// Adding a user to no target changes nothing.
pub proof fn lemma_add_user_none(m: Values, user: Value)
    ensures
        add_user(m, Seq::empty(), user) == m,
        remove_user(m, Seq::empty(), user) == m,
{
    assert(add_user(m, Seq::empty(), user) =~= m);
    assert(remove_user(m, Seq::empty(), user) =~= m);
}

/// Adding a user to no block changes nothing.
pub proof fn lemma_block_add_user_none(b: Blocks, user: Value)
    ensures
        block_add_user(b, Seq::empty(), user) == b,
        block_remove_user(b, Seq::empty(), user) == b,
{
    assert(block_add_user(b, Seq::empty(), user) =~= b);
    assert(block_remove_user(b, Seq::empty(), user) =~= b);
}

/// Adding a user target by target: one further target.
pub proof fn lemma_add_user_step(m: Values, targets: Seq<Value>, n: int, user: Value)
    requires
        0 <= n < targets.len(),
    ensures
        add_user(m, targets.take(n + 1), user) == (if m.contains_key(targets[n]) {
            add_user(m, targets.take(n), user).insert(
                targets[n],
                with_user(add_user(m, targets.take(n), user)[targets[n]], user),
            )
        } else {
            add_user(m, targets.take(n), user)
        }),
{
    let t = targets[n];
    let before = add_user(m, targets.take(n), user);
    let after = add_user(m, targets.take(n + 1), user);
    assert(targets.take(n + 1) =~= targets.take(n).push(t));
    assert forall|k: Value| targets.take(n + 1).contains(k) <==> (targets.take(n).contains(k) || k
        == t) by {
        if targets.take(n).contains(k) {
            let i = choose|i: int| 0 <= i < n && targets.take(n)[i] == k;
            assert(targets.take(n + 1)[i] == k);
        }
        if k == t {
            assert(targets.take(n + 1)[n] == k);
        }
    }
    if m.contains_key(t) {
        let d = before[t];
        assert(with_user(with_user(m[t], user), user).used_by =~= with_user(m[t], user).used_by);
        assert(after =~= before.insert(t, with_user(d, user)));
    } else {
        assert(after =~= before);
    }
}

/// Taking a user away target by target: one further target.
pub proof fn lemma_remove_user_step(m: Values, targets: Seq<Value>, n: int, user: Value)
    requires
        0 <= n < targets.len(),
    ensures
        remove_user(m, targets.take(n + 1), user) == (if m.contains_key(targets[n]) {
            remove_user(m, targets.take(n), user).insert(
                targets[n],
                without_user(remove_user(m, targets.take(n), user)[targets[n]], user),
            )
        } else {
            remove_user(m, targets.take(n), user)
        }),
{
    let t = targets[n];
    let before = remove_user(m, targets.take(n), user);
    let after = remove_user(m, targets.take(n + 1), user);
    assert(targets.take(n + 1) =~= targets.take(n).push(t));
    assert forall|k: Value| targets.take(n + 1).contains(k) <==> (targets.take(n).contains(k) || k
        == t) by {
        if targets.take(n).contains(k) {
            let i = choose|i: int| 0 <= i < n && targets.take(n)[i] == k;
            assert(targets.take(n + 1)[i] == k);
        }
        if k == t {
            assert(targets.take(n + 1)[n] == k);
        }
    }
    if m.contains_key(t) {
        let d = before[t];
        assert(without_user(without_user(m[t], user), user).used_by =~= without_user(
            m[t],
            user,
        ).used_by);
        assert(after =~= before.insert(t, without_user(d, user)));
    } else {
        assert(after =~= before);
    }
}

/// Adding a user block by block: one further block.
pub proof fn lemma_block_add_user_step(b: Blocks, targets: Seq<BasicBlock>, n: int, user: Value)
    requires
        0 <= n < targets.len(),
    ensures
        block_add_user(b, targets.take(n + 1), user) == (if b.contains_key(targets[n]) {
            block_add_user(b, targets.take(n), user).insert(
                targets[n],
                block_with_user(block_add_user(b, targets.take(n), user)[targets[n]], user),
            )
        } else {
            block_add_user(b, targets.take(n), user)
        }),
{
    let t = targets[n];
    let before = block_add_user(b, targets.take(n), user);
    let after = block_add_user(b, targets.take(n + 1), user);
    assert(targets.take(n + 1) =~= targets.take(n).push(t));
    assert forall|k: BasicBlock| targets.take(n + 1).contains(k) <==> (targets.take(n).contains(k)
        || k == t) by {
        if targets.take(n).contains(k) {
            let i = choose|i: int| 0 <= i < n && targets.take(n)[i] == k;
            assert(targets.take(n + 1)[i] == k);
        }
        if k == t {
            assert(targets.take(n + 1)[n] == k);
        }
    }
    if b.contains_key(t) {
        let d = before[t];
        assert(block_with_user(block_with_user(b[t], user), user).used_by =~= block_with_user(
            b[t],
            user,
        ).used_by);
        assert(after =~= before.insert(t, block_with_user(d, user)));
    } else {
        assert(after =~= before);
    }
}

/// Taking a user away block by block: one further block.
pub proof fn lemma_block_remove_user_step(
    b: Blocks,
    targets: Seq<BasicBlock>,
    n: int,
    user: Value,
)
    requires
        0 <= n < targets.len(),
    ensures
        block_remove_user(b, targets.take(n + 1), user) == (if b.contains_key(targets[n]) {
            block_remove_user(b, targets.take(n), user).insert(
                targets[n],
                block_without_user(block_remove_user(b, targets.take(n), user)[targets[n]], user),
            )
        } else {
            block_remove_user(b, targets.take(n), user)
        }),
{
    let t = targets[n];
    let before = block_remove_user(b, targets.take(n), user);
    let after = block_remove_user(b, targets.take(n + 1), user);
    assert(targets.take(n + 1) =~= targets.take(n).push(t));
    assert forall|k: BasicBlock| targets.take(n + 1).contains(k) <==> (targets.take(n).contains(k)
        || k == t) by {
        if targets.take(n).contains(k) {
            let i = choose|i: int| 0 <= i < n && targets.take(n)[i] == k;
            assert(targets.take(n + 1)[i] == k);
        }
        if k == t {
            assert(targets.take(n + 1)[n] == k);
        }
    }
    if b.contains_key(t) {
        let d = before[t];
        assert(block_without_user(block_without_user(b[t], user), user).used_by
            =~= block_without_user(b[t], user).used_by);
        assert(after =~= before.insert(t, block_without_user(d, user)));
    } else {
        assert(after =~= before);
    }
}

/// The local scope after a value `v` with record `d` has entered it.
pub open spec fn locals_after_insert(l: Values, v: Value, d: ValueDataView) -> Values {
    add_user(l, value_uses(d.kind), v).insert(v, d)
}

/// The local scope after the value `v` has left it.
pub open spec fn locals_after_remove(l: Values, v: Value) -> Values {
    remove_user(l.remove(v), value_uses(l[v].kind), v)
}

/// Creating a value keeps the use–def relation consistent: the value is new
/// to both scopes and to every list of users, it has no users itself, and its
/// operands and basic blocks exist.
pub proof fn lemma_insert_consistent(l: Values, g: Values, b: Blocks, v: Value, d: ValueDataView)
    requires
        graph_consistent(l, g, b),
        !in_scope(l, g, v),
        unused_in(l, v),
        unused_in(g, v),
        unused_in_blocks(b, v),
        d.used_by == Set::<Value>::empty(),
        forall|i: int| 0 <= i < value_uses(d.kind).len() ==> in_scope(l, g, value_uses(d.kind)[i]),
        forall|i: int| 0 <= i < bb_uses(d.kind).len() ==> b.contains_key(bb_uses(d.kind)[i]),
    ensures
        graph_consistent(
            locals_after_insert(l, v, d),
            add_user(g, value_uses(d.kind), v),
            block_add_user(b, bb_uses(d.kind), v),
        ),
{
    let ops = value_uses(d.kind);
    let bbs = bb_uses(d.kind);
    let l2 = locals_after_insert(l, v, d);
    let g2 = add_user(g, ops, v);
    let b2 = block_add_user(b, bbs, v);
    assert forall|w: Value, i: int|
        #![trigger value_uses(l2[w].kind)[i]]
        l2.contains_key(w) && 0 <= i < value_uses(l2[w].kind).len() implies in_scope(
        l2,
        g2,
        value_uses(l2[w].kind)[i],
    ) && record(l2, g2, value_uses(l2[w].kind)[i]).used_by.contains(w) by {
        let u = value_uses(l2[w].kind)[i];
        if w == v {
            assert(in_scope(l, g, ops[i]));
            assert(ops.contains(u));
        } else {
            assert(l.contains_key(w));
            assert(l2[w].kind == l[w].kind);
            assert(in_scope(l, g, value_uses(l[w].kind)[i]));
            assert(record(l, g, u).used_by.contains(w));
        }
    }
    assert forall|u: Value, w: Value|
        #![trigger l2[u].used_by.contains(w)]
        l2.contains_key(u) && l2[u].used_by.contains(w) implies l2.contains_key(w) && value_uses(
        l2[w].kind,
    ).contains(u) by {
        if u != v {
            assert(l.contains_key(u));
            if w == v {
                assert(!l[u].used_by.contains(v));
                assert(ops.contains(u));
            } else {
                assert(l[u].used_by.contains(w));
            }
        }
    }
    assert forall|u: Value, w: Value|
        #![trigger g2[u].used_by.contains(w)]
        g2.contains_key(u) && g2[u].used_by.contains(w) && l2.contains_key(w) implies value_uses(
        l2[w].kind,
    ).contains(u) by {
        assert(g.contains_key(u));
        if w == v {
            assert(!g[u].used_by.contains(v));
            assert(ops.contains(u));
        } else {
            assert(g[u].used_by.contains(w));
        }
    }
    assert forall|w: Value, i: int|
        #![trigger bb_uses(l2[w].kind)[i]]
        l2.contains_key(w) && 0 <= i < bb_uses(l2[w].kind).len() implies b2.contains_key(
        bb_uses(l2[w].kind)[i],
    ) && b2[bb_uses(l2[w].kind)[i]].used_by.contains(w) by {
        let bb = bb_uses(l2[w].kind)[i];
        if w == v {
            assert(b.contains_key(bbs[i]));
            assert(bbs.contains(bb));
        } else {
            assert(l2[w].kind == l[w].kind);
            assert(b.contains_key(bb_uses(l[w].kind)[i]));
        }
    }
    assert forall|bb: BasicBlock, w: Value|
        #![trigger b2[bb].used_by.contains(w)]
        b2.contains_key(bb) && b2[bb].used_by.contains(w) implies l2.contains_key(w) && bb_uses(
        l2[w].kind,
    ).contains(bb) by {
        assert(b.contains_key(bb));
        if w == v {
            assert(!b[bb].used_by.contains(v));
            assert(bbs.contains(bb));
        } else {
            assert(b[bb].used_by.contains(w));
        }
    }
    assert(scopes_disjoint(l2, g2)) by {
        assert forall|x: Value| #[trigger] l2.contains_key(x) implies !g2.contains_key(x) by {
            if x != v {
                assert(l.contains_key(x));
            }
        }
    }
}

/// Creating a global value keeps the use–def relation among global values
/// consistent.
pub proof fn lemma_insert_global_consistent(g: Values, v: Value, d: ValueDataView)
    requires
        globals_consistent(g),
        !g.contains_key(v),
        unused_in(g, v),
        d.used_by == Set::<Value>::empty(),
        bb_uses(d.kind).len() == 0,
        forall|i: int| 0 <= i < value_uses(d.kind).len() ==> g.contains_key(value_uses(d.kind)[i]),
    ensures
        globals_consistent(locals_after_insert(g, v, d)),
{
    let ops = value_uses(d.kind);
    let g2 = locals_after_insert(g, v, d);
    let e = Values::empty();
    assert forall|w: Value, i: int|
        #![trigger value_uses(g2[w].kind)[i]]
        g2.contains_key(w) && 0 <= i < value_uses(g2[w].kind).len() implies in_scope(
        g2,
        e,
        value_uses(g2[w].kind)[i],
    ) && record(g2, e, value_uses(g2[w].kind)[i]).used_by.contains(w) by {
        let u = value_uses(g2[w].kind)[i];
        if w == v {
            assert(g.contains_key(ops[i]));
            assert(ops.contains(u));
        } else {
            assert(g.contains_key(w));
            assert(g2[w].kind == g[w].kind);
            assert(in_scope(g, e, value_uses(g[w].kind)[i]));
            assert(record(g, e, u).used_by.contains(w));
        }
    }
    assert forall|u: Value, w: Value|
        #![trigger g2[u].used_by.contains(w)]
        g2.contains_key(u) && g2[u].used_by.contains(w) && g2.contains_key(w) implies value_uses(
        g2[w].kind,
    ).contains(u) by {
        if u != v {
            assert(g.contains_key(u));
            if w == v {
                assert(!g[u].used_by.contains(v));
                assert(ops.contains(u));
            } else {
                assert(g[u].used_by.contains(w));
            }
        }
    }
    assert forall|w: Value| #[trigger] g2.contains_key(w) implies bb_uses(g2[w].kind).len()
        == 0 by {
        if w != v {
            assert(g.contains_key(w));
        }
    }
}

/// A change of the users that global values list which touches no user that
/// is itself global keeps the use–def relation among global values
/// consistent.
pub proof fn lemma_globals_stay_consistent(g: Values, g2: Values)
    requires
        globals_consistent(g),
        g2.dom() == g.dom(),
        forall|u: Value| #[trigger]
            g.contains_key(u) ==> g2[u].kind == g[u].kind && forall|w: Value|
                g.contains_key(w) ==> (g2[u].used_by.contains(w) <==> g[u].used_by.contains(w)),
    ensures
        globals_consistent(g2),
{
    let e = Values::empty();
    assert forall|w: Value, i: int|
        #![trigger value_uses(g2[w].kind)[i]]
        g2.contains_key(w) && 0 <= i < value_uses(g2[w].kind).len() implies in_scope(
        g2,
        e,
        value_uses(g2[w].kind)[i],
    ) && record(g2, e, value_uses(g2[w].kind)[i]).used_by.contains(w) by {
        let u = value_uses(g2[w].kind)[i];
        assert(g.contains_key(w));
        assert(in_scope(g, e, value_uses(g[w].kind)[i]));
        assert(record(g, e, u).used_by.contains(w));
        assert(g.contains_key(u));
    }
    assert forall|u: Value, w: Value|
        #![trigger g2[u].used_by.contains(w)]
        g2.contains_key(u) && g2[u].used_by.contains(w) && g2.contains_key(w) implies value_uses(
        g2[w].kind,
    ).contains(u) by {
        assert(g.contains_key(u));
        assert(g.contains_key(w));
        assert(g[u].used_by.contains(w));
    }
    assert forall|w: Value| #[trigger] g2.contains_key(w) implies bb_uses(g2[w].kind).len()
        == 0 by {
        assert(g.contains_key(w));
    }
}

/// Removing a value that has no users keeps the use–def relation consistent.
pub proof fn lemma_remove_consistent(l: Values, g: Values, b: Blocks, v: Value)
    requires
        graph_consistent(l, g, b),
        l.contains_key(v),
        l[v].used_by == Set::<Value>::empty(),
    ensures
        graph_consistent(
            locals_after_remove(l, v),
            remove_user(g, value_uses(l[v].kind), v),
            block_remove_user(b, bb_uses(l[v].kind), v),
        ),
        unused_in(locals_after_remove(l, v), v),
        unused_in_blocks(block_remove_user(b, bb_uses(l[v].kind), v), v),
{
    let ops = value_uses(l[v].kind);
    let bbs = bb_uses(l[v].kind);
    let l2 = locals_after_remove(l, v);
    let g2 = remove_user(g, ops, v);
    let b2 = block_remove_user(b, bbs, v);
    assert forall|w: Value, i: int|
        #![trigger value_uses(l2[w].kind)[i]]
        l2.contains_key(w) && 0 <= i < value_uses(l2[w].kind).len() implies in_scope(
        l2,
        g2,
        value_uses(l2[w].kind)[i],
    ) && record(l2, g2, value_uses(l2[w].kind)[i]).used_by.contains(w) by {
        let u = value_uses(l2[w].kind)[i];
        assert(l.contains_key(w) && w != v);
        assert(l2[w].kind == l[w].kind);
        assert(in_scope(l, g, value_uses(l[w].kind)[i]));
        assert(record(l, g, u).used_by.contains(w));
        if u == v {
            assert(l[v].used_by.contains(w));
        }
    }
    assert forall|u: Value, w: Value|
        #![trigger l2[u].used_by.contains(w)]
        l2.contains_key(u) && l2[u].used_by.contains(w) implies l2.contains_key(w) && value_uses(
        l2[w].kind,
    ).contains(u) by {
        assert(l.contains_key(u) && u != v);
        assert(l[u].used_by.contains(w));
        if w == v {
            assert(ops.contains(u));
        }
    }
    assert forall|u: Value, w: Value|
        #![trigger g2[u].used_by.contains(w)]
        g2.contains_key(u) && g2[u].used_by.contains(w) && l2.contains_key(w) implies value_uses(
        l2[w].kind,
    ).contains(u) by {
        assert(g.contains_key(u));
        assert(g[u].used_by.contains(w));
    }
    assert forall|w: Value, i: int|
        #![trigger bb_uses(l2[w].kind)[i]]
        l2.contains_key(w) && 0 <= i < bb_uses(l2[w].kind).len() implies b2.contains_key(
        bb_uses(l2[w].kind)[i],
    ) && b2[bb_uses(l2[w].kind)[i]].used_by.contains(w) by {
        assert(l.contains_key(w) && w != v);
        assert(l2[w].kind == l[w].kind);
        assert(b.contains_key(bb_uses(l[w].kind)[i]));
    }
    assert forall|bb: BasicBlock, w: Value|
        #![trigger b2[bb].used_by.contains(w)]
        b2.contains_key(bb) && b2[bb].used_by.contains(w) implies l2.contains_key(w) && bb_uses(
        l2[w].kind,
    ).contains(bb) by {
        assert(b.contains_key(bb));
        assert(b[bb].used_by.contains(w));
        if w == v {
            assert(bbs.contains(bb));
        }
    }
    assert(scopes_disjoint(l2, g2)) by {
        assert forall|x: Value| #[trigger] l2.contains_key(x) implies !g2.contains_key(x) by {
            assert(l.contains_key(x));
        }
    }
    assert forall|u: Value| #[trigger] l2.contains_key(u) implies !l2[u].used_by.contains(v) by {
        assert(l.contains_key(u) && u != v);
        if l[u].used_by.contains(v) {
            assert(ops.contains(u));
        }
    }
    assert forall|bb: BasicBlock| #[trigger] b2.contains_key(bb) implies !b2[bb].used_by.contains(
        v,
    ) by {
        assert(b.contains_key(bb));
        if b[bb].used_by.contains(v) {
            assert(bbs.contains(bb));
        }
    }
}

/// Removing a global value that has no users keeps the use–def relation among
/// global values consistent.
pub proof fn lemma_remove_global_consistent(g: Values, v: Value)
    requires
        globals_consistent(g),
        g.contains_key(v),
        g[v].used_by == Set::<Value>::empty(),
    ensures
        globals_consistent(locals_after_remove(g, v)),
{
    let ops = value_uses(g[v].kind);
    let g2 = locals_after_remove(g, v);
    let e = Values::empty();
    assert forall|w: Value, i: int|
        #![trigger value_uses(g2[w].kind)[i]]
        g2.contains_key(w) && 0 <= i < value_uses(g2[w].kind).len() implies in_scope(
        g2,
        e,
        value_uses(g2[w].kind)[i],
    ) && record(g2, e, value_uses(g2[w].kind)[i]).used_by.contains(w) by {
        let u = value_uses(g2[w].kind)[i];
        assert(g.contains_key(w) && w != v);
        assert(g2[w].kind == g[w].kind);
        assert(in_scope(g, e, value_uses(g[w].kind)[i]));
        assert(record(g, e, u).used_by.contains(w));
        if u == v {
            assert(g[v].used_by.contains(w));
        }
    }
    assert forall|u: Value, w: Value|
        #![trigger g2[u].used_by.contains(w)]
        g2.contains_key(u) && g2[u].used_by.contains(w) && g2.contains_key(w) implies value_uses(
        g2[w].kind,
    ).contains(u) by {
        assert(g.contains_key(u) && u != v);
        assert(g[u].used_by.contains(w));
    }
    assert forall|w: Value| #[trigger] g2.contains_key(w) implies bb_uses(g2[w].kind).len()
        == 0 by {
        assert(g.contains_key(w));
    }
}

/// Creating a value and then removing it leaves every list of users as it was
/// before the value was created.
pub proof fn lemma_insert_remove_roundtrip(m: Values, v: Value, d: ValueDataView)
    requires
        !m.contains_key(v),
        unused_in(m, v),
    ensures
        locals_after_remove(locals_after_insert(m, v, d), v) == m,
        remove_user(add_user(m, value_uses(d.kind), v), value_uses(d.kind), v) == m,
{
    let ops = value_uses(d.kind);
    let m1 = locals_after_insert(m, v, d);
    let m2 = locals_after_remove(m1, v);
    assert(m1[v] == d);
    assert forall|k: Value| m.contains_key(k) implies #[trigger] m2[k] == m[k] && remove_user(
        add_user(m, ops, v),
        ops,
        v,
    )[k] == m[k] by {
        assert(!m[k].used_by.contains(v));
        if ops.contains(k) {
            assert(m[k].used_by.insert(v).remove(v) =~= m[k].used_by);
        }
    }
    assert(m2 =~= m);
    assert(remove_user(add_user(m, ops, v), ops, v) =~= m);
}

/// Creating a value and then removing it leaves the users of every basic
/// block as they were before the value was created.
pub proof fn lemma_block_insert_remove_roundtrip(b: Blocks, targets: Seq<BasicBlock>, v: Value)
    requires
        unused_in_blocks(b, v),
    ensures
        block_remove_user(block_add_user(b, targets, v), targets, v) == b,
{
    assert forall|k: BasicBlock| b.contains_key(k) implies #[trigger] block_remove_user(
        block_add_user(b, targets, v),
        targets,
        v,
    )[k] == b[k] by {
        assert(!b[k].used_by.contains(v));
        if targets.contains(k) {
            assert(b[k].used_by.insert(v).remove(v) =~= b[k].used_by);
        }
    }
    assert(block_remove_user(block_add_user(b, targets, v), targets, v) =~= b);
}

/// `m` after every use of `a` has been replaced by a use of `b`: the kinds
/// of `users`, the users of `a`, name `b` where they named `a`; `a` has no
/// users; and `b` has the users of `a` besides its own.
pub open spec fn rewired(m: Values, a: Value, b: Value, users: Set<Value>) -> Values {
    Map::new(
        |k: Value| m.contains_key(k),
        |k: Value|
            ValueDataView {
                kind: if users.contains(k) {
                    subst_kind(m[k].kind, a, b)
                } else {
                    m[k].kind
                },
                used_by: if k == a {
                    Set::<Value>::empty()
                } else if k == b {
                    m[k].used_by.union(users)
                } else {
                    m[k].used_by
                },
                ..m[k]
            },
    )
}

/// `m` with `a` replaced by `b` in the kinds of `ws`.
pub open spec fn rewired_kinds(m: Values, a: Value, b: Value, ws: Seq<Value>) -> Values {
    Map::new(
        |k: Value| m.contains_key(k),
        |k: Value|
            ValueDataView {
                kind: if ws.contains(k) {
                    subst_kind(m[k].kind, a, b)
                } else {
                    m[k].kind
                },
                ..m[k]
            },
    )
}

/// Replacing in the kinds of no value changes nothing.
pub proof fn lemma_rewired_kinds_none(m: Values, a: Value, b: Value)
    ensures
        rewired_kinds(m, a, b, Seq::empty()) == m,
{
    assert(rewired_kinds(m, a, b, Seq::empty()) =~= m);
}

/// Replacing in the kinds value by value: one further value.
pub proof fn lemma_rewired_kinds_step(m: Values, a: Value, b: Value, ws: Seq<Value>, n: int)
    requires
        0 <= n < ws.len(),
        ws.no_duplicates(),
    ensures
        rewired_kinds(m, a, b, ws.take(n + 1)) == (if m.contains_key(ws[n]) {
            rewired_kinds(m, a, b, ws.take(n)).insert(
                ws[n],
                ValueDataView {
                    kind: subst_kind(rewired_kinds(m, a, b, ws.take(n))[ws[n]].kind, a, b),
                    ..rewired_kinds(m, a, b, ws.take(n))[ws[n]]
                },
            )
        } else {
            rewired_kinds(m, a, b, ws.take(n))
        }),
{
    let t = ws[n];
    let before = rewired_kinds(m, a, b, ws.take(n));
    let after = rewired_kinds(m, a, b, ws.take(n + 1));
    assert(ws.take(n + 1) =~= ws.take(n).push(t));
    assert forall|k: Value| ws.take(n + 1).contains(k) <==> (ws.take(n).contains(k) || k == t) by {
        if ws.take(n).contains(k) {
            let i = choose|i: int| 0 <= i < n && ws.take(n)[i] == k;
            assert(ws.take(n + 1)[i] == k);
        }
        if k == t {
            assert(ws.take(n + 1)[n] == k);
        }
    }
    assert(!ws.take(n).contains(t)) by {
        if ws.take(n).contains(t) {
            let i = choose|i: int| 0 <= i < n && ws.take(n)[i] == t;
            assert(ws[i] == ws[n]);
        }
    }
    if m.contains_key(t) {
        assert(after =~= before.insert(
            t,
            ValueDataView { kind: subst_kind(before[t].kind, a, b), ..before[t] },
        ));
    } else {
        assert(after =~= before);
    }
}

/// Replacing every use of a value of the graph by a use of another value in
/// scope keeps the use–def relation consistent.
pub proof fn lemma_rewire_consistent(l: Values, g: Values, bs: Blocks, a: Value, b: Value)
    requires
        graph_consistent(l, g, bs),
        l.contains_key(a),
        in_scope(l, g, b),
        a != b,
    ensures
        graph_consistent(
            rewired(l, a, b, l[a].used_by),
            rewired(g, a, b, l[a].used_by),
            bs,
        ),
{
    let users = l[a].used_by;
    let l2 = rewired(l, a, b, users);
    let g2 = rewired(g, a, b, users);
    assert forall|w: Value| users.contains(w) implies l.contains_key(w) && !g.contains_key(w)
        && value_uses(l[w].kind).contains(a) by {
        assert(l[a].used_by.contains(w));
    }
    assert forall|w: Value| l.contains_key(w) implies value_uses(#[trigger] l2[w].kind) == (
    if users.contains(w) {
        subst_seq(value_uses(l[w].kind), a, b)
    } else {
        value_uses(l[w].kind)
    }) && bb_uses(l2[w].kind) == bb_uses(l[w].kind) by {
        lemma_subst_kind(l[w].kind, a, b);
    }
    assert forall|w: Value, i: int|
        #![trigger value_uses(l2[w].kind)[i]]
        l2.contains_key(w) && 0 <= i < value_uses(l2[w].kind).len() implies in_scope(
        l2,
        g2,
        value_uses(l2[w].kind)[i],
    ) && record(l2, g2, value_uses(l2[w].kind)[i]).used_by.contains(w) by {
        let u0 = value_uses(l[w].kind)[i];
        let u = value_uses(l2[w].kind)[i];
        assert(in_scope(l, g, u0));
        assert(record(l, g, u0).used_by.contains(w));
        if users.contains(w) {
            assert(u == subst(u0, a, b));
        } else {
            assert(u == u0);
            if u0 == a {
                assert(l[a].used_by.contains(w));
            }
        }
    }
    assert forall|u: Value, w: Value|
        #![trigger l2[u].used_by.contains(w)]
        l2.contains_key(u) && l2[u].used_by.contains(w) implies l2.contains_key(w) && value_uses(
        l2[w].kind,
    ).contains(u) by {
        if u == b && users.contains(w) {
            let i = choose|i: int|
                0 <= i < value_uses(l[w].kind).len() && value_uses(l[w].kind)[i] == a;
            assert(value_uses(l2[w].kind)[i] == b);
        } else {
            assert(l[u].used_by.contains(w));
            let i = choose|i: int|
                0 <= i < value_uses(l[w].kind).len() && value_uses(l[w].kind)[i] == u;
            assert(value_uses(l2[w].kind)[i] == u);
        }
    }
    assert forall|u: Value, w: Value|
        #![trigger g2[u].used_by.contains(w)]
        g2.contains_key(u) && g2[u].used_by.contains(w) && l2.contains_key(w) implies value_uses(
        l2[w].kind,
    ).contains(u) by {
        assert(g.contains_key(u));
        assert(u != a) by {
            if u == a {
                assert(l.contains_key(u));
            }
        }
        if u == b && users.contains(w) {
            let i = choose|i: int|
                0 <= i < value_uses(l[w].kind).len() && value_uses(l[w].kind)[i] == a;
            assert(value_uses(l2[w].kind)[i] == b);
        } else {
            assert(g[u].used_by.contains(w));
            let i = choose|i: int|
                0 <= i < value_uses(l[w].kind).len() && value_uses(l[w].kind)[i] == u;
            assert(value_uses(l2[w].kind)[i] == u);
        }
    }
    assert forall|w: Value, i: int|
        #![trigger bb_uses(l2[w].kind)[i]]
        l2.contains_key(w) && 0 <= i < bb_uses(l2[w].kind).len() implies bs.contains_key(
        bb_uses(l2[w].kind)[i],
    ) && bs[bb_uses(l2[w].kind)[i]].used_by.contains(w) by {
        assert(bs.contains_key(bb_uses(l[w].kind)[i]));
    }
    assert forall|bb: BasicBlock, w: Value|
        #![trigger bs[bb].used_by.contains(w)]
        bs.contains_key(bb) && bs[bb].used_by.contains(w) implies l2.contains_key(w) && bb_uses(
        l2[w].kind,
    ).contains(bb) by {
        assert(l.contains_key(w));
    }
    assert(scopes_disjoint(l2, g2)) by {
        assert forall|x: Value| #[trigger] l2.contains_key(x) implies !g2.contains_key(x) by {
            assert(l.contains_key(x));
        }
    }
}

} // verus!
