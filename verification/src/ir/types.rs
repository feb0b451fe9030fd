//! Types and their interner. A type is held once, so that two types are
//! the same exactly when their handles are equal.

use crate::ir::error::IrError;
use crate::ir::idman::InternerId;
use std::collections::HashMap;
use vstd::prelude::*;
use vstd::string::*;

verus! {

broadcast use vstd::std_specs::hash::group_hash_axioms;

/// A handle of an interned type: the place of the type in the table of its
/// interner, and the number of that interner.
///
/// Two handles of one interner are equal exactly when the types they name have
/// the same structure, so comparing types is comparing handles. Handles of
/// different interners are never equal, and an interner knows no handle but
/// its own.
#[derive(Clone, Copy, PartialEq, Eq, Hash, Debug, Structural)]
pub struct Type(pub usize, pub u64);

/// The structure of a type. Component types are named by handle.
#[derive(PartialEq, Eq, Debug)]
pub enum TypeData {
    /// 32-bit signed integer.
    Int32,
    /// Absence of a value.
    Unit,
    /// Array, with element type and length.
    Array(Type, usize),
    /// Pointer, with base type.
    Pointer(Type),
    /// Function, with parameter types and return type.
    Function(Vec<Type>, Type),
    /// Basic block, with parameter types.
    BasicBlock(Vec<Type>),
}

/// The structure of a type, under the name that readers of a type use.
pub type TypeKind = TypeData;

/// The mathematical value of a [`TypeData`].
pub enum TypeShape {
    Int32,
    Unit,
    Array(Type, usize),
    Pointer(Type),
    Function(Seq<Type>, Type),
    BasicBlock(Seq<Type>),
}

impl View for TypeData {
    type V = TypeShape;

    open spec fn view(&self) -> TypeShape {
        match *self {
            TypeData::Int32 => TypeShape::Int32,
            TypeData::Unit => TypeShape::Unit,
            TypeData::Array(elem, len) => TypeShape::Array(elem, len),
            TypeData::Pointer(base) => TypeShape::Pointer(base),
            TypeData::Function(params, ret) => TypeShape::Function(params@, ret),
            TypeData::BasicBlock(params) => TypeShape::BasicBlock(params@),
        }
    }
}

/// Every handle that a shape mentions.
pub open spec fn components(d: TypeShape) -> Seq<Type> {
    match d {
        TypeShape::Int32 => Seq::empty(),
        TypeShape::Unit => Seq::empty(),
        TypeShape::Array(elem, _) => seq![elem],
        TypeShape::Pointer(base) => seq![base],
        TypeShape::Function(params, ret) => params.push(ret),
        TypeShape::BasicBlock(params) => params,
    }
}

/// The handles of a shape that must not name `unit`: the element of an array
/// and the parameters of a function or of a basic block.
pub open spec fn unit_free_components(d: TypeShape) -> Seq<Type> {
    match d {
        TypeShape::Array(elem, _) => seq![elem],
        TypeShape::Function(params, _) => params,
        TypeShape::BasicBlock(params) => params,
        _ => Seq::empty(),
    }
}

/// All of `ts` are handles of the interner with the number `owner`.
pub open spec fn owned(owner: u64, ts: Seq<Type>) -> bool {
    forall|i: int| 0 <= i < ts.len() ==> (#[trigger] ts[i]).1 == owner
}

/// Every handle in the entries of `table` is a handle of the interner with
/// the number `owner`.
pub open spec fn table_owned(owner: u64, table: Seq<TypeShape>) -> bool {
    forall|i: int| 0 <= i < table.len() ==> owned(owner, components(#[trigger] table[i]))
}

/// `t` is a handle of the interner with the number `owner` and names an entry
/// of its table.
pub open spec fn known(owner: u64, table: Seq<TypeShape>, t: Type) -> bool {
    t.1 == owner && t.0 < table.len()
}

/// All of `ts` name entries of `table`.
pub open spec fn all_known(table: Seq<TypeShape>, ts: Seq<Type>) -> bool {
    forall|i: int| 0 <= i < ts.len() ==> (#[trigger] ts[i]).0 < table.len()
}

/// None of `ts` names the `unit` entry of `table`.
pub open spec fn none_unit(table: Seq<TypeShape>, ts: Seq<Type>) -> bool {
    forall|i: int| 0 <= i < ts.len() ==> !(table[(#[trigger] ts[i]).0 as int] is Unit)
}

/// A shape may enter `table`: its components are entries of the table, and
/// `unit` stands in none of the places that exclude it.
pub open spec fn admissible(table: Seq<TypeShape>, d: TypeShape) -> bool {
    &&& all_known(table, components(d))
    &&& none_unit(table, unit_free_components(d))
}

/// The table of an interner is well formed: every entry was admissible to the
/// entries before it, and no shape occurs twice.
pub open spec fn table_wf(table: Seq<TypeShape>) -> bool {
    &&& forall|i: int|
        0 <= i < table.len() ==> admissible(table.take(i), #[trigger] table[i])
    &&& forall|i: int, j: int|
        0 <= i < j < table.len() ==> #[trigger] table[i] != #[trigger] table[j]
}

/// The table after interning an admissible shape.
pub open spec fn interned(table: Seq<TypeShape>, d: TypeShape) -> Seq<TypeShape> {
    if table.contains(d) {
        table
    } else {
        table.push(d)
    }
}

/// The handle that the interner with the number `owner` hands out for a
/// shape.
pub open spec fn handle_of(owner: u64, table: Seq<TypeShape>, d: TypeShape) -> Type {
    Type(interned(table, d).index_of(d) as usize, owner)
}

/// What interning a shape returns: the handle, or the reason for refusing the
/// shape. A component that is a handle of another interner or names no entry
/// is reported first, then `unit` in a place that excludes it, then a table
/// that can take no further entry.
pub open spec fn intern_result(owner: u64, table: Seq<TypeShape>, d: TypeShape) -> Result<
    Type,
    IrError,
> {
    if !owned(owner, components(d)) || !all_known(table, components(d)) {
        Err(IrError::UnknownType)
    } else if !none_unit(table, unit_free_components(d)) {
        Err(IrError::UnitNotAllowed)
    } else if !table.contains(d) && table.len() >= usize::MAX {
        Err(IrError::IdsExhausted)
    } else {
        Ok(handle_of(owner, table, d))
    }
}

/// The table after a call that interns a shape: grown by the shape where the
/// call succeeds and the shape is new, and unchanged otherwise.
pub open spec fn intern_table(owner: u64, table: Seq<TypeShape>, d: TypeShape) -> Seq<
    TypeShape,
> {
    if intern_result(owner, table, d) is Ok {
        interned(table, d)
    } else {
        table
    }
}

/// The handle of the entry of `table` with the shape `d`, if there is one.
pub open spec fn handle_in(owner: u64, table: Seq<TypeShape>, d: TypeShape) -> Option<Type> {
    if table.contains(d) {
        Some(Type(table.index_of(d) as usize, owner))
    } else {
        None
    }
}

/// The table `post` holds every entry of the table `pre` at its place.
pub open spec fn table_extends(pre: Seq<TypeShape>, post: Seq<TypeShape>) -> bool {
    &&& pre.len() <= post.len()
    &&& forall|i: int| 0 <= i < pre.len() ==> #[trigger] post[i] == pre[i]
}

/// Interning is the identity of types: in a well-formed table two handles of
/// one interner are equal exactly when their entries have the same shape.
pub proof fn lemma_handle_identity(table: Seq<TypeShape>, a: Type, b: Type)
    requires
        table_wf(table),
        a.1 == b.1,
        a.0 < table.len(),
        b.0 < table.len(),
    ensures
        a == b <==> table[a.0 as int] == table[b.0 as int],
{
    if a.0 < b.0 {
        assert(table[a.0 as int] != table[b.0 as int]);
    } else if b.0 < a.0 {
        assert(table[b.0 as int] != table[a.0 as int]);
    }
}

/// Interning keeps a table well formed, keeps every handle it had, and hands
/// out a handle whose entry is the shape asked for.
pub proof fn lemma_interned(owner: u64, table: Seq<TypeShape>, d: TypeShape)
    requires
        table_wf(table),
        admissible(table, d),
        table.len() <= usize::MAX,
        table.contains(d) || table.len() < usize::MAX,
    ensures
        table_wf(interned(table, d)),
        interned(table, d).take(table.len() as int) == table,
        handle_of(owner, table, d).0 < interned(table, d).len(),
        interned(table, d)[handle_of(owner, table, d).0 as int] == d,
{
    let next = interned(table, d);
    assert(next.take(table.len() as int) =~= table);
    if table.contains(d) {
        let i = table.index_of(d);
    } else {
        assert(next[table.len() as int] == d);
        assert(next.contains(d));
        let i = next.index_of(d);
        assert forall|i: int| 0 <= i < next.len() implies admissible(
            next.take(i),
            #[trigger] next[i],
        ) by {
            if i < table.len() {
                assert(next.take(i) =~= table.take(i));
                assert(next[i] == table[i]);
            } else {
                assert(next.take(i) =~= table);
            }
        }
    }
}

/// What interning hands out is what a later look-up finds: where a shape is
/// accepted, the table afterwards holds it, a look-up of the shape gives the
/// handle that was returned, and every earlier entry is at its place.
pub proof fn lemma_interned_is_found(owner: u64, table: Seq<TypeShape>, d: TypeShape)
    requires
        intern_result(owner, table, d) is Ok,
    ensures
        intern_table(owner, table, d).contains(d),
        handle_in(owner, intern_table(owner, table, d), d) == Some(
            intern_result(owner, table, d)->Ok_0,
        ),
        table_extends(table, intern_table(owner, table, d)),
{
    let next = interned(table, d);
    if !table.contains(d) {
        assert(next[table.len() as int] == d);
    }
}

/// Interning two shapes, one after the other, gives equal handles exactly when
/// the shapes are equal.
pub proof fn lemma_intern_identity(owner: u64, table: Seq<TypeShape>, d1: TypeShape, d2: TypeShape)
    requires
        table_wf(table),
        admissible(table, d1),
        admissible(table, d2),
        table.len() + 1 < usize::MAX,
    ensures
        handle_of(owner, table, d1) == handle_of(owner, interned(table, d1), d2) <==> d1 == d2,
{
    let t1 = interned(table, d1);
    lemma_interned(owner, table, d1);
    lemma_admissible_grows(table, t1, d2);
    lemma_interned(owner, t1, d2);
    let t2 = interned(t1, d2);
    let h1 = handle_of(owner, table, d1);
    let h2 = handle_of(owner, t1, d2);
    assert(t2.take(t1.len() as int) == t1);
    assert(t2[h1.0 as int] == t2.take(t1.len() as int)[h1.0 as int]);
    lemma_handle_identity(t2, h1, h2);
}

/// A shape that was admissible stays so when the table grows.
pub proof fn lemma_admissible_grows(table: Seq<TypeShape>, next: Seq<TypeShape>, d: TypeShape)
    requires
        admissible(table, d),
        table.len() <= next.len(),
        next.take(table.len() as int) == table,
    ensures
        admissible(next, d),
{
    let cs = components(d);
    let us = unit_free_components(d);
    assert forall|i: int| 0 <= i < us.len() implies !(next[(#[trigger] us[i]).0 as int] is Unit) by {
        lemma_unit_free_are_components(d, i);
        assert(next.take(table.len() as int)[us[i].0 as int] == next[us[i].0 as int]);
    }
}

/// The places that exclude `unit` are among the components.
pub proof fn lemma_unit_free_are_components(d: TypeShape, i: int)
    requires
        0 <= i < unit_free_components(d).len(),
    ensures
        0 <= i < components(d).len(),
        components(d)[i] == unit_free_components(d)[i],
{
}

/// In a well-formed table every component of an entry stands before the
/// entry, and `unit` stands in none of the places that exclude it.
pub proof fn lemma_entry_admissible(table: Seq<TypeShape>, t: Type)
    requires
        table_wf(table),
        t.0 < table.len(),
    ensures
        admissible(table, table[t.0 as int]),
        forall|i: int|
            0 <= i < components(table[t.0 as int]).len() ==> (#[trigger] components(
                table[t.0 as int],
            )[i]).0 < t.0,
{
    let d = table[t.0 as int];
    let before = table.take(t.0 as int);
    assert(admissible(before, d));
    assert(table.take(before.len() as int) =~= before);
    lemma_admissible_grows(before, table, d);
}

/// A type written out in full: every component is itself a type written out
/// in full, and no handle occurs.
pub enum TypeTree {
    Int32,
    Unit,
    Array(Box<TypeTree>, usize),
    Pointer(Box<TypeTree>),
    Function(Seq<TypeTree>, Box<TypeTree>),
    BasicBlock(Seq<TypeTree>),
}

/// The type that `t` names, written out in full, where every component of an
/// entry stands before the entry.
pub open spec fn tree_of(table: Seq<TypeShape>, t: Type) -> TypeTree
    decreases t.0, 1nat,
{
    if t.0 >= table.len() {
        TypeTree::Unit
    } else {
        match table[t.0 as int] {
            TypeShape::Int32 => TypeTree::Int32,
            TypeShape::Unit => TypeTree::Unit,
            TypeShape::Array(elem, len) => TypeTree::Array(
                Box::new(component_tree(table, elem, t.0)),
                len,
            ),
            TypeShape::Pointer(base) => TypeTree::Pointer(
                Box::new(component_tree(table, base, t.0)),
            ),
            TypeShape::Function(params, ret) => TypeTree::Function(
                Seq::new(params.len(), |i: int| component_tree(table, params[i], t.0)),
                Box::new(component_tree(table, ret, t.0)),
            ),
            TypeShape::BasicBlock(params) => TypeTree::BasicBlock(
                Seq::new(params.len(), |i: int| component_tree(table, params[i], t.0)),
            ),
        }
    }
}

/// A component of the entry at `parent`, written out in full.
pub open spec fn component_tree(table: Seq<TypeShape>, t: Type, parent: usize) -> TypeTree
    decreases parent, 0nat,
{
    if t.0 < parent {
        tree_of(table, t)
    } else {
        TypeTree::Unit
    }
}

/// Types that are the same when written out in full have the same handle: the
/// interner holds every type once, however deep its structure.
pub proof fn lemma_tree_identity(owner: u64, table: Seq<TypeShape>, a: Type, b: Type)
    requires
        table_wf(table),
        table_owned(owner, table),
        a.1 == owner,
        b.1 == owner,
        a.0 < table.len(),
        b.0 < table.len(),
        tree_of(table, a) == tree_of(table, b),
    ensures
        a == b,
    decreases a.0 + b.0,
{
    lemma_entry_admissible(table, a);
    lemma_entry_admissible(table, b);
    let da = table[a.0 as int];
    let db = table[b.0 as int];
    let ca = components(da);
    let cb = components(db);
    match (da, db) {
        (TypeShape::Array(e1, n1), TypeShape::Array(e2, n2)) => {
            assert(ca[0] == e1 && cb[0] == e2);
            lemma_tree_identity(owner, table, e1, e2);
        },
        (TypeShape::Pointer(b1), TypeShape::Pointer(b2)) => {
            assert(ca[0] == b1 && cb[0] == b2);
            lemma_tree_identity(owner, table, b1, b2);
        },
        (TypeShape::Function(pa, r1), TypeShape::Function(pb, r2)) => {
            let s1 = tree_of(table, a)->Function_0;
            let s2 = tree_of(table, b)->Function_0;
            assert(pa.len() == s1.len() && pb.len() == s2.len());
            assert(ca[pa.len() as int] == r1 && cb[pb.len() as int] == r2);
            lemma_tree_identity(owner, table, r1, r2);
            assert forall|i: int| 0 <= i < pa.len() implies pa[i] == pb[i] by {
                assert(ca[i] == pa[i] && cb[i] == pb[i]);
                assert(s1[i] == s2[i]);
                lemma_tree_identity(owner, table, pa[i], pb[i]);
            }
            assert(pa =~= pb);
        },
        (TypeShape::BasicBlock(pa), TypeShape::BasicBlock(pb)) => {
            let s1 = tree_of(table, a)->BasicBlock_0;
            let s2 = tree_of(table, b)->BasicBlock_0;
            assert(pa.len() == s1.len() && pb.len() == s2.len());
            assert forall|i: int| 0 <= i < pa.len() implies pa[i] == pb[i] by {
                assert(ca[i] == pa[i] && cb[i] == pb[i]);
                assert(s1[i] == s2[i]);
                lemma_tree_identity(owner, table, pa[i], pb[i]);
            }
            assert(pa =~= pb);
        },
        _ => {},
    }
    assert(da == db);
    lemma_handle_identity(table, a, b);
}

/// The character of a decimal digit.
pub open spec fn digit_char(d: int) -> char {
    if d == 0 {
        '0'
    } else if d == 1 {
        '1'
    } else if d == 2 {
        '2'
    } else if d == 3 {
        '3'
    } else if d == 4 {
        '4'
    } else if d == 5 {
        '5'
    } else if d == 6 {
        '6'
    } else if d == 7 {
        '7'
    } else if d == 8 {
        '8'
    } else {
        '9'
    }
}

/// The decimal digits of a number, without leading zeros.
pub open spec fn decimal(n: nat) -> Seq<char>
    decreases n,
{
    if n < 10 {
        seq![digit_char(n as int)]
    } else {
        decimal(n / 10).push(digit_char((n % 10) as int))
    }
}

/// The text of the type that `t` names, where every component of an entry
/// stands before the entry:
///
/// - `i32` and `unit`;
/// - `T[N]` for the array of `N` elements of type `T`;
/// - `*T` for the pointer to `T`;
/// - `(T1, T2)` for the function of these parameter types that returns
///   `unit`, and `R(T1, T2)` for the one that returns `R`;
/// - `bb(T1, T2)` for the basic block of these parameter types.
///
/// A handle that names no entry has the empty text.
pub open spec fn type_text(table: Seq<TypeShape>, t: Type) -> Seq<char>
    decreases t.0, 1nat, 0nat,
{
    if t.0 >= table.len() {
        Seq::empty()
    } else {
        match table[t.0 as int] {
            TypeShape::Int32 => "i32"@,
            TypeShape::Unit => "unit"@,
            TypeShape::Array(elem, len) => component_text(table, elem, t.0) + "["@ + decimal(
                len as nat,
            ) + "]"@,
            TypeShape::Pointer(base) => "*"@ + component_text(table, base, t.0),
            TypeShape::Function(params, ret) => (if ret.0 < table.len() && table[ret.0 as int]
                is Unit {
                Seq::empty()
            } else {
                component_text(table, ret, t.0)
            }) + "("@ + list_text(table, params, t.0) + ")"@,
            TypeShape::BasicBlock(params) => "bb("@ + list_text(table, params, t.0) + ")"@,
        }
    }
}

/// The text of a component of the entry at `parent`.
pub open spec fn component_text(table: Seq<TypeShape>, t: Type, parent: usize) -> Seq<char>
    decreases parent, 0nat, 0nat,
{
    if t.0 < parent {
        type_text(table, t)
    } else {
        Seq::empty()
    }
}

/// The texts of components of the entry at `parent`, separated by a comma and
/// a space.
pub open spec fn list_text(table: Seq<TypeShape>, ts: Seq<Type>, parent: usize) -> Seq<char>
    decreases parent, 0nat, ts.len(),
{
    if ts.len() == 0 {
        Seq::empty()
    } else if ts.len() == 1 {
        component_text(table, ts[0], parent)
    } else {
        list_text(table, ts.drop_last(), parent) + ", "@ + component_text(table, ts.last(), parent)
    }
}

/// The text of a decimal digit.
fn digit_str(d: usize) -> (r: &'static str)
    requires
        d < 10,
    ensures
        r@ == seq![digit_char(d as int)],
{
    proof {
        reveal_strlit("0");
        reveal_strlit("1");
        reveal_strlit("2");
        reveal_strlit("3");
        reveal_strlit("4");
        reveal_strlit("5");
        reveal_strlit("6");
        reveal_strlit("7");
        reveal_strlit("8");
        reveal_strlit("9");
    }
    let r = if d == 0 {
        "0"
    } else if d == 1 {
        "1"
    } else if d == 2 {
        "2"
    } else if d == 3 {
        "3"
    } else if d == 4 {
        "4"
    } else if d == 5 {
        "5"
    } else if d == 6 {
        "6"
    } else if d == 7 {
        "7"
    } else if d == 8 {
        "8"
    } else {
        "9"
    };
    assert(r@ =~= seq![digit_char(d as int)]);
    r
}

/// Appends the decimal digits of `n` to `out`.
fn push_decimal(out: &mut String, n: usize)
    ensures
        final(out)@ == old(out)@ + decimal(n as nat),
    decreases n,
{
    if n >= 10 {
        push_decimal(out, n / 10);
    }
    out.append(digit_str(n % 10));
    proof {
        if n >= 10 {
            assert(old(out)@ + decimal((n / 10) as nat) + seq![digit_char((n % 10) as int)]
                =~= old(out)@ + decimal(n as nat));
        }
    }
}

/// Whether two lists of types are the same, type by type.
pub fn same_types(a: &Vec<Type>, b: &Vec<Type>) -> (r: bool)
    ensures
        r == (a@ == b@),
{
    if a.len() != b.len() {
        return false;
    }
    let mut i: usize = 0;
    while i < a.len()
        invariant
            i <= a.len(),
            a.len() == b.len(),
            forall|k: int| 0 <= k < i ==> a@[k] == b@[k],
        decreases a.len() - i,
    {
        if a[i] != b[i] {
            return false;
        }
        i = i + 1;
    }
    assert(a@ =~= b@);
    true
}

/// A copy of a list of types.
pub fn clone_types(a: &Vec<Type>) -> (r: Vec<Type>)
    ensures
        r@ == a@,
{
    let mut out: Vec<Type> = Vec::new();
    let mut i: usize = 0;
    while i < a.len()
        invariant
            i <= a.len(),
            out@ == a@.take(i as int),
        decreases a.len() - i,
    {
        out.push(a[i]);
        assert(out@ =~= a@.take(i + 1));
        i = i + 1;
    }
    assert(a@.take(a.len() as int) =~= a@);
    out
}

impl TypeData {
    /// Whether two descriptions have the same shape.
    pub fn same(&self, other: &TypeData) -> (r: bool)
        ensures
            r == (self@ == other@),
    {
        match (self, other) {
            (TypeData::Int32, TypeData::Int32) => true,
            (TypeData::Unit, TypeData::Unit) => true,
            (TypeData::Array(e1, n1), TypeData::Array(e2, n2)) => *e1 == *e2 && *n1 == *n2,
            (TypeData::Pointer(b1), TypeData::Pointer(b2)) => *b1 == *b2,
            (TypeData::Function(pa, r1), TypeData::Function(pb, r2)) => {
                *r1 == *r2 && same_types(pa, pb)
            },
            (TypeData::BasicBlock(pa), TypeData::BasicBlock(pb)) => same_types(pa, pb),
            _ => false,
        }
    }

    /// A copy of this description.
    pub fn duplicate(&self) -> (r: TypeData)
        ensures
            r@ == self@,
    {
        match self {
            TypeData::Int32 => TypeData::Int32,
            TypeData::Unit => TypeData::Unit,
            TypeData::Array(elem, len) => TypeData::Array(*elem, *len),
            TypeData::Pointer(base) => TypeData::Pointer(*base),
            TypeData::Function(params, ret) => TypeData::Function(clone_types(params), *ret),
            TypeData::BasicBlock(params) => TypeData::BasicBlock(clone_types(params)),
        }
    }
}

/// The modulus of the hashes of shapes.
const HASH_MOD: u64 = 2305843009213693951;

/// A hash with one more number mixed in.
spec fn mixed(h: int, x: int) -> int {
    (h * 31 + x + 7) % (HASH_MOD as int)
}

/// A hash with the handles of a list mixed in, one after the other.
spec fn mixed_list(h: int, ts: Seq<Type>) -> int
    decreases ts.len(),
{
    if ts.len() == 0 {
        h
    } else {
        mixed(mixed_list(h, ts.drop_last()), ts.last().0 as int)
    }
}

/// The hash of a shape. Shapes that are equal have equal hashes; nothing
/// else is asked of it.
spec fn shape_hash(d: TypeShape) -> int {
    match d {
        TypeShape::Int32 => 1,
        TypeShape::Unit => 2,
        TypeShape::Array(elem, len) => mixed(mixed(3, elem.0 as int), len as int),
        TypeShape::Pointer(base) => mixed(4, base.0 as int),
        TypeShape::Function(params, ret) => mixed(mixed_list(5, params), ret.0 as int),
        TypeShape::BasicBlock(params) => mixed_list(6, params),
    }
}

fn mix(h: u64, x: usize) -> (r: u64)
    requires
        h < HASH_MOD,
    ensures
        r == mixed(h as int, x as int),
        r < HASH_MOD,
{
    let wide: u128 = (h as u128) * 31 + (x as u128) + 7;
    (wide % (HASH_MOD as u128)) as u64
}

fn mix_list(h: u64, ts: &Vec<Type>) -> (r: u64)
    requires
        h < HASH_MOD,
    ensures
        r == mixed_list(h as int, ts@),
        r < HASH_MOD,
{
    let mut acc: u64 = h;
    let mut i: usize = 0;
    while i < ts.len()
        invariant
            i <= ts.len(),
            acc < HASH_MOD,
            acc == mixed_list(h as int, ts@.take(i as int)),
        decreases ts.len() - i,
    {
        proof {
            assert(ts@.take(i + 1).drop_last() =~= ts@.take(i as int));
        }
        acc = mix(acc, ts[i].0);
        i = i + 1;
    }
    assert(ts@.take(i as int) =~= ts@);
    acc
}

fn hash_of(data: &TypeData) -> (r: u64)
    ensures
        r == shape_hash(data@),
{
    match data {
        TypeData::Int32 => 1,
        TypeData::Unit => 2,
        TypeData::Array(elem, len) => mix(mix(3, elem.0), *len),
        TypeData::Pointer(base) => mix(4, base.0),
        TypeData::Function(params, ret) => mix(mix_list(5, params), ret.0),
        TypeData::BasicBlock(params) => mix_list(6, params),
    }
}

/// The interner of types: the sole owner of every [`TypeData`].
///
/// It never forgets an entry, so a handle stays valid for as long as the
/// interner lives. Entries are found by the hash of their shape.
pub struct TypeFactory {
    id: u64,
    types: Vec<TypeData>,
    index: HashMap<u64, Vec<usize>>,
}

impl View for TypeFactory {
    type V = Seq<TypeShape>;

    closed spec fn view(&self) -> Seq<TypeShape> {
        self.types@.map_values(|d: TypeData| d@)
    }
}

impl TypeFactory {
    /// The handles listed under the hash `h`.
    spec fn bucket(&self, h: u64) -> Seq<usize> {
        if self.index@.contains_key(h) {
            self.index@[h]@
        } else {
            Seq::empty()
        }
    }

    /// Every entry is listed under the hash of its shape, and only entries
    /// are listed.
    #[verifier::opaque]
    pub closed spec fn indexed(&self) -> bool {
        &&& forall|i: int|
            0 <= i < self@.len() ==> self.bucket(shape_hash(#[trigger] self@[i]) as u64).contains(
                i as usize,
            )
        &&& forall|h: u64, k: int|
            0 <= k < self.bucket(h).len() ==> #[trigger] self.bucket(h)[k] < self@.len()
    }

    /// The number of the interner, which every handle that it hands out
    /// carries.
    pub closed spec fn id(&self) -> u64 {
        self.id
    }

    /// `t` is a handle of this interner and names one of its entries.
    pub open spec fn knows(&self, t: Type) -> bool {
        known(self.id(), self@, t)
    }

    /// The interner is well formed: its table is, the handles in its entries
    /// are its own, and every entry can be found.
    pub open spec fn wf(&self) -> bool {
        &&& table_wf(self@)
        &&& table_owned(self.id(), self@)
        &&& self.indexed()
    }

    /// Creates the interner with the given number. It has interned nothing.
    /// Every handle that it hands out carries the number, so that no handle
    /// of this interner is equal to a handle of an interner with another
    /// number.
    pub fn new(id: InternerId) -> (r: TypeFactory)
        ensures
            r.id() == id.number(),
            r@ == Seq::<TypeShape>::empty(),
            r.wf(),
    {
        let r = TypeFactory { id: id.into_number(), types: Vec::new(), index: HashMap::new() };
        assert(r@ =~= Seq::<TypeShape>::empty());
        proof {
            reveal(TypeFactory::indexed);
            assert forall|h: u64, k: int| 0 <= k < r.bucket(h).len() implies #[trigger] r.bucket(
                h,
            )[k] < r@.len() by {
                assert(!r.index@.contains_key(h));
            }
        }
        r
    }

    /// The number of types held.
    pub fn len(&self) -> (n: usize)
        ensures
            n == self@.len(),
    {
        self.types.len()
    }

    /// The number of the interner.
    pub fn number(&self) -> (r: u64)
        ensures
            r == self.id(),
    {
        self.id
    }

    /// Whether `ty` is a handle of this interner and names one of its
    /// entries.
    pub fn owns(&self, ty: Type) -> (r: bool)
        ensures
            r == self.knows(ty),
    {
        ty.1 == self.id && ty.0 < self.types.len()
    }

    /// The structure of the type that `ty` names, if `ty` is a handle of this
    /// interner and names one of its entries.
    pub fn kind(&self, ty: Type) -> (r: Option<&TypeData>)
        ensures
            match r {
                Some(d) => self.knows(ty) && d@ == self@[ty.0 as int],
                None => !self.knows(ty),
            },
    {
        if ty.1 == self.id && ty.0 < self.types.len() {
            Some(&self.types[ty.0])
        } else {
            None
        }
    }

    /// The structure of the entry at the place of `ty`, if there is one. It
    /// is for handles that the interner handed out itself.
    pub(crate) fn kind_at(&self, ty: Type) -> (r: Option<&TypeData>)
        ensures
            match r {
                Some(d) => ty.0 < self@.len() && d@ == self@[ty.0 as int],
                None => ty.0 >= self@.len(),
            },
    {
        if ty.0 < self.types.len() {
            Some(&self.types[ty.0])
        } else {
            None
        }
    }

    /// Whether `ty` is a handle of this interner and names the `unit` type.
    pub fn is_unit(&self, ty: Type) -> (r: bool)
        ensures
            r == (self.knows(ty) && self@[ty.0 as int] is Unit),
    {
        match self.kind(ty) {
            Some(TypeData::Unit) => true,
            _ => false,
        }
    }

    /// Whether the entry at the place of `ty` is the `unit` type.
    fn unit_at(&self, ty: Type) -> (r: bool)
        ensures
            r == (ty.0 < self@.len() && self@[ty.0 as int] is Unit),
    {
        match self.kind_at(ty) {
            Some(TypeData::Unit) => true,
            _ => false,
        }
    }

    fn knows_all(&self, ts: &Vec<Type>) -> (r: bool)
        ensures
            r == (owned(self.id(), ts@) && all_known(self@, ts@)),
    {
        let mut i: usize = 0;
        while i < ts.len()
            invariant
                i <= ts.len(),
                forall|k: int|
                    0 <= k < i ==> (#[trigger] ts@[k]).1 == self.id() && ts@[k].0 < self@.len(),
            decreases ts.len() - i,
        {
            if ts[i].1 != self.id || ts[i].0 >= self.types.len() {
                return false;
            }
            i = i + 1;
        }
        true
    }

    fn has_no_unit(&self, ts: &Vec<Type>) -> (r: bool)
        requires
            all_known(self@, ts@),
        ensures
            r == none_unit(self@, ts@),
    {
        let mut i: usize = 0;
        while i < ts.len()
            invariant
                i <= ts.len(),
                all_known(self@, ts@),
                forall|k: int| 0 <= k < i ==> !(self@[(#[trigger] ts@[k]).0 as int] is Unit),
            decreases ts.len() - i,
        {
            if self.unit_at(ts[i]) {
                return false;
            }
            i = i + 1;
        }
        true
    }

    /// Decides whether a description may be interned, and why not.
    fn check(&self, data: &TypeData) -> (r: Option<IrError>)
        ensures
            match r {
                None => owned(self.id(), components(data@)) && admissible(self@, data@),
                Some(e) => !(owned(self.id(), components(data@)) && admissible(self@, data@))
                    && intern_result(self.id(), self@, data@) == Err::<Type, IrError>(e),
            },
    {
        let n = self.types.len();
        let ghost cs = components(data@);
        match data {
            TypeData::Int32 => None,
            TypeData::Unit => None,
            TypeData::Array(elem, _) => {
                assert(cs[0] == *elem);
                assert(unit_free_components(data@)[0] == *elem);
                if elem.1 != self.id || elem.0 >= n {
                    Some(IrError::UnknownType)
                } else if self.unit_at(*elem) {
                    Some(IrError::UnitNotAllowed)
                } else {
                    None
                }
            },
            TypeData::Pointer(base) => {
                assert(cs[0] == *base);
                if base.1 != self.id || base.0 >= n {
                    Some(IrError::UnknownType)
                } else {
                    None
                }
            },
            TypeData::Function(params, ret) => {
                assert(cs[params@.len() as int] == *ret);
                assert(forall|i: int| 0 <= i < params@.len() ==> #[trigger] cs[i] == params@[i]);
                if ret.1 != self.id || ret.0 >= n {
                    Some(IrError::UnknownType)
                } else if !self.knows_all(params) {
                    proof {
                        let k = choose|k: int|
                            0 <= k < params@.len() && !((#[trigger] params@[k]).1 == self.id()
                                && params@[k].0 < n);
                        assert(!(cs[k].1 == self.id() && cs[k].0 < n));
                    }
                    Some(IrError::UnknownType)
                } else if !self.has_no_unit(params) {
                    Some(IrError::UnitNotAllowed)
                } else {
                    None
                }
            },
            TypeData::BasicBlock(params) => {
                if !self.knows_all(params) {
                    Some(IrError::UnknownType)
                } else if !self.has_no_unit(params) {
                    Some(IrError::UnitNotAllowed)
                } else {
                    None
                }
            },
        }
    }

    /// The handle of the type with the structure of `data`, if the interner
    /// holds it.
    pub fn lookup(&self, data: &TypeData) -> (r: Option<Type>)
        requires
            self.wf(),
        ensures
            r == handle_in(self.id(), self@, data@),
    {
        let r = self.find(data);
        proof {
            match r {
                Some(t) => {
                    assert(self@.contains(data@));
                    let i = self@.index_of(data@);
                    lemma_handle_identity(self@, t, Type(i as usize, self.id()));
                },
                None => {},
            }
        }
        r
    }

    /// An entry is listed under the hash of its shape.
    proof fn lemma_listed(&self, i: int)
        requires
            self.indexed(),
            0 <= i < self@.len(),
        ensures
            self.bucket(shape_hash(self@[i]) as u64).contains(i as usize),
    {
        reveal(TypeFactory::indexed);
    }

    /// What is listed is an entry.
    proof fn lemma_listed_is_entry(&self, h: u64, k: int)
        requires
            self.indexed(),
            0 <= k < self.bucket(h).len(),
        ensures
            self.bucket(h)[k] < self@.len(),
    {
        reveal(TypeFactory::indexed);
    }

    /// Listing a new entry under the hash of its shape keeps every entry
    /// listed.
    proof fn lemma_listed_more(&self, next: &TypeFactory, d: TypeShape, h: u64)
        requires
            self.indexed(),
            self@.len() < usize::MAX,
            next@ == self@.push(d),
            h == shape_hash(d),
            next.bucket(h) == self.bucket(h).push(self@.len() as usize),
            forall|x: u64| x != h ==> next.bucket(x) == self.bucket(x),
        ensures
            next.indexed(),
    {
        reveal(TypeFactory::indexed);
        let n = self@.len() as usize;
        assert forall|i: int| 0 <= i < next@.len() implies next.bucket(
            shape_hash(#[trigger] next@[i]) as u64,
        ).contains(i as usize) by {
            let x = shape_hash(next@[i]) as u64;
            if i < n {
                assert(next@[i] == self@[i]);
                assert(self.bucket(x).contains(i as usize));
                if x == h {
                    let m = choose|m: int|
                        0 <= m < self.bucket(h).len() && self.bucket(h)[m] == i as usize;
                    assert(next.bucket(h)[m] == i as usize);
                }
            } else {
                assert(next.bucket(h)[self.bucket(h).len() as int] == n);
            }
        }
        assert forall|x: u64, k: int| 0 <= k < next.bucket(x).len() implies #[trigger] next.bucket(
            x,
        )[k] < next@.len() by {
            if x == h {
                if k < self.bucket(h).len() {
                    assert(self.bucket(h)[k] < self@.len());
                }
            } else {
                assert(self.bucket(x)[k] < self@.len());
            }
        }
    }

    /// The handle of an entry with the shape of `data`, if there is one.
    fn find(&self, data: &TypeData) -> (r: Option<Type>)
        requires
            self.indexed(),
        ensures
            match r {
                Some(t) => t.1 == self.id() && t.0 < self@.len() && self@[t.0 as int] == data@,
                None => !self@.contains(data@),
            },
    {
        let n = self.types.len();
        let h = hash_of(data);
        let ghost listed = self.bucket(h);
        proof {
            assert(self@.len() == n);
            if self@.contains(data@) {
                self.lemma_listed(self@.index_of(data@));
            }
        }
        match self.index.get(&h) {
            None => None,
            Some(candidates) => {
                let mut k: usize = 0;
                while k < candidates.len()
                    invariant
                        k <= candidates.len(),
                        candidates@ == listed,
                        listed == self.bucket(h),
                        self.indexed(),
                        self@.len() == n,
                        forall|m: int| 0 <= m < k ==> self@[#[trigger] listed[m] as int] != data@,
                    decreases candidates.len() - k,
                {
                    let j = candidates[k];
                    proof {
                        self.lemma_listed_is_entry(h, k as int);
                    }
                    if self.types[j].same(data) {
                        return Some(Type(j, self.id));
                    }
                    k = k + 1;
                }
                proof {
                    if self@.contains(data@) {
                        let i = self@.index_of(data@);
                        self.lemma_listed(i);
                        let m = choose|m: int| 0 <= m < listed.len() && listed[m] == i as usize;
                        assert(self@[listed[m] as int] != data@);
                    }
                }
                None
            },
        }
    }

    /// Interns a type: returns the handle of the entry with this structure,
    /// making the entry if there is none yet.
    ///
    /// The description is refused, and the interner left as it was, when a
    /// component is a handle of another interner or names no entry
    /// (`UnknownType`), or else when `unit` stands as
    /// an array element or as a parameter (`UnitNotAllowed`), or else when the
    /// type is new and the table is full (`IdsExhausted`).
    pub fn get_type(&mut self, data: TypeData) -> (r: Result<Type, IrError>)
        requires
            old(self).wf(),
        ensures
            final(self).wf(),
            r == intern_result(old(self).id(), old(self)@, data@),
            final(self)@ == intern_table(old(self).id(), old(self)@, data@),
            final(self).id() == old(self).id(),
            table_extends(old(self)@, final(self)@),
            r matches Ok(t) ==> final(self).knows(t) && final(self)@[t.0 as int] == data@,
            r is Err ==> *final(self) == *old(self),
    {
        let ghost table = self@;
        let n = self.types.len();
        assert(table.len() == n);
        if let Some(e) = self.check(&data) {
            return Err(e);
        }
        match self.find(&data) {
            Some(t) => {
                proof {
                    lemma_interned(self.id(), table, data@);
                    lemma_handle_identity(table, t, handle_of(self.id(), table, data@));
                }
                Ok(t)
            },
            None => {
                if self.types.len() == usize::MAX {
                    return Err(IrError::IdsExhausted);
                }
                proof {
                    lemma_interned(self.id(), table, data@);
                }
                let t = Type(n, self.id);
                let h = hash_of(&data);
                let ghost d = data@;
                self.types.push(data);
                let mut listed = match self.index.remove(&h) {
                    Some(b) => b,
                    None => Vec::new(),
                };
                listed.push(n);
                self.index.insert(h, listed);
                assert(self@ =~= table.push(d));
                proof {
                    lemma_handle_identity(self@, t, handle_of(self.id(), table, d));
                    assert forall|i: int| 0 <= i < self@.len() implies owned(
                        self.id(),
                        components(#[trigger] self@[i]),
                    ) by {
                        if i < n {
                            assert(self@[i] == table[i]);
                        }
                    }
                    assert forall|x: u64| x != h implies self.bucket(x) == old(self).bucket(x) by {}
                    assert(self.bucket(h) =~= old(self).bucket(h).push(n));
                    old(self).lemma_listed_more(&*self, d, h);
                }
                Ok(t)
            },
        }
    }

    /// The 32-bit integer type. It is interned where the interner does not
    /// hold it yet, and refused with `IdsExhausted` only where it is new and
    /// the table is full.
    pub fn get_i32(&mut self) -> (r: Result<Type, IrError>)
        requires
            old(self).wf(),
        ensures
            final(self).wf(),
            r == intern_result(old(self).id(), old(self)@, TypeShape::Int32),
            final(self)@ == intern_table(old(self).id(), old(self)@, TypeShape::Int32),
            final(self).id() == old(self).id(),
            table_extends(old(self)@, final(self)@),
            r matches Ok(t) ==> final(self).knows(t) && final(self)@[t.0 as int]
                == TypeShape::Int32,
            r matches Err(e) ==> e == IrError::IdsExhausted && *final(self) == *old(self),
    {
        proof {
            assert(components(TypeShape::Int32) =~= Seq::empty());
            assert(unit_free_components(TypeShape::Int32) =~= Seq::empty());
        }
        self.get_type(TypeData::Int32)
    }

    /// The `unit` type. It is interned where the interner does not hold it
    /// yet, and refused with `IdsExhausted` only where it is new and the
    /// table is full.
    pub fn get_unit(&mut self) -> (r: Result<Type, IrError>)
        requires
            old(self).wf(),
        ensures
            final(self).wf(),
            r == intern_result(old(self).id(), old(self)@, TypeShape::Unit),
            final(self)@ == intern_table(old(self).id(), old(self)@, TypeShape::Unit),
            final(self).id() == old(self).id(),
            table_extends(old(self)@, final(self)@),
            r matches Ok(t) ==> final(self).knows(t) && final(self)@[t.0 as int]
                == TypeShape::Unit,
            r matches Err(e) ==> e == IrError::IdsExhausted && *final(self) == *old(self),
    {
        proof {
            assert(components(TypeShape::Unit) =~= Seq::empty());
            assert(unit_free_components(TypeShape::Unit) =~= Seq::empty());
        }
        self.get_type(TypeData::Unit)
    }

    /// The type of arrays of `len` elements of type `base`. Refused with
    /// `UnitNotAllowed` when `base` is `unit`.
    pub fn get_array(&mut self, base: Type, len: usize) -> (r: Result<Type, IrError>)
        requires
            old(self).wf(),
        ensures
            final(self).wf(),
            r == intern_result(old(self).id(), old(self)@, TypeShape::Array(base, len)),
            final(self)@ == intern_table(old(self).id(), old(self)@, TypeShape::Array(base, len)),
            final(self).id() == old(self).id(),
            table_extends(old(self)@, final(self)@),
            r matches Ok(t) ==> final(self).knows(t) && final(self)@[t.0 as int]
                == TypeShape::Array(base, len),
            r is Err ==> *final(self) == *old(self),
            !old(self).knows(base) ==> r == Err::<Type, IrError>(IrError::UnknownType),
            old(self).knows(base) && old(self)@[base.0 as int] is Unit ==> r == Err::<
                Type,
                IrError,
            >(IrError::UnitNotAllowed),
    {
        proof {
            let d = TypeShape::Array(base, len);
            assert(components(d)[0] == base);
            assert(unit_free_components(d)[0] == base);
        }
        self.get_type(TypeData::Array(base, len))
    }

    /// The type of pointers to `base`.
    pub fn get_pointer(&mut self, base: Type) -> (r: Result<Type, IrError>)
        requires
            old(self).wf(),
        ensures
            final(self).wf(),
            r == intern_result(old(self).id(), old(self)@, TypeShape::Pointer(base)),
            final(self)@ == intern_table(old(self).id(), old(self)@, TypeShape::Pointer(base)),
            final(self).id() == old(self).id(),
            table_extends(old(self)@, final(self)@),
            r matches Ok(t) ==> final(self).knows(t) && final(self)@[t.0 as int]
                == TypeShape::Pointer(base),
            r is Err ==> *final(self) == *old(self),
            !old(self).knows(base) ==> r == Err::<Type, IrError>(IrError::UnknownType),
            r matches Err(e) ==> e != IrError::UnitNotAllowed,
    {
        proof {
            let d = TypeShape::Pointer(base);
            assert(components(d)[0] == base);
            assert(unit_free_components(d) =~= Seq::empty());
        }
        self.get_type(TypeData::Pointer(base))
    }

    /// The type of functions from `params` to `ret`. Refused with
    /// `UnitNotAllowed` when a parameter is `unit`; `ret` may be `unit`.
    pub fn get_function(&mut self, params: Vec<Type>, ret: Type) -> (r: Result<Type, IrError>)
        requires
            old(self).wf(),
        ensures
            final(self).wf(),
            r == intern_result(old(self).id(), old(self)@, TypeShape::Function(params@, ret)),
            final(self)@ == intern_table(old(self).id(), old(self)@, TypeShape::Function(params@, ret)),
            final(self).id() == old(self).id(),
            table_extends(old(self)@, final(self)@),
            r matches Ok(t) ==> final(self).knows(t) && final(self)@[t.0 as int]
                == TypeShape::Function(params@, ret),
            r is Err ==> *final(self) == *old(self),
            owned(old(self).id(), params@.push(ret)) && all_known(old(self)@, params@.push(ret))
                && !none_unit(old(self)@, params@) ==> r == Err::<Type, IrError>(
                IrError::UnitNotAllowed,
            ),
    {
        self.get_type(TypeData::Function(params, ret))
    }

    /// The type of basic blocks that take `params`. Refused with
    /// `UnitNotAllowed` when a parameter is `unit`.
    pub fn get_basic_block(&mut self, params: Vec<Type>) -> (r: Result<Type, IrError>)
        requires
            old(self).wf(),
        ensures
            final(self).wf(),
            r == intern_result(old(self).id(), old(self)@, TypeShape::BasicBlock(params@)),
            final(self)@ == intern_table(old(self).id(), old(self)@, TypeShape::BasicBlock(params@)),
            final(self).id() == old(self).id(),
            table_extends(old(self)@, final(self)@),
            r matches Ok(t) ==> final(self).knows(t) && final(self)@[t.0 as int]
                == TypeShape::BasicBlock(params@),
            r is Err ==> *final(self) == *old(self),
            owned(old(self).id(), params@) && all_known(old(self)@, params@) && !none_unit(
                old(self)@,
                params@,
            ) ==> r == Err::<Type, IrError>(IrError::UnitNotAllowed),
    {
        self.get_type(TypeData::BasicBlock(params))
    }

    /// Appends the texts of `ts`, components of the entry at `parent`, to
    /// `out`.
    fn push_list(&self, out: &mut String, ts: &Vec<Type>, parent: usize)
        requires
            table_wf(self@),
            parent <= self@.len(),
            forall|i: int| 0 <= i < ts@.len() ==> (#[trigger] ts@[i]).0 < parent,
        ensures
            final(out)@ == old(out)@ + list_text(self@, ts@, parent),
        decreases parent, 0nat, ts@.len(),
    {
        let mut i: usize = 0;
        assert(old(out)@ + list_text(self@, ts@.take(0), parent) =~= old(out)@);
        while i < ts.len()
            invariant
                i <= ts.len(),
                table_wf(self@),
                parent <= self@.len(),
                forall|k: int| 0 <= k < ts@.len() ==> (#[trigger] ts@[k]).0 < parent,
                out@ == old(out)@ + list_text(self@, ts@.take(i as int), parent),
            decreases ts.len() - i,
        {
            let ghost before = out@;
            if i > 0 {
                out.append(", ");
            }
            self.push_type(out, ts[i]);
            proof {
                let head = ts@.take(i as int);
                let next = ts@.take(i + 1);
                assert(next.drop_last() =~= head);
                assert(next.last() == ts@[i as int]);
                assert(component_text(self@, ts@[i as int], parent) == type_text(
                    self@,
                    ts@[i as int],
                ));
                if i > 0 {
                    assert(out@ =~= old(out)@ + (list_text(self@, head, parent) + ", "@
                        + component_text(self@, ts@[i as int], parent)));
                } else {
                    assert(list_text(self@, head, parent) =~= Seq::<char>::empty());
                    assert(out@ =~= old(out)@ + component_text(self@, ts@[i as int], parent));
                }
            }
            i = i + 1;
        }
        assert(ts@.take(i as int) =~= ts@);
    }

    /// Appends the text of the type `t` to `out`.
    fn push_type(&self, out: &mut String, t: Type)
        requires
            table_wf(self@),
            t.0 < self@.len(),
        ensures
            final(out)@ == old(out)@ + type_text(self@, t),
        decreases t.0, 1nat, 0nat,
    {
        proof {
            lemma_entry_admissible(self@, t);
        }
        let ghost cs = components(self@[t.0 as int]);
        match &self.types[t.0] {
            TypeData::Int32 => {
                out.append("i32");
            },
            TypeData::Unit => {
                out.append("unit");
            },
            TypeData::Array(elem, len) => {
                assert(cs[0] == *elem);
                self.push_type(out, *elem);
                out.append("[");
                push_decimal(out, *len);
                out.append("]");
                assert(out@ =~= old(out)@ + (component_text(self@, *elem, t.0) + "["@ + decimal(
                    *len as nat,
                ) + "]"@));
            },
            TypeData::Pointer(base) => {
                assert(cs[0] == *base);
                out.append("*");
                self.push_type(out, *base);
                assert(out@ =~= old(out)@ + ("*"@ + component_text(self@, *base, t.0)));
            },
            TypeData::Function(params, ret) => {
                assert(cs[params@.len() as int] == *ret);
                assert forall|i: int| 0 <= i < params@.len() implies (#[trigger] params@[i]).0
                    < t.0 by {
                    assert(cs[i] == params@[i]);
                }
                let ghost head = if self@[ret.0 as int] is Unit {
                    Seq::<char>::empty()
                } else {
                    component_text(self@, *ret, t.0)
                };
                if !self.unit_at(*ret) {
                    self.push_type(out, *ret);
                }
                assert(out@ =~= old(out)@ + head);
                out.append("(");
                self.push_list(out, params, t.0);
                out.append(")");
                assert(out@ =~= old(out)@ + (head + "("@ + list_text(self@, params@, t.0) + ")"@));
            },
            TypeData::BasicBlock(params) => {
                assert forall|i: int| 0 <= i < params@.len() implies (#[trigger] params@[i]).0
                    < t.0 by {
                    assert(cs[i] == params@[i]);
                }
                out.append("bb(");
                self.push_list(out, params, t.0);
                out.append(")");
                assert(out@ =~= old(out)@ + ("bb("@ + list_text(self@, params@, t.0) + ")"@));
            },
        }
    }

    /// The text of the type `t`, as [`type_text`] gives it, if `t` is a handle
    /// of this interner and names one of its entries.
    pub fn text_of(&self, t: Type) -> (r: Option<String>)
        requires
            self.wf(),
        ensures
            match r {
                Some(s) => self.knows(t) && s@ == type_text(self@, t),
                None => !self.knows(t),
            },
    {
        if t.1 == self.id && t.0 < self.types.len() {
            let mut out = String::new();
            self.push_type(&mut out, t);
            assert(Seq::<char>::empty() + type_text(self@, t) =~= type_text(self@, t));
            Some(out)
        } else {
            None
        }
    }
}

} // verus!
