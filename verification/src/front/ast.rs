//! The nodes of the syntax tree, one constructor for each kind.

use crate::front::span::Span;
use crate::ir::entities::{BinaryOp, UnaryOp};
use vstd::prelude::*;

verus! {

/// A node of the syntax tree of the textual form of the IR: what the node is,
/// and where in the text it was read.
#[derive(Debug)]
pub struct Ast {
    pub span: Span,
    pub kind: AstKind,
}

/// A node on the heap.
pub type AstBox = Box<Ast>;

impl Ast {
    /// Creates a node on the heap.
    pub fn new(span: Span, kind: AstKind) -> (r: AstBox)
        ensures
            *r == (Ast { span, kind }),
    {
        Box::new(Ast { span, kind })
    }
}

/// Two nodes are the same tree: they are of the same kind and their parts are
/// the same. Where the nodes were read in the text plays no part.
pub open spec fn same_ast(a: Ast, b: Ast) -> bool
    decreases a,
{
    same_kind(a.kind, b.kind)
}

/// Two nodes that may be absent are both absent, or both present and the same
/// tree.
pub open spec fn same_opt(a: Option<AstBox>, b: Option<AstBox>) -> bool
    decreases a,
{
    match (a, b) {
        (Some(x), Some(y)) => same_ast(*x, *y),
        (None, None) => true,
        _ => false,
    }
}

/// Two lists of nodes have the same length and are the same tree node by
/// node.
pub open spec fn same_list(a: Seq<AstBox>, b: Seq<AstBox>) -> bool
    decreases a,
{
    a.len() == b.len() && forall|i: int| 0 <= i < a.len() ==> same_ast(*a[i], *b[i])
}

/// Two lists of named nodes have the same length, the same names, and are
/// the same tree node by node.
pub open spec fn same_named(a: Seq<(String, AstBox)>, b: Seq<(String, AstBox)>) -> bool
    decreases a,
{
    a.len() == b.len() && forall|i: int|
        0 <= i < a.len() ==> a[i].0@ == b[i].0@ && same_ast(*a[i].1, *b[i].1)
}

/// Two lists of labelled nodes have the same length, the same labels, and
/// are the same tree node by node.
pub open spec fn same_labelled(a: Seq<(AstBox, String)>, b: Seq<(AstBox, String)>) -> bool
    decreases a,
{
    a.len() == b.len() && forall|i: int|
        0 <= i < a.len() ==> a[i].1@ == b[i].1@ && same_ast(*a[i].0, *b[i].0)
}

/// Two kinds of node are the same variant with the same parts.
pub open spec fn same_kind(a: AstKind, b: AstKind) -> bool
    decreases a,
{
    match (a, b) {
        (AstKind::IntType(_), AstKind::IntType(_)) => true,
        (AstKind::ArrayType(x), AstKind::ArrayType(y)) => {
            same_ast(*x.base, *y.base)
            && x.len == y.len
        },
        (AstKind::PointerType(x), AstKind::PointerType(y)) => {
            same_ast(*x.base, *y.base)
        },
        (AstKind::FunType(x), AstKind::FunType(y)) => {
            same_list(x.params@, y.params@)
            && same_opt(x.ret, y.ret)
        },
        (AstKind::SymbolRef(x), AstKind::SymbolRef(y)) => {
            x.symbol@ == y.symbol@
        },
        (AstKind::IntVal(x), AstKind::IntVal(y)) => {
            x.value == y.value
        },
        (AstKind::UndefVal(_), AstKind::UndefVal(_)) => true,
        (AstKind::Aggregate(x), AstKind::Aggregate(y)) => {
            same_list(x.elems@, y.elems@)
        },
        (AstKind::ZeroInit(_), AstKind::ZeroInit(_)) => true,
        (AstKind::SymbolDef(x), AstKind::SymbolDef(y)) => {
            x.name@ == y.name@
            && same_ast(*x.value, *y.value)
        },
        (AstKind::GlobalDef(x), AstKind::GlobalDef(y)) => {
            x.name@ == y.name@
            && same_ast(*x.value, *y.value)
        },
        (AstKind::MemDecl(x), AstKind::MemDecl(y)) => {
            same_ast(*x.ty, *y.ty)
        },
        (AstKind::GlobalDecl(x), AstKind::GlobalDecl(y)) => {
            same_ast(*x.ty, *y.ty)
            && same_ast(*x.init, *y.init)
        },
        (AstKind::Load(x), AstKind::Load(y)) => {
            x.symbol@ == y.symbol@
        },
        (AstKind::Store(x), AstKind::Store(y)) => {
            same_ast(*x.value, *y.value)
            && x.symbol@ == y.symbol@
        },
        (AstKind::GetPointer(x), AstKind::GetPointer(y)) => {
            x.symbol@ == y.symbol@
            && same_ast(*x.value, *y.value)
        },
        (AstKind::GetElementPointer(x), AstKind::GetElementPointer(y)) => {
            x.symbol@ == y.symbol@
            && same_ast(*x.value, *y.value)
        },
        (AstKind::BinaryExpr(x), AstKind::BinaryExpr(y)) => {
            x.op == y.op
            && same_ast(*x.lhs, *y.lhs)
            && same_ast(*x.rhs, *y.rhs)
        },
        (AstKind::UnaryExpr(x), AstKind::UnaryExpr(y)) => {
            x.op == y.op
            && same_ast(*x.opr, *y.opr)
        },
        (AstKind::Branch(x), AstKind::Branch(y)) => {
            same_ast(*x.cond, *y.cond)
            && x.tbb@ == y.tbb@
            && x.fbb@ == y.fbb@
        },
        (AstKind::Jump(x), AstKind::Jump(y)) => {
            x.target@ == y.target@
        },
        (AstKind::FunCall(x), AstKind::FunCall(y)) => {
            x.fun@ == y.fun@
            && same_list(x.args@, y.args@)
        },
        (AstKind::Return(x), AstKind::Return(y)) => {
            same_opt(x.value, y.value)
        },
        (AstKind::FunDef(x), AstKind::FunDef(y)) => {
            x.name@ == y.name@
            && same_named(x.params@, y.params@)
            && same_opt(x.ret, y.ret)
            && same_list(x.bbs@, y.bbs@)
        },
        (AstKind::Block(x), AstKind::Block(y)) => {
            x.name@ == y.name@
            && same_list(x.stmts@, y.stmts@)
        },
        (AstKind::FunDecl(x), AstKind::FunDecl(y)) => {
            x.name@ == y.name@
            && same_list(x.params@, y.params@)
            && same_opt(x.ret, y.ret)
        },
        (AstKind::Phi(x), AstKind::Phi(y)) => {
            same_ast(*x.ty, *y.ty)
            && same_labelled(x.oprs@, y.oprs@)
        },
        (AstKind::End(_), AstKind::End(_)) => true,
        (AstKind::Error(_), AstKind::Error(_)) => true,
        _ => false,
    }
}

fn opt_same(a: &Option<AstBox>, b: &Option<AstBox>) -> (r: bool)
    ensures
        r == same_opt(*a, *b),
    decreases *a,
{
    match (a, b) {
        (Some(x), Some(y)) => x.same(y),
        (None, None) => true,
        _ => false,
    }
}

fn list_same(a: &Vec<AstBox>, b: &Vec<AstBox>) -> (r: bool)
    ensures
        r == same_list(a@, b@),
    decreases a@,
{
    if a.len() != b.len() {
        return false;
    }
    let mut i: usize = 0;
    while i < a.len()
        invariant
            i <= a.len(),
            a.len() == b.len(),
            forall|k: int| 0 <= k < i ==> same_ast(*a@[k], *b@[k]),
        decreases a.len() - i,
    {
        if !a[i].same(&b[i]) {
            return false;
        }
        i = i + 1;
    }
    true
}

fn named_same(a: &Vec<(String, AstBox)>, b: &Vec<(String, AstBox)>) -> (r: bool)
    ensures
        r == same_named(a@, b@),
    decreases a@,
{
    if a.len() != b.len() {
        return false;
    }
    let mut i: usize = 0;
    while i < a.len()
        invariant
            i <= a.len(),
            a.len() == b.len(),
            forall|k: int| 0 <= k < i ==> a@[k].0@ == b@[k].0@ && same_ast(*a@[k].1, *b@[k].1),
        decreases a.len() - i,
    {
        if !(a[i].0 == b[i].0 && a[i].1.same(&b[i].1)) {
            return false;
        }
        i = i + 1;
    }
    true
}

fn labelled_same(a: &Vec<(AstBox, String)>, b: &Vec<(AstBox, String)>) -> (r: bool)
    ensures
        r == same_labelled(a@, b@),
    decreases a@,
{
    if a.len() != b.len() {
        return false;
    }
    let mut i: usize = 0;
    while i < a.len()
        invariant
            i <= a.len(),
            a.len() == b.len(),
            forall|k: int| 0 <= k < i ==> a@[k].1@ == b@[k].1@ && same_ast(*a@[k].0, *b@[k].0),
        decreases a.len() - i,
    {
        if !(a[i].1 == b[i].1 && a[i].0.same(&b[i].0)) {
            return false;
        }
        i = i + 1;
    }
    true
}

impl Ast {
    /// Whether two nodes are the same tree, wherever they were read.
    pub fn same(&self, other: &Ast) -> (r: bool)
        ensures
            r == same_ast(*self, *other),
        decreases *self,
    {
        match (&self.kind, &other.kind) {
            (AstKind::IntType(_), AstKind::IntType(_)) => true,
            (AstKind::ArrayType(x), AstKind::ArrayType(y)) => {
                x.base.same(&y.base)
                && x.len == y.len
            },
            (AstKind::PointerType(x), AstKind::PointerType(y)) => {
                x.base.same(&y.base)
            },
            (AstKind::FunType(x), AstKind::FunType(y)) => {
                list_same(&x.params, &y.params)
                && opt_same(&x.ret, &y.ret)
            },
            (AstKind::SymbolRef(x), AstKind::SymbolRef(y)) => {
                x.symbol == y.symbol
            },
            (AstKind::IntVal(x), AstKind::IntVal(y)) => {
                x.value == y.value
            },
            (AstKind::UndefVal(_), AstKind::UndefVal(_)) => true,
            (AstKind::Aggregate(x), AstKind::Aggregate(y)) => {
                list_same(&x.elems, &y.elems)
            },
            (AstKind::ZeroInit(_), AstKind::ZeroInit(_)) => true,
            (AstKind::SymbolDef(x), AstKind::SymbolDef(y)) => {
                x.name == y.name
                && x.value.same(&y.value)
            },
            (AstKind::GlobalDef(x), AstKind::GlobalDef(y)) => {
                x.name == y.name
                && x.value.same(&y.value)
            },
            (AstKind::MemDecl(x), AstKind::MemDecl(y)) => {
                x.ty.same(&y.ty)
            },
            (AstKind::GlobalDecl(x), AstKind::GlobalDecl(y)) => {
                x.ty.same(&y.ty)
                && x.init.same(&y.init)
            },
            (AstKind::Load(x), AstKind::Load(y)) => {
                x.symbol == y.symbol
            },
            (AstKind::Store(x), AstKind::Store(y)) => {
                x.value.same(&y.value)
                && x.symbol == y.symbol
            },
            (AstKind::GetPointer(x), AstKind::GetPointer(y)) => {
                x.symbol == y.symbol
                && x.value.same(&y.value)
            },
            (AstKind::GetElementPointer(x), AstKind::GetElementPointer(y)) => {
                x.symbol == y.symbol
                && x.value.same(&y.value)
            },
            (AstKind::BinaryExpr(x), AstKind::BinaryExpr(y)) => {
                x.op == y.op
                && x.lhs.same(&y.lhs)
                && x.rhs.same(&y.rhs)
            },
            (AstKind::UnaryExpr(x), AstKind::UnaryExpr(y)) => {
                x.op == y.op
                && x.opr.same(&y.opr)
            },
            (AstKind::Branch(x), AstKind::Branch(y)) => {
                x.cond.same(&y.cond)
                && x.tbb == y.tbb
                && x.fbb == y.fbb
            },
            (AstKind::Jump(x), AstKind::Jump(y)) => {
                x.target == y.target
            },
            (AstKind::FunCall(x), AstKind::FunCall(y)) => {
                x.fun == y.fun
                && list_same(&x.args, &y.args)
            },
            (AstKind::Return(x), AstKind::Return(y)) => {
                opt_same(&x.value, &y.value)
            },
            (AstKind::FunDef(x), AstKind::FunDef(y)) => {
                x.name == y.name
                && named_same(&x.params, &y.params)
                && opt_same(&x.ret, &y.ret)
                && list_same(&x.bbs, &y.bbs)
            },
            (AstKind::Block(x), AstKind::Block(y)) => {
                x.name == y.name
                && list_same(&x.stmts, &y.stmts)
            },
            (AstKind::FunDecl(x), AstKind::FunDecl(y)) => {
                x.name == y.name
                && list_same(&x.params, &y.params)
                && opt_same(&x.ret, &y.ret)
            },
            (AstKind::Phi(x), AstKind::Phi(y)) => {
                x.ty.same(&y.ty)
                && labelled_same(&x.oprs, &y.oprs)
            },
            (AstKind::End(_), AstKind::End(_)) => true,
            (AstKind::Error(_), AstKind::Error(_)) => true,
            _ => false,
        }
    }
}

impl PartialEq for Ast {
    /// Two nodes are equal when they are the same tree; their spans are not
    /// compared.
    fn eq(&self, other: &Self) -> (r: bool) {
        self.same(other)
    }
}

impl vstd::std_specs::cmp::PartialEqSpecImpl for Ast {
    open spec fn obeys_eq_spec() -> bool {
        true
    }

    open spec fn eq_spec(&self, other: &Self) -> bool {
        same_ast(*self, *other)
    }
}

/// What a node of the syntax tree is.
#[derive(Debug, PartialEq)]
pub enum AstKind {
    IntType(IntType),
    ArrayType(ArrayType),
    PointerType(PointerType),
    FunType(FunType),
    SymbolRef(SymbolRef),
    IntVal(IntVal),
    UndefVal(UndefVal),
    Aggregate(Aggregate),
    ZeroInit(ZeroInit),
    SymbolDef(SymbolDef),
    GlobalDef(GlobalDef),
    MemDecl(MemDecl),
    GlobalDecl(GlobalDecl),
    Load(Load),
    Store(Store),
    GetPointer(GetPointer),
    GetElementPointer(GetElementPointer),
    BinaryExpr(BinaryExpr),
    UnaryExpr(UnaryExpr),
    Branch(Branch),
    Jump(Jump),
    FunCall(FunCall),
    Return(Return),
    FunDef(FunDef),
    Block(Block),
    FunDecl(FunDecl),
    Phi(Phi),
    End(End),
    Error(Error),
}

/// 32-bit integer type.
#[derive(Debug, PartialEq)]
pub struct IntType;

impl IntType {
    /// Creates a node of this kind.
    pub fn new(span: Span) -> (r: AstBox)
        ensures
            *r == (Ast { span, kind: AstKind::IntType(IntType) }),
    {
        Ast::new(span, AstKind::IntType(IntType))
    }
}

/// Array type.
#[derive(Debug, PartialEq)]
pub struct ArrayType {
    pub base: AstBox,
    pub len: usize,
}

impl ArrayType {
    /// Creates a node of this kind.
    pub fn new(span: Span, base: AstBox, len: usize) -> (r: AstBox)
        ensures
            *r == (Ast { span, kind: AstKind::ArrayType(ArrayType { base, len }) }),
    {
        Ast::new(span, AstKind::ArrayType(ArrayType { base, len }))
    }
}

/// Pointer type.
#[derive(Debug, PartialEq)]
pub struct PointerType {
    pub base: AstBox,
}

impl PointerType {
    /// Creates a node of this kind.
    pub fn new(span: Span, base: AstBox) -> (r: AstBox)
        ensures
            *r == (Ast { span, kind: AstKind::PointerType(PointerType { base }) }),
    {
        Ast::new(span, AstKind::PointerType(PointerType { base }))
    }
}

/// Function type.
#[derive(Debug, PartialEq)]
pub struct FunType {
    pub params: Vec<AstBox>,
    pub ret: Option<AstBox>,
}

impl FunType {
    /// Creates a node of this kind.
    pub fn new(span: Span, params: Vec<AstBox>, ret: Option<AstBox>) -> (r: AstBox)
        ensures
            *r == (Ast { span, kind: AstKind::FunType(FunType { params, ret }) }),
    {
        Ast::new(span, AstKind::FunType(FunType { params, ret }))
    }
}

/// Symbol reference.
#[derive(Debug, PartialEq)]
pub struct SymbolRef {
    pub symbol: String,
}

impl SymbolRef {
    /// Creates a node of this kind.
    pub fn new(span: Span, symbol: String) -> (r: AstBox)
        ensures
            *r == (Ast { span, kind: AstKind::SymbolRef(SymbolRef { symbol }) }),
    {
        Ast::new(span, AstKind::SymbolRef(SymbolRef { symbol }))
    }
}

/// Integer literal.
#[derive(Debug, PartialEq)]
pub struct IntVal {
    pub value: i32,
}

impl IntVal {
    /// Creates a node of this kind.
    pub fn new(span: Span, value: i32) -> (r: AstBox)
        ensures
            *r == (Ast { span, kind: AstKind::IntVal(IntVal { value }) }),
    {
        Ast::new(span, AstKind::IntVal(IntVal { value }))
    }
}

/// Undefined value.
#[derive(Debug, PartialEq)]
pub struct UndefVal;

impl UndefVal {
    /// Creates a node of this kind.
    pub fn new(span: Span) -> (r: AstBox)
        ensures
            *r == (Ast { span, kind: AstKind::UndefVal(UndefVal) }),
    {
        Ast::new(span, AstKind::UndefVal(UndefVal))
    }
}

/// Aggregate value.
#[derive(Debug, PartialEq)]
pub struct Aggregate {
    pub elems: Vec<AstBox>,
}

impl Aggregate {
    /// Creates a node of this kind.
    pub fn new(span: Span, elems: Vec<AstBox>) -> (r: AstBox)
        ensures
            *r == (Ast { span, kind: AstKind::Aggregate(Aggregate { elems }) }),
    {
        Ast::new(span, AstKind::Aggregate(Aggregate { elems }))
    }
}

/// Zero initializer.
#[derive(Debug, PartialEq)]
pub struct ZeroInit;

impl ZeroInit {
    /// Creates a node of this kind.
    pub fn new(span: Span) -> (r: AstBox)
        ensures
            *r == (Ast { span, kind: AstKind::ZeroInit(ZeroInit) }),
    {
        Ast::new(span, AstKind::ZeroInit(ZeroInit))
    }
}

/// Symbol definition.
#[derive(Debug, PartialEq)]
pub struct SymbolDef {
    pub name: String,
    pub value: AstBox,
}

impl SymbolDef {
    /// Creates a node of this kind.
    pub fn new(span: Span, name: String, value: AstBox) -> (r: AstBox)
        ensures
            *r == (Ast { span, kind: AstKind::SymbolDef(SymbolDef { name, value }) }),
    {
        Ast::new(span, AstKind::SymbolDef(SymbolDef { name, value }))
    }
}

/// Global symbol definition.
#[derive(Debug, PartialEq)]
pub struct GlobalDef {
    pub name: String,
    pub value: AstBox,
}

impl GlobalDef {
    /// Creates a node of this kind.
    pub fn new(span: Span, name: String, value: AstBox) -> (r: AstBox)
        ensures
            *r == (Ast { span, kind: AstKind::GlobalDef(GlobalDef { name, value }) }),
    {
        Ast::new(span, AstKind::GlobalDef(GlobalDef { name, value }))
    }
}

/// Memory declaration.
#[derive(Debug, PartialEq)]
pub struct MemDecl {
    pub ty: AstBox,
}

impl MemDecl {
    /// Creates a node of this kind.
    pub fn new(span: Span, ty: AstBox) -> (r: AstBox)
        ensures
            *r == (Ast { span, kind: AstKind::MemDecl(MemDecl { ty }) }),
    {
        Ast::new(span, AstKind::MemDecl(MemDecl { ty }))
    }
}

/// Global memory declaration.
#[derive(Debug, PartialEq)]
pub struct GlobalDecl {
    pub ty: AstBox,
    pub init: AstBox,
}

impl GlobalDecl {
    /// Creates a node of this kind.
    pub fn new(span: Span, ty: AstBox, init: AstBox) -> (r: AstBox)
        ensures
            *r == (Ast { span, kind: AstKind::GlobalDecl(GlobalDecl { ty, init }) }),
    {
        Ast::new(span, AstKind::GlobalDecl(GlobalDecl { ty, init }))
    }
}

/// Load.
#[derive(Debug, PartialEq)]
pub struct Load {
    pub symbol: String,
}

impl Load {
    /// Creates a node of this kind.
    pub fn new(span: Span, symbol: String) -> (r: AstBox)
        ensures
            *r == (Ast { span, kind: AstKind::Load(Load { symbol }) }),
    {
        Ast::new(span, AstKind::Load(Load { symbol }))
    }
}

/// Store.
#[derive(Debug, PartialEq)]
pub struct Store {
    pub value: AstBox,
    pub symbol: String,
}

impl Store {
    /// Creates a node of this kind.
    pub fn new(span: Span, value: AstBox, symbol: String) -> (r: AstBox)
        ensures
            *r == (Ast { span, kind: AstKind::Store(Store { value, symbol }) }),
    {
        Ast::new(span, AstKind::Store(Store { value, symbol }))
    }
}

/// Pointer calculation.
#[derive(Debug, PartialEq)]
pub struct GetPointer {
    pub symbol: String,
    pub value: AstBox,
}

impl GetPointer {
    /// Creates a node of this kind.
    pub fn new(span: Span, symbol: String, value: AstBox) -> (r: AstBox)
        ensures
            *r == (Ast { span, kind: AstKind::GetPointer(GetPointer { symbol, value }) }),
    {
        Ast::new(span, AstKind::GetPointer(GetPointer { symbol, value }))
    }
}

/// Element pointer calculation.
#[derive(Debug, PartialEq)]
pub struct GetElementPointer {
    pub symbol: String,
    pub value: AstBox,
}

impl GetElementPointer {
    /// Creates a node of this kind.
    pub fn new(span: Span, symbol: String, value: AstBox) -> (r: AstBox)
        ensures
            *r == (Ast {
                span,
                kind: AstKind::GetElementPointer(GetElementPointer { symbol, value }),
            }),
    {
        Ast::new(span, AstKind::GetElementPointer(GetElementPointer { symbol, value }))
    }
}

/// Binary expression.
#[derive(Debug, PartialEq)]
pub struct BinaryExpr {
    pub op: BinaryOp,
    pub lhs: AstBox,
    pub rhs: AstBox,
}

impl BinaryExpr {
    /// Creates a node of this kind.
    pub fn new(span: Span, op: BinaryOp, lhs: AstBox, rhs: AstBox) -> (r: AstBox)
        ensures
            *r == (Ast { span, kind: AstKind::BinaryExpr(BinaryExpr { op, lhs, rhs }) }),
    {
        Ast::new(span, AstKind::BinaryExpr(BinaryExpr { op, lhs, rhs }))
    }
}

/// Unary expression.
#[derive(Debug, PartialEq)]
pub struct UnaryExpr {
    pub op: UnaryOp,
    pub opr: AstBox,
}

impl UnaryExpr {
    /// Creates a node of this kind.
    pub fn new(span: Span, op: UnaryOp, opr: AstBox) -> (r: AstBox)
        ensures
            *r == (Ast { span, kind: AstKind::UnaryExpr(UnaryExpr { op, opr }) }),
    {
        Ast::new(span, AstKind::UnaryExpr(UnaryExpr { op, opr }))
    }
}

/// Branch.
#[derive(Debug, PartialEq)]
pub struct Branch {
    pub cond: AstBox,
    pub tbb: String,
    pub fbb: String,
}

impl Branch {
    /// Creates a node of this kind.
    pub fn new(span: Span, cond: AstBox, tbb: String, fbb: String) -> (r: AstBox)
        ensures
            *r == (Ast { span, kind: AstKind::Branch(Branch { cond, tbb, fbb }) }),
    {
        Ast::new(span, AstKind::Branch(Branch { cond, tbb, fbb }))
    }
}

/// Jump.
#[derive(Debug, PartialEq)]
pub struct Jump {
    pub target: String,
}

impl Jump {
    /// Creates a node of this kind.
    pub fn new(span: Span, target: String) -> (r: AstBox)
        ensures
            *r == (Ast { span, kind: AstKind::Jump(Jump { target }) }),
    {
        Ast::new(span, AstKind::Jump(Jump { target }))
    }
}

/// Function call.
#[derive(Debug, PartialEq)]
pub struct FunCall {
    pub fun: String,
    pub args: Vec<AstBox>,
}

impl FunCall {
    /// Creates a node of this kind.
    pub fn new(span: Span, fun: String, args: Vec<AstBox>) -> (r: AstBox)
        ensures
            *r == (Ast { span, kind: AstKind::FunCall(FunCall { fun, args }) }),
    {
        Ast::new(span, AstKind::FunCall(FunCall { fun, args }))
    }
}

/// Return.
#[derive(Debug, PartialEq)]
pub struct Return {
    pub value: Option<AstBox>,
}

impl Return {
    /// Creates a node of this kind.
    pub fn new(span: Span, value: Option<AstBox>) -> (r: AstBox)
        ensures
            *r == (Ast { span, kind: AstKind::Return(Return { value }) }),
    {
        Ast::new(span, AstKind::Return(Return { value }))
    }
}

/// Function definition.
#[derive(Debug, PartialEq)]
pub struct FunDef {
    pub name: String,
    pub params: Vec<(String, AstBox)>,
    pub ret: Option<AstBox>,
    pub bbs: Vec<AstBox>,
}

impl FunDef {
    /// Creates a node of this kind.
    pub fn new(
        span: Span,
        name: String,
        params: Vec<(String, AstBox)>,
        ret: Option<AstBox>,
        bbs: Vec<AstBox>,
    ) -> (r: AstBox)
        ensures
            *r == (Ast { span, kind: AstKind::FunDef(FunDef { name, params, ret, bbs }) }),
    {
        Ast::new(span, AstKind::FunDef(FunDef { name, params, ret, bbs }))
    }
}

/// Basic block.
#[derive(Debug, PartialEq)]
pub struct Block {
    pub name: String,
    pub stmts: Vec<AstBox>,
}

impl Block {
    /// Creates a node of this kind.
    pub fn new(span: Span, name: String, stmts: Vec<AstBox>) -> (r: AstBox)
        ensures
            *r == (Ast { span, kind: AstKind::Block(Block { name, stmts }) }),
    {
        Ast::new(span, AstKind::Block(Block { name, stmts }))
    }
}

/// Function declaration.
#[derive(Debug, PartialEq)]
pub struct FunDecl {
    pub name: String,
    pub params: Vec<AstBox>,
    pub ret: Option<AstBox>,
}

impl FunDecl {
    /// Creates a node of this kind.
    pub fn new(span: Span, name: String, params: Vec<AstBox>, ret: Option<AstBox>) -> (r: AstBox)
        ensures
            *r == (Ast { span, kind: AstKind::FunDecl(FunDecl { name, params, ret }) }),
    {
        Ast::new(span, AstKind::FunDecl(FunDecl { name, params, ret }))
    }
}

/// Phi function.
#[derive(Debug, PartialEq)]
pub struct Phi {
    pub ty: AstBox,
    pub oprs: Vec<(AstBox, String)>,
}

impl Phi {
    /// Creates a node of this kind.
    pub fn new(span: Span, ty: AstBox, oprs: Vec<(AstBox, String)>) -> (r: AstBox)
        ensures
            *r == (Ast { span, kind: AstKind::Phi(Phi { ty, oprs }) }),
    {
        Ast::new(span, AstKind::Phi(Phi { ty, oprs }))
    }
}

/// End of file.
#[derive(Debug, PartialEq)]
pub struct End;

impl End {
    /// Creates a node of this kind.
    pub fn new(span: Span) -> (r: AstBox)
        ensures
            *r == (Ast { span, kind: AstKind::End(End) }),
    {
        Ast::new(span, AstKind::End(End))
    }
}

/// A node that could not be read.
#[derive(Debug, PartialEq)]
pub struct Error;

impl Error {
    /// Creates a node of this kind.
    pub fn new(span: Span) -> (r: AstBox)
        ensures
            *r == (Ast { span, kind: AstKind::Error(Error) }),
    {
        Ast::new(span, AstKind::Error(Error))
    }
}

} // verus!
