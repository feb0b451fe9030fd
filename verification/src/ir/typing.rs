//! The rules of typing: which type a value of each kind has, given the
//! types of its operands, and why a value is refused.

use crate::ir::entities::{
    bb_uses, is_const_kind, value_uses, BasicBlock, Function, KindView, Value, ValueData,
    ValueKind,
};
use crate::ir::error::IrError;
use crate::ir::table::{BlockMap, Blocks, FuncTypes, ValueMap, Values};
use crate::ir::types::{
    handle_in, intern_result, intern_table, known, Type, TypeData, TypeFactory,
    TypeShape,
};
use crate::ir::usedef::{in_scope, record};
use vstd::prelude::*;

verus! {

/// What the rules of typing look at: the table of types, the values of the
/// local and of the global scope, the basic blocks, the types of the
/// functions, and the return type of the function around the values, if there
/// is one.
pub struct Env {
    pub owner: u64,
    pub types: Seq<TypeShape>,
    pub locals: Values,
    pub globals: Values,
    pub blocks: Blocks,
    pub func_tys: Map<Function, Type>,
    pub ret_ty: Option<Type>,
}

/// The shape of the type that `t` names, where it names one.
pub open spec fn shape(table: Seq<TypeShape>, t: Type) -> Option<TypeShape> {
    if t.0 < table.len() {
        Some(table[t.0 as int])
    } else {
        None
    }
}

/// The shape of the type that `t` names in the table of the interner with the
/// number `owner`, where `t` is a handle of that interner and names one.
pub open spec fn own_shape(owner: u64, table: Seq<TypeShape>, t: Type) -> Option<TypeShape> {
    if known(owner, table, t) {
        Some(table[t.0 as int])
    } else {
        None
    }
}

/// The type of the value that `v` names.
pub open spec fn ty_of(env: Env, v: Value) -> Type {
    record(env.locals, env.globals, v).ty
}

/// The shape of the type of the value that `v` names.
pub open spec fn shape_of(env: Env, v: Value) -> Option<TypeShape> {
    shape(env.types, ty_of(env, v))
}

/// The kind of the value that `v` names.
pub open spec fn kind_of(env: Env, v: Value) -> KindView {
    record(env.locals, env.globals, v).kind
}

/// All of `vs` name values in scope.
pub open spec fn all_in_scope(env: Env, vs: Seq<Value>) -> bool {
    forall|i: int| 0 <= i < vs.len() ==> in_scope(env.locals, env.globals, #[trigger] vs[i])
}

/// All of `bbs` name basic blocks of the graph.
pub open spec fn all_blocks_known(env: Env, bbs: Seq<BasicBlock>) -> bool {
    forall|i: int| 0 <= i < bbs.len() ==> env.blocks.contains_key(#[trigger] bbs[i])
}

/// All of `vs` name constants.
pub open spec fn all_const(env: Env, vs: Seq<Value>) -> bool {
    forall|i: int| 0 <= i < vs.len() ==> is_const_kind(kind_of(env, #[trigger] vs[i]))
}

/// All of `vs` have the type `t`.
pub open spec fn all_of_type(env: Env, vs: Seq<Value>, t: Type) -> bool {
    forall|i: int| 0 <= i < vs.len() ==> ty_of(env, #[trigger] vs[i]) == t
}

/// The types of `args` are `params`, one by one.
pub open spec fn types_agree(env: Env, args: Seq<Value>, params: Seq<Type>) -> bool {
    forall|i: int| 0 <= i < args.len() ==> ty_of(env, #[trigger] args[i]) == params[i]
}

/// `TypeMismatch` unless `ok`.
pub open spec fn mismatch_unless(ok: bool) -> Option<IrError> {
    if ok {
        None
    } else {
        Some(IrError::TypeMismatch)
    }
}

/// Why `args` cannot be passed for `params`: `ArityMismatch` where their
/// numbers differ, else `TypeMismatch` where some types differ.
pub open spec fn args_refusal(env: Env, args: Seq<Value>, params: Seq<Type>) -> Option<IrError> {
    if args.len() != params.len() {
        Some(IrError::ArityMismatch)
    } else {
        mismatch_unless(types_agree(env, args, params))
    }
}

/// Why `args` cannot be passed to the basic block `bb`.
pub open spec fn block_args_refusal(env: Env, args: Seq<Value>, bb: BasicBlock) -> Option<
    IrError,
> {
    match shape(env.types, env.blocks[bb].ty) {
        Some(TypeShape::BasicBlock(params)) => args_refusal(env, args, params),
        _ => Some(IrError::TypeMismatch),
    }
}

/// The first of two refusals.
pub open spec fn or_else(first: Option<IrError>, second: Option<IrError>) -> Option<IrError> {
    if first is Some {
        first
    } else {
        second
    }
}

/// The rule of each kind: why a value of kind `k` cannot have the type `ty`,
/// given that `ty`, the operands and the basic blocks of `k` are known.
///
/// - An integer has the 32-bit integer type. A zero initializer and an
///   undefined value have any type.
/// - An aggregate has at least one element, all of them constants of one
///   type, and is an array of that type with their number as its length.
/// - References to parameters are made with what they belong to, never alone.
/// - An allocation is a pointer. A global allocation takes a constant and is
///   a pointer to its type.
/// - A load takes a pointer and has the type pointed to. A store takes a
///   value and a pointer to its type, and is `unit`.
/// - A pointer calculation takes a pointer and a 32-bit integer and has the
///   pointer's type. An element pointer calculation takes a pointer to an
///   array and is a pointer to the element type.
/// - A binary operation takes two 32-bit integers and is one.
/// - A branch takes a 32-bit integer and, for each target, arguments of the
///   types of the target's parameters; a jump likewise. Both are `unit`.
/// - A call takes arguments of the types of the callee's parameters and has
///   the callee's return type.
/// - A return takes a value of the return type of the function around it, or
///   nothing where that type is `unit`, and is `unit`.
pub open spec fn rule_refusal(env: Env, k: KindView, ty: Type) -> Option<IrError> {
    let table = env.types;
    match k {
        KindView::Integer { value } => mismatch_unless(shape(table, ty) == Some(TypeShape::Int32)),
        KindView::ZeroInit => None,
        KindView::Undef => None,
        KindView::Aggregate { elems } => {
            if elems.len() == 0 {
                Some(IrError::EmptyAggregate)
            } else if !all_const(env, elems) {
                Some(IrError::NotConstant)
            } else {
                mismatch_unless(
                    all_of_type(env, elems, ty_of(env, elems[0])) && shape(table, ty) == Some(
                        TypeShape::Array(ty_of(env, elems[0]), elems.len() as usize),
                    ),
                )
            }
        },
        KindView::FuncArgRef { index } => Some(IrError::InvalidKind),
        KindView::BlockArgRef { bb, index } => Some(IrError::InvalidKind),
        KindView::Alloc => mismatch_unless(shape(table, ty) is Some && shape(table, ty)->0 is Pointer),
        KindView::GlobalAlloc { init } => {
            if !is_const_kind(kind_of(env, init)) {
                Some(IrError::NotConstant)
            } else {
                mismatch_unless(shape(table, ty) == Some(TypeShape::Pointer(ty_of(env, init))))
            }
        },
        KindView::Load { src } => mismatch_unless(shape_of(env, src) == Some(TypeShape::Pointer(ty))),
        KindView::Store { value, dest } => mismatch_unless(
            shape_of(env, dest) == Some(TypeShape::Pointer(ty_of(env, value))) && shape(table, ty)
                == Some(TypeShape::Unit),
        ),
        KindView::GetPtr { src, index } => mismatch_unless(
            shape_of(env, src) is Some && shape_of(env, src)->0 is Pointer && shape_of(env, index)
                == Some(TypeShape::Int32) && ty == ty_of(env, src),
        ),
        KindView::GetElemPtr { src, index } => mismatch_unless(
            match shape_of(env, src) {
                Some(TypeShape::Pointer(arr)) => match shape(table, arr) {
                    Some(TypeShape::Array(elem, _)) => shape(table, ty) == Some(
                        TypeShape::Pointer(elem),
                    ),
                    _ => false,
                },
                _ => false,
            },
        ),
        KindView::Binary { op, lhs, rhs } => mismatch_unless(
            shape_of(env, lhs) == Some(TypeShape::Int32) && shape_of(env, rhs) == Some(
                TypeShape::Int32,
            ) && shape(table, ty) == Some(TypeShape::Int32),
        ),
        KindView::Branch { cond, true_bb, true_args, false_bb, false_args } => or_else(
            mismatch_unless(shape_of(env, cond) == Some(TypeShape::Int32)),
            or_else(
                block_args_refusal(env, true_args, true_bb),
                or_else(
                    block_args_refusal(env, false_args, false_bb),
                    mismatch_unless(shape(table, ty) == Some(TypeShape::Unit)),
                ),
            ),
        ),
        KindView::Jump { target, args } => or_else(
            block_args_refusal(env, args, target),
            mismatch_unless(shape(table, ty) == Some(TypeShape::Unit)),
        ),
        KindView::Call { callee, args } => {
            if !env.func_tys.contains_key(callee) {
                Some(IrError::UnknownFunction)
            } else {
                match shape(table, env.func_tys[callee]) {
                    Some(TypeShape::Function(params, ret)) => or_else(
                        args_refusal(env, args, params),
                        mismatch_unless(ty == ret),
                    ),
                    _ => Some(IrError::TypeMismatch),
                }
            }
        },
        KindView::Return { value } => match env.ret_ty {
            None => Some(IrError::InvalidKind),
            Some(rt) => mismatch_unless(
                shape(table, ty) == Some(TypeShape::Unit) && match value {
                    Some(v) => ty_of(env, v) == rt,
                    None => shape(table, rt) == Some(TypeShape::Unit),
                },
            ),
        },
    }
}

/// Why a value of kind `k` and type `ty` cannot be created: a type that names
/// no entry (`UnknownType`), an operand that is not in scope
/// (`UnknownValue`), a basic block that the graph does not hold
/// (`UnknownBlock`), or else what the rule of the kind says. Nothing where
/// the value can be created.
pub open spec fn kind_refusal(env: Env, k: KindView, ty: Type) -> Option<IrError> {
    if !known(env.owner, env.types, ty) {
        Some(IrError::UnknownType)
    } else if !all_in_scope(env, value_uses(k)) {
        Some(IrError::UnknownValue)
    } else if !all_blocks_known(env, bb_uses(k)) {
        Some(IrError::UnknownBlock)
    } else {
        rule_refusal(env, k, ty)
    }
}

/// The shape of the type of a value of kind `k`, for the kinds whose type is
/// given by its shape: an integer and a binary operation are 32-bit integers;
/// a store, a branch, a jump and a return are `unit`; an aggregate is an
/// array of the type of its first element with the number of elements as its
/// length; a global allocation is a pointer to the type of its initializer;
/// and an element pointer calculation is a pointer to the element type of the
/// array that its source points to.
pub open spec fn result_shape(env: Env, k: KindView) -> Option<TypeShape> {
    match k {
        KindView::Integer { value } => Some(TypeShape::Int32),
        KindView::Binary { op, lhs, rhs } => Some(TypeShape::Int32),
        KindView::Store { value, dest } => Some(TypeShape::Unit),
        KindView::Branch { cond, true_bb, true_args, false_bb, false_args } => Some(
            TypeShape::Unit,
        ),
        KindView::Jump { target, args } => Some(TypeShape::Unit),
        KindView::Return { value } => Some(TypeShape::Unit),
        KindView::Aggregate { elems } => if elems.len() > 0 && in_scope(
            env.locals,
            env.globals,
            elems[0],
        ) {
            Some(TypeShape::Array(ty_of(env, elems[0]), elems.len() as usize))
        } else {
            None
        },
        KindView::GlobalAlloc { init } => if in_scope(env.locals, env.globals, init) {
            Some(TypeShape::Pointer(ty_of(env, init)))
        } else {
            None
        },
        KindView::GetElemPtr { src, index } => if in_scope(env.locals, env.globals, src) {
            match shape_of(env, src) {
                Some(TypeShape::Pointer(arr)) => match shape(env.types, arr) {
                    Some(TypeShape::Array(elem, _)) => Some(TypeShape::Pointer(elem)),
                    _ => None,
                },
                _ => None,
            }
        } else {
            None
        },
        _ => None,
    }
}

/// The type that a value of kind `k` gets where the kind decides it: the
/// type pointed to for a load; the type of the source for a pointer
/// calculation; the return type of the callee for a call; and the type of the
/// shape that [`result_shape`] gives, where the table holds it. Nothing where the operands that decide are
/// missing or of the wrong shape, and nothing for the kinds whose type is
/// chosen by the caller.
pub open spec fn result_type(env: Env, k: KindView) -> Option<Type> {
    match k {
        KindView::Load { src } => if in_scope(env.locals, env.globals, src) {
            match shape_of(env, src) {
                Some(TypeShape::Pointer(t)) => Some(t),
                _ => None,
            }
        } else {
            None
        },
        KindView::GetPtr { src, index } => if in_scope(env.locals, env.globals, src) {
            Some(ty_of(env, src))
        } else {
            None
        },
        KindView::Call { callee, args } => if env.func_tys.contains_key(callee) {
            match shape(env.types, env.func_tys[callee]) {
                Some(TypeShape::Function(_, ret)) => Some(ret),
                _ => None,
            }
        } else {
            None
        },
        _ => match result_shape(env, k) {
            Some(d) => handle_in(env.owner, env.types, d),
            None => None,
        },
    }
}

/// The surroundings `env` with the table of types `table`.
pub open spec fn with_types(env: Env, table: Seq<TypeShape>) -> Env {
    Env { types: table, ..env }
}

/// The table of types after a value of kind `k` has been built: the shape of
/// its type has been interned, where there is one to intern.
pub open spec fn types_after(env: Env, k: KindView) -> Seq<TypeShape> {
    match result_shape(env, k) {
        Some(d) => intern_table(env.owner, env.types, d),
        None => env.types,
    }
}

/// Why a value of kind `k` cannot be built where its type could not be
/// decided: an operand that is not in scope (`UnknownValue`), a basic block
/// that the graph does not hold (`UnknownBlock`), or else what the rule of
/// the kind says whatever the type, and `TypeMismatch` where the rule says
/// nothing without the type.
pub open spec fn untyped_refusal(env: Env, k: KindView) -> IrError {
    if !all_in_scope(env, value_uses(k)) {
        IrError::UnknownValue
    } else if !all_blocks_known(env, bb_uses(k)) {
        IrError::UnknownBlock
    } else {
        match rule_refusal(env, k, Type(0, env.owner)) {
            Some(e) => e,
            None => IrError::TypeMismatch,
        }
    }
}

/// Why a value of kind `k` cannot be built where its type is `ty`, or could
/// not be decided: what [`kind_refusal`] says of the kind and the type, or
/// what [`untyped_refusal`] says of the kind.
pub open spec fn typed_refusal(env: Env, k: KindView, ty: Option<Type>) -> Option<IrError> {
    match ty {
        Some(t) => kind_refusal(env, k, t),
        None => Some(untyped_refusal(env, k)),
    }
}

/// Why a value of kind `k` cannot be built: an interner that is full
/// (`IdsExhausted`), what the rules of typing say of the kind with the type
/// that it decides, or counters at their end (`IdsExhausted`). Nothing
/// where the value can be built.
pub open spec fn builder_refusal(env: Env, k: KindView, ids_left: bool) -> Option<IrError> {
    let after = with_types(env, types_after(env, k));
    if result_shape(env, k) is Some && intern_result(
        env.owner,
        env.types,
        result_shape(env, k)->0,
    ) == Err::<
        Type,
        IrError,
    >(IrError::IdsExhausted) {
        Some(IrError::IdsExhausted)
    } else if typed_refusal(after, k, result_type(after, k)) is Some {
        typed_refusal(after, k, result_type(after, k))
    } else if !ids_left {
        Some(IrError::IdsExhausted)
    } else {
        None
    }
}

/// The surroundings in which a value is checked before it is created.
pub struct Scope<'a> {
    pub types: &'a TypeFactory,
    pub locals: &'a ValueMap,
    pub globals: &'a ValueMap,
    pub blocks: &'a BlockMap,
    pub func_tys: &'a FuncTypes,
    pub ret_ty: Option<Type>,
}

impl<'a> View for Scope<'a> {
    type V = Env;

    open spec fn view(&self) -> Env {
        Env {
            owner: self.types.id(),
            types: self.types@,
            locals: self.locals@,
            globals: self.globals@,
            blocks: self.blocks@,
            func_tys: self.func_tys@,
            ret_ty: self.ret_ty,
        }
    }
}

impl<'a> Scope<'a> {
    /// The record of `v`, looked for in the local scope first.
    pub fn find(&self, v: Value) -> (r: Option<&ValueData>)
        ensures
            match r {
                Some(d) => in_scope(self@.locals, self@.globals, v) && d@ == record(
                    self@.locals,
                    self@.globals,
                    v,
                ),
                None => !in_scope(self@.locals, self@.globals, v),
            },
    {
        match self.locals.get(v) {
            Some(d) => Some(d),
            None => self.globals.get(v),
        }
    }

    /// The structure of the type of `v`, where `v` is in scope and its type is
    /// known.
    fn shape_of(&self, v: Value) -> (r: Option<&TypeData>)
        requires
            in_scope(self@.locals, self@.globals, v),
        ensures
            match r {
                Some(d) => shape_of(self@, v) == Some(d@),
                None => shape_of(self@, v) is None,
            },
    {
        match self.find(v) {
            Some(d) => self.types.kind_at(*d.ty()),
            None => None,
        }
    }

    /// The type of `v`, which is in scope.
    fn ty_of(&self, v: Value) -> (r: Type)
        requires
            in_scope(self@.locals, self@.globals, v),
        ensures
            r == ty_of(self@, v),
    {
        match self.find(v) {
            Some(d) => *d.ty(),
            None => vstd::pervasive::unreached(),
        }
    }

    /// Whether `v`, which is in scope, is a constant.
    fn is_const(&self, v: Value) -> (r: bool)
        requires
            in_scope(self@.locals, self@.globals, v),
        ensures
            r == is_const_kind(kind_of(self@, v)),
    {
        match self.find(v) {
            Some(d) => d.is_const(),
            None => vstd::pervasive::unreached(),
        }
    }

    /// Whether `t` names the type of the given shape test.
    fn is_int32(&self, t: Type) -> (r: bool)
        ensures
            r == (shape(self@.types, t) == Some(TypeShape::Int32)),
    {
        match self.types.kind_at(t) {
            Some(TypeData::Int32) => true,
            _ => false,
        }
    }

    fn is_unit(&self, t: Type) -> (r: bool)
        ensures
            r == (shape(self@.types, t) == Some(TypeShape::Unit)),
    {
        match self.types.kind_at(t) {
            Some(TypeData::Unit) => true,
            _ => false,
        }
    }

    fn is_pointer_to(&self, t: Type, base: Type) -> (r: bool)
        ensures
            r == (shape(self@.types, t) == Some(TypeShape::Pointer(base))),
    {
        match self.types.kind_at(t) {
            Some(TypeData::Pointer(b)) => *b == base,
            _ => false,
        }
    }

    fn operands_in_scope(&self, kind: &ValueKind) -> (r: bool)
        ensures
            r == all_in_scope(self@, value_uses(kind@)),
    {
        let ghost ops = value_uses(kind@);
        let mut it = kind.value_uses();
        let ghost mut n: int = 0;
        assert(ops.skip(0) =~= ops);
        loop
            invariant
                it.wf(),
                it.kind() == kind@,
                ops == value_uses(kind@),
                0 <= n <= ops.len(),
                it.remaining() == ops.skip(n),
                forall|i: int|
                    0 <= i < n ==> in_scope(self@.locals, self@.globals, #[trigger] ops[i]),
            decreases it.remaining().len(),
        {
            match it.next() {
                Some(u) => {
                    assert(u == ops[n]);
                    if !self.locals.contains(u) && !self.globals.contains(u) {
                        return false;
                    }
                    proof {
                        assert(ops.skip(n).skip(1) =~= ops.skip(n + 1));
                        n = n + 1;
                    }
                },
                None => {
                    assert(n == ops.len());
                    return true;
                },
            }
        }
    }

    fn blocks_known(&self, kind: &ValueKind) -> (r: bool)
        ensures
            r == all_blocks_known(self@, bb_uses(kind@)),
    {
        let ghost bbs = bb_uses(kind@);
        let mut it = kind.bb_uses();
        let ghost mut n: int = 0;
        assert(bbs.skip(0) =~= bbs);
        loop
            invariant
                it.wf(),
                it.kind() == kind@,
                bbs == bb_uses(kind@),
                0 <= n <= bbs.len(),
                it.remaining() == bbs.skip(n),
                forall|i: int| 0 <= i < n ==> self@.blocks.contains_key(#[trigger] bbs[i]),
            decreases it.remaining().len(),
        {
            match it.next() {
                Some(b) => {
                    assert(b == bbs[n]);
                    if !self.blocks.contains(b) {
                        return false;
                    }
                    proof {
                        assert(bbs.skip(n).skip(1) =~= bbs.skip(n + 1));
                        n = n + 1;
                    }
                },
                None => {
                    assert(n == bbs.len());
                    return true;
                },
            }
        }
    }

    fn all_const(&self, vs: &Vec<Value>) -> (r: bool)
        requires
            all_in_scope(self@, vs@),
        ensures
            r == all_const(self@, vs@),
    {
        let mut i: usize = 0;
        while i < vs.len()
            invariant
                i <= vs.len(),
                all_in_scope(self@, vs@),
                forall|k: int| 0 <= k < i ==> is_const_kind(kind_of(self@, #[trigger] vs@[k])),
            decreases vs.len() - i,
        {
            if !self.is_const(vs[i]) {
                return false;
            }
            i = i + 1;
        }
        true
    }

    fn all_of_type(&self, vs: &Vec<Value>, t: Type) -> (r: bool)
        requires
            all_in_scope(self@, vs@),
        ensures
            r == all_of_type(self@, vs@, t),
    {
        let mut i: usize = 0;
        while i < vs.len()
            invariant
                i <= vs.len(),
                all_in_scope(self@, vs@),
                forall|k: int| 0 <= k < i ==> ty_of(self@, #[trigger] vs@[k]) == t,
            decreases vs.len() - i,
        {
            if self.ty_of(vs[i]) != t {
                return false;
            }
            i = i + 1;
        }
        true
    }

    fn check_args(&self, args: &Vec<Value>, params: &Vec<Type>) -> (r: Option<IrError>)
        requires
            all_in_scope(self@, args@),
        ensures
            r == args_refusal(self@, args@, params@),
    {
        if args.len() != params.len() {
            return Some(IrError::ArityMismatch);
        }
        let mut i: usize = 0;
        while i < args.len()
            invariant
                i <= args.len(),
                args.len() == params.len(),
                all_in_scope(self@, args@),
                forall|k: int| 0 <= k < i ==> ty_of(self@, #[trigger] args@[k]) == params@[k],
            decreases args.len() - i,
        {
            if self.ty_of(args[i]) != params[i] {
                return Some(IrError::TypeMismatch);
            }
            i = i + 1;
        }
        None
    }

    fn check_block_args(&self, args: &Vec<Value>, bb: BasicBlock) -> (r: Option<IrError>)
        requires
            all_in_scope(self@, args@),
            self@.blocks.contains_key(bb),
        ensures
            r == block_args_refusal(self@, args@, bb),
    {
        match self.blocks.get(bb) {
            Some(data) => match self.types.kind_at(*data.ty()) {
                Some(TypeData::BasicBlock(params)) => self.check_args(args, params),
                _ => Some(IrError::TypeMismatch),
            },
            None => Some(IrError::TypeMismatch),
        }
    }

    /// Decides by the rule of the kind.
    fn check_rule(&self, kind: &ValueKind, ty: Type) -> (r: Option<IrError>)
        requires
            all_in_scope(self@, value_uses(kind@)),
            all_blocks_known(self@, bb_uses(kind@)),
        ensures
            r == rule_refusal(self@, kind@, ty),
    {
        let ghost ops = value_uses(kind@);
        let ghost bbs = bb_uses(kind@);
        match kind {
            ValueKind::Integer { .. } => {
                if self.is_int32(ty) {
                    None
                } else {
                    Some(IrError::TypeMismatch)
                }
            },
            ValueKind::ZeroInit => None,
            ValueKind::Undef => None,
            ValueKind::Aggregate { elems } => {
                if elems.len() == 0 {
                    Some(IrError::EmptyAggregate)
                } else if !self.all_const(elems) {
                    Some(IrError::NotConstant)
                } else {
                    assert(in_scope(self@.locals, self@.globals, ops[0]));
                    let first = self.ty_of(elems[0]);
                    let ok = self.all_of_type(elems, first) && match self.types.kind_at(ty) {
                        Some(TypeData::Array(e, n)) => *e == first && *n == elems.len(),
                        _ => false,
                    };
                    if ok {
                        None
                    } else {
                        Some(IrError::TypeMismatch)
                    }
                }
            },
            ValueKind::FuncArgRef { .. } => Some(IrError::InvalidKind),
            ValueKind::BlockArgRef { .. } => Some(IrError::InvalidKind),
            ValueKind::Alloc => {
                match self.types.kind_at(ty) {
                    Some(TypeData::Pointer(_)) => None,
                    _ => Some(IrError::TypeMismatch),
                }
            },
            ValueKind::GlobalAlloc { init } => {
                assert(in_scope(self@.locals, self@.globals, ops[0]));
                if !self.is_const(*init) {
                    Some(IrError::NotConstant)
                } else if self.is_pointer_to(ty, self.ty_of(*init)) {
                    None
                } else {
                    Some(IrError::TypeMismatch)
                }
            },
            ValueKind::Load { src } => {
                assert(in_scope(self@.locals, self@.globals, ops[0]));
                if self.is_pointer_to(self.ty_of(*src), ty) {
                    None
                } else {
                    Some(IrError::TypeMismatch)
                }
            },
            ValueKind::Store { value, dest } => {
                assert(in_scope(self@.locals, self@.globals, ops[0]));
                assert(in_scope(self@.locals, self@.globals, ops[1]));
                if self.is_pointer_to(self.ty_of(*dest), self.ty_of(*value)) && self.is_unit(ty) {
                    None
                } else {
                    Some(IrError::TypeMismatch)
                }
            },
            ValueKind::GetPtr { src, index } => {
                assert(in_scope(self@.locals, self@.globals, ops[0]));
                assert(in_scope(self@.locals, self@.globals, ops[1]));
                let src_ty = self.ty_of(*src);
                let is_ptr = match self.types.kind_at(src_ty) {
                    Some(TypeData::Pointer(_)) => true,
                    _ => false,
                };
                if is_ptr && self.is_int32(self.ty_of(*index)) && ty == src_ty {
                    None
                } else {
                    Some(IrError::TypeMismatch)
                }
            },
            ValueKind::GetElemPtr { src, index } => {
                assert(in_scope(self@.locals, self@.globals, ops[0]));
                let ok = match self.shape_of(*src) {
                    Some(TypeData::Pointer(arr)) => match self.types.kind_at(*arr) {
                        Some(TypeData::Array(elem, _)) => self.is_pointer_to(ty, *elem),
                        _ => false,
                    },
                    _ => false,
                };
                if ok {
                    None
                } else {
                    Some(IrError::TypeMismatch)
                }
            },
            ValueKind::Binary { op, lhs, rhs } => {
                assert(in_scope(self@.locals, self@.globals, ops[0]));
                assert(in_scope(self@.locals, self@.globals, ops[1]));
                if self.is_int32(self.ty_of(*lhs)) && self.is_int32(self.ty_of(*rhs))
                    && self.is_int32(ty) {
                    None
                } else {
                    Some(IrError::TypeMismatch)
                }
            },
            ValueKind::Branch { cond, true_bb, true_args, false_bb, false_args } => {
                assert(in_scope(self@.locals, self@.globals, ops[0]));
                assert(self@.blocks.contains_key(bbs[0]));
                assert(self@.blocks.contains_key(bbs[1]));
                assert forall|i: int| 0 <= i < true_args@.len() implies in_scope(
                    self@.locals,
                    self@.globals,
                    #[trigger] true_args@[i],
                ) by {
                    assert(ops[1 + i] == true_args@[i]);
                }
                assert forall|i: int| 0 <= i < false_args@.len() implies in_scope(
                    self@.locals,
                    self@.globals,
                    #[trigger] false_args@[i],
                ) by {
                    assert(ops[1 + true_args@.len() + i] == false_args@[i]);
                }
                if !self.is_int32(self.ty_of(*cond)) {
                    return Some(IrError::TypeMismatch);
                }
                if let Some(e) = self.check_block_args(true_args, *true_bb) {
                    return Some(e);
                }
                if let Some(e) = self.check_block_args(false_args, *false_bb) {
                    return Some(e);
                }
                if self.is_unit(ty) {
                    None
                } else {
                    Some(IrError::TypeMismatch)
                }
            },
            ValueKind::Jump { target, args } => {
                assert(self@.blocks.contains_key(bbs[0]));
                if let Some(e) = self.check_block_args(args, *target) {
                    return Some(e);
                }
                if self.is_unit(ty) {
                    None
                } else {
                    Some(IrError::TypeMismatch)
                }
            },
            ValueKind::Call { callee, args } => {
                match self.func_tys.get(*callee) {
                    None => Some(IrError::UnknownFunction),
                    Some(fty) => match self.types.kind_at(fty) {
                        Some(TypeData::Function(params, ret)) => {
                            if let Some(e) = self.check_args(args, params) {
                                return Some(e);
                            }
                            if ty == *ret {
                                None
                            } else {
                                Some(IrError::TypeMismatch)
                            }
                        },
                        _ => Some(IrError::TypeMismatch),
                    },
                }
            },
            ValueKind::Return { value } => {
                match self.ret_ty {
                    None => Some(IrError::InvalidKind),
                    Some(rt) => {
                        let value_ok = match value {
                            Some(v) => {
                                assert(in_scope(self@.locals, self@.globals, ops[0]));
                                self.ty_of(*v) == rt
                            },
                            None => self.is_unit(rt),
                        };
                        if self.is_unit(ty) && value_ok {
                            None
                        } else {
                            Some(IrError::TypeMismatch)
                        }
                    },
                }
            },
        }
    }

    /// Decides whether a value of the given kind and type can be created in
    /// these surroundings, and why not.
    pub fn check(&self, kind: &ValueKind, ty: Type) -> (r: Option<IrError>)
        ensures
            r == kind_refusal(self@, kind@, ty),
    {
        if !self.types.owns(ty) {
            Some(IrError::UnknownType)
        } else if !self.operands_in_scope(kind) {
            Some(IrError::UnknownValue)
        } else if !self.blocks_known(kind) {
            Some(IrError::UnknownBlock)
        } else {
            self.check_rule(kind, ty)
        }
    }

    /// The structure of the type to intern for a value of the given kind,
    /// where there is one.
    pub fn result_shape(&self, kind: &ValueKind) -> (r: Option<TypeData>)
        ensures
            match r {
                Some(d) => result_shape(self@, kind@) == Some(d@),
                None => result_shape(self@, kind@) is None,
            },
    {
        match kind {
            ValueKind::Integer { .. } => Some(TypeData::Int32),
            ValueKind::Binary { .. } => Some(TypeData::Int32),
            ValueKind::Store { .. } => Some(TypeData::Unit),
            ValueKind::Branch { .. } => Some(TypeData::Unit),
            ValueKind::Jump { .. } => Some(TypeData::Unit),
            ValueKind::Return { .. } => Some(TypeData::Unit),
            ValueKind::Aggregate { elems } => {
                if elems.len() > 0 {
                    match self.find(elems[0]) {
                        Some(d) => Some(TypeData::Array(*d.ty(), elems.len())),
                        None => None,
                    }
                } else {
                    None
                }
            },
            ValueKind::GlobalAlloc { init } => {
                match self.find(*init) {
                    Some(d) => Some(TypeData::Pointer(*d.ty())),
                    None => None,
                }
            },
            ValueKind::GetElemPtr { src, index } => {
                match self.find(*src) {
                    Some(d) => match self.types.kind_at(*d.ty()) {
                        Some(TypeData::Pointer(arr)) => match self.types.kind_at(*arr) {
                            Some(TypeData::Array(elem, _)) => Some(TypeData::Pointer(*elem)),
                            _ => None,
                        },
                        _ => None,
                    },
                    None => None,
                }
            },
            _ => None,
        }
    }

    /// The type that a value of the given kind gets, where the kind decides
    /// it.
    pub fn result_type(&self, kind: &ValueKind) -> (r: Option<Type>)
        requires
            self.types.wf(),
        ensures
            r == result_type(self@, kind@),
    {
        match kind {
            ValueKind::Load { src } => {
                match self.find(*src) {
                    Some(d) => match self.types.kind_at(*d.ty()) {
                        Some(TypeData::Pointer(t)) => Some(*t),
                        _ => None,
                    },
                    None => None,
                }
            },
            ValueKind::GetPtr { src, index } => {
                match self.find(*src) {
                    Some(d) => Some(*d.ty()),
                    None => None,
                }
            },
            ValueKind::Call { callee, args } => {
                match self.func_tys.get(*callee) {
                    Some(fty) => match self.types.kind_at(fty) {
                        Some(TypeData::Function(_, ret)) => Some(*ret),
                        _ => None,
                    },
                    None => None,
                }
            },
            _ => {
                match self.result_shape(kind) {
                    Some(d) => self.types.lookup(&d),
                    None => None,
                }
            },
        }
    }

    /// Decides whether a value of the given kind can be built with the type
    /// `ty`, or with no type decided, and why not.
    pub fn check_typed(&self, kind: &ValueKind, ty: Option<Type>) -> (r: Option<IrError>)
        ensures
            r == typed_refusal(self@, kind@, ty),
    {
        match ty {
            Some(t) => self.check(kind, t),
            None => {
                if !self.operands_in_scope(kind) {
                    Some(IrError::UnknownValue)
                } else if !self.blocks_known(kind) {
                    Some(IrError::UnknownBlock)
                } else {
                    match self.check_rule(kind, Type(0, self.types.number())) {
                        Some(e) => Some(e),
                        None => Some(IrError::TypeMismatch),
                    }
                }
            },
        }
    }
}

} // verus!
