use koopa::front::ast::{
    Aggregate, ArrayType, Ast, AstKind, BinaryExpr, Block, Branch, End, Error, FunCall, FunDecl,
    FunDef, FunType, GetElementPointer, GetPointer, GlobalDecl, GlobalDef, IntType, IntVal, Jump,
    Load, MemDecl, Phi, PointerType, Return, Store, SymbolDef, SymbolRef, UnaryExpr, UndefVal,
    ZeroInit,
};
use koopa::front::span::{Pos, Span};
use koopa::ir::entities::{BinaryOp, UnaryOp};

fn span(line: u32) -> Span {
    Span::new(Pos::new(line, 1), Pos::new(line, 9))
}

#[test]
fn leaves_carry_their_span() {
    let s = span(3);
    let node = IntType::new(s);
    assert_eq!(node.span, s);
    assert!(matches!(node.kind, AstKind::IntType(_)));
    assert!(matches!(UndefVal::new(s).kind, AstKind::UndefVal(_)));
    assert!(matches!(ZeroInit::new(s).kind, AstKind::ZeroInit(_)));
    assert!(matches!(End::new(s).kind, AstKind::End(_)));
    assert!(matches!(Error::new(s).kind, AstKind::Error(_)));
    assert_eq!(End::new(span(7)).span.start.line, 7);
    assert_eq!(End::new(span(7)).span.end.col, 9);
    let plain = Ast::new(s, AstKind::IntType(IntType));
    assert_eq!(plain.span, s);
}

#[test]
fn types_nest() {
    let arr = ArrayType::new(span(1), IntType::new(span(1)), 4);
    let ptr = PointerType::new(span(2), arr);
    match &ptr.kind {
        AstKind::PointerType(p) => match &p.base.kind {
            AstKind::ArrayType(a) => {
                assert_eq!(a.len, 4);
                assert!(matches!(a.base.kind, AstKind::IntType(_)));
                assert_eq!(p.base.span, span(1));
            }
            _ => panic!("array expected"),
        },
        _ => panic!("pointer expected"),
    }
    let fun = FunType::new(span(3), vec![IntType::new(span(3)), ptr], Some(IntType::new(span(3))));
    match &fun.kind {
        AstKind::FunType(f) => {
            assert_eq!(f.params.len(), 2);
            assert!(matches!(f.params[1].kind, AstKind::PointerType(_)));
            assert!(f.ret.is_some());
        }
        _ => panic!("function type expected"),
    }
    let proc = FunType::new(span(4), vec![], None);
    assert!(matches!(&proc.kind, AstKind::FunType(f) if f.params.is_empty() && f.ret.is_none()));
}

#[test]
fn values_and_definitions() {
    let s = span(1);
    assert!(matches!(&SymbolRef::new(s, "%x".into()).kind, AstKind::SymbolRef(r) if r.symbol == "%x"));
    assert!(matches!(&IntVal::new(s, -7).kind, AstKind::IntVal(v) if v.value == -7));
    let agg = Aggregate::new(s, vec![IntVal::new(s, 1), IntVal::new(s, 2)]);
    assert!(matches!(&agg.kind, AstKind::Aggregate(a) if a.elems.len() == 2));
    let def = SymbolDef::new(s, "%v".into(), agg);
    assert!(matches!(&def.kind, AstKind::SymbolDef(d)
        if d.name == "%v" && matches!(d.value.kind, AstKind::Aggregate(_))));
    let gdef = GlobalDef::new(
        s,
        "@g".into(),
        GlobalDecl::new(s, IntType::new(s), ZeroInit::new(s)),
    );
    match &gdef.kind {
        AstKind::GlobalDef(d) => {
            assert_eq!(d.name, "@g");
            assert!(matches!(&d.value.kind, AstKind::GlobalDecl(g)
                if matches!(g.ty.kind, AstKind::IntType(_)) && matches!(g.init.kind, AstKind::ZeroInit(_))));
        }
        _ => panic!("global definition expected"),
    }
    assert!(matches!(&MemDecl::new(s, IntType::new(s)).kind, AstKind::MemDecl(m)
        if matches!(m.ty.kind, AstKind::IntType(_))));
}

#[test]
fn instructions() {
    let s = span(2);
    assert!(matches!(&Load::new(s, "%p".into()).kind, AstKind::Load(l) if l.symbol == "%p"));
    assert!(matches!(&Store::new(s, IntVal::new(s, 1), "%p".into()).kind, AstKind::Store(st)
        if st.symbol == "%p" && matches!(&st.value.kind, AstKind::IntVal(v) if v.value == 1)));
    assert!(matches!(&GetPointer::new(s, "%p".into(), IntVal::new(s, 2)).kind, AstKind::GetPointer(g)
        if g.symbol == "%p" && matches!(&g.value.kind, AstKind::IntVal(v) if v.value == 2)));
    assert!(matches!(
        &GetElementPointer::new(s, "%a".into(), IntVal::new(s, 3)).kind,
        AstKind::GetElementPointer(g)
            if g.symbol == "%a" && matches!(&g.value.kind, AstKind::IntVal(v) if v.value == 3)
    ));
    let bin = BinaryExpr::new(s, BinaryOp::Add, SymbolRef::new(s, "%x".into()), IntVal::new(s, 1));
    assert!(matches!(&bin.kind, AstKind::BinaryExpr(b)
        if b.op == BinaryOp::Add
            && matches!(&b.lhs.kind, AstKind::SymbolRef(r) if r.symbol == "%x")
            && matches!(&b.rhs.kind, AstKind::IntVal(v) if v.value == 1)));
    let un = UnaryExpr::new(s, UnaryOp::Neg, IntVal::new(s, 4));
    assert!(matches!(&un.kind, AstKind::UnaryExpr(u)
        if u.op == UnaryOp::Neg && matches!(&u.opr.kind, AstKind::IntVal(v) if v.value == 4)));
    assert!(matches!(
        &Branch::new(s, IntVal::new(s, 1), "%then".into(), "%else".into()).kind,
        AstKind::Branch(b) if b.tbb == "%then" && b.fbb == "%else"
    ));
    assert!(matches!(&Jump::new(s, "%end".into()).kind, AstKind::Jump(j) if j.target == "%end"));
    assert!(matches!(
        &FunCall::new(s, "@f".into(), vec![IntVal::new(s, 1)]).kind,
        AstKind::FunCall(c) if c.fun == "@f" && c.args.len() == 1
    ));
    assert!(matches!(&Return::new(s, None).kind, AstKind::Return(r) if r.value.is_none()));
    assert!(matches!(&Return::new(s, Some(IntVal::new(s, 0))).kind, AstKind::Return(r)
        if matches!(&r.value, Some(v) if matches!(&v.kind, AstKind::IntVal(i) if i.value == 0))));
    let phi = Phi::new(
        s,
        IntType::new(s),
        vec![(IntVal::new(s, 1), "%a".into()), (IntVal::new(s, 2), "%b".into())],
    );
    assert!(matches!(&phi.kind, AstKind::Phi(p)
        if p.oprs.len() == 2 && p.oprs[1].1 == "%b" && matches!(p.ty.kind, AstKind::IntType(_))));
}

#[test]
fn functions() {
    let s = span(5);
    let body = Block::new(s, "%entry".into(), vec![Return::new(s, Some(SymbolRef::new(s, "%x".into())))]);
    let def = FunDef::new(
        s,
        "@id".into(),
        vec![("%x".into(), IntType::new(s))],
        Some(IntType::new(s)),
        vec![body],
    );
    match &def.kind {
        AstKind::FunDef(f) => {
            assert_eq!(f.name, "@id");
            assert_eq!(f.params.len(), 1);
            assert_eq!(f.params[0].0, "%x");
            assert!(matches!(f.params[0].1.kind, AstKind::IntType(_)));
            assert!(f.ret.is_some());
            assert!(matches!(&f.bbs[0].kind, AstKind::Block(b)
                if b.name == "%entry" && b.stmts.len() == 1));
        }
        _ => panic!("function definition expected"),
    }
    let decl = FunDecl::new(s, "@getint".into(), vec![], Some(IntType::new(s)));
    assert!(matches!(&decl.kind, AstKind::FunDecl(d)
        if d.name == "@getint" && d.params.is_empty() && d.ret.is_some()));
    assert_eq!(decl.span, s);
}

#[test]
fn equality_ignores_spans() {
    let a = BinaryExpr::new(span(1), BinaryOp::Add, IntVal::new(span(1), 1), IntVal::new(span(2), 2));
    let b = BinaryExpr::new(span(9), BinaryOp::Add, IntVal::new(span(8), 1), IntVal::new(span(7), 2));
    assert_eq!(a, b);
    assert!(a.same(&b));
    let c = BinaryExpr::new(span(1), BinaryOp::Sub, IntVal::new(span(1), 1), IntVal::new(span(2), 2));
    assert_ne!(a, c);
    let d = BinaryExpr::new(span(1), BinaryOp::Add, IntVal::new(span(1), 1), IntVal::new(span(2), 3));
    assert_ne!(a, d);
    assert_ne!(IntType::new(span(1)), UndefVal::new(span(1)));
    assert_eq!(End::new(span(1)), End::new(span(2)));
}

#[test]
fn equality_goes_through_lists_and_options() {
    let make = |line: u32, names: &[&str], ret: bool| {
        FunDef::new(
            span(line),
            "@f".into(),
            names.iter().map(|n| (n.to_string(), IntType::new(span(line + 1)))).collect(),
            if ret { Some(IntType::new(span(line))) } else { None },
            vec![Block::new(
                span(line),
                "%entry".into(),
                vec![Return::new(span(line), None), Jump::new(span(line), "%entry".into())],
            )],
        )
    };
    assert_eq!(make(1, &["%a", "%b"], true), make(5, &["%a", "%b"], true));
    assert_ne!(make(1, &["%a", "%b"], true), make(1, &["%a", "%c"], true));
    assert_ne!(make(1, &["%a", "%b"], true), make(1, &["%a"], true));
    assert_ne!(make(1, &["%a", "%b"], true), make(1, &["%a", "%b"], false));
    let phi = |label: &str, v: i32| {
        Phi::new(span(1), IntType::new(span(1)), vec![(IntVal::new(span(1), v), label.to_string())])
    };
    assert_eq!(phi("%a", 1), phi("%a", 1));
    assert_ne!(phi("%a", 1), phi("%b", 1));
    assert_ne!(phi("%a", 1), phi("%a", 2));
    let call = |n: usize| {
        FunCall::new(span(1), "@f".into(), (0..n).map(|i| IntVal::new(span(2), i as i32)).collect())
    };
    assert_eq!(call(3), call(3));
    assert_ne!(call(3), call(2));
    assert_eq!(
        FunType::new(span(1), vec![], Some(IntType::new(span(1)))),
        FunType::new(span(2), vec![], Some(IntType::new(span(3))))
    );
    assert_ne!(
        FunType::new(span(1), vec![], Some(IntType::new(span(1)))),
        FunType::new(span(1), vec![], None)
    );
}
