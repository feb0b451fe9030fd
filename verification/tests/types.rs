use koopa::ir::error::IrError;
use koopa::ir::types::{Type, TypeData, TypeFactory};
use koopa::ir::idman::InternerIds;

#[test]
fn hash_cons() {
    let mut f = TypeFactory::new(InternerIds::new().next_id().unwrap());
    let i32_ty = f.get_i32().unwrap();
    let a1 = f.get_array(i32_ty, 8).unwrap();
    let a2 = f.get_array(i32_ty, 8).unwrap();
    assert_eq!(a1, a2);
    let pa = f.get_pointer(a1).unwrap();
    let pb = f.get_pointer(a2).unwrap();
    assert_eq!(pa, pb);
    assert_ne!(a1, pa);
    assert!(matches!(f.kind(pa), Some(TypeData::Pointer(b)) if *b == a1));
    assert!(matches!(f.kind(a1), Some(TypeData::Array(e, 8)) if *e == i32_ty));
}

#[test]
fn interning_identity_follows_structure() {
    let mut f = TypeFactory::new(InternerIds::new().next_id().unwrap());
    let i32_ty = f.get_i32().unwrap();
    let a8 = f.get_type(TypeData::Array(i32_ty, 8)).unwrap();
    let a9 = f.get_type(TypeData::Array(i32_ty, 9)).unwrap();
    let a8_again = f.get_type(TypeData::Array(i32_ty, 8)).unwrap();
    assert_ne!(a8, a9);
    assert_eq!(a8, a8_again);
    let f1 = f.get_function(vec![i32_ty, a8], i32_ty).unwrap();
    let f2 = f.get_function(vec![i32_ty, a8], i32_ty).unwrap();
    let f3 = f.get_function(vec![a8, i32_ty], i32_ty).unwrap();
    let f4 = f.get_function(vec![i32_ty, a8], a8).unwrap();
    assert_eq!(f1, f2);
    assert_ne!(f1, f3);
    assert_ne!(f1, f4);
    let b1 = f.get_basic_block(vec![i32_ty, a8]).unwrap();
    assert_ne!(b1, f1);
    assert_eq!(b1, f.get_basic_block(vec![i32_ty, a8]).unwrap());
}

#[test]
fn interner_never_grows_for_a_known_type() {
    let mut f = TypeFactory::new(InternerIds::new().next_id().unwrap());
    // a new interner has interned nothing
    assert_eq!(f.len(), 0);
    assert_eq!(f.lookup(&TypeData::Int32), None);
    assert_eq!(f.lookup(&TypeData::Unit), None);
    let i32_ty = f.get_i32().unwrap();
    assert_eq!(f.len(), 1);
    let unit = f.get_unit().unwrap();
    assert_eq!(f.len(), 2);
    assert_eq!(f.get_i32(), Ok(i32_ty));
    assert_eq!(f.get_unit(), Ok(unit));
    assert_eq!(f.len(), 2);
    assert_ne!(i32_ty, unit);
    f.get_pointer(i32_ty).unwrap();
    assert_eq!(f.len(), 3);
    f.get_pointer(i32_ty).unwrap();
    assert_eq!(f.len(), 3);
    assert_eq!(f.get_type(TypeData::Int32), Ok(i32_ty));
    assert_eq!(f.get_type(TypeData::Unit), Ok(unit));
    assert_eq!(f.len(), 3);
}

#[test]
fn unit_has_one_handle() {
    let mut f = TypeFactory::new(InternerIds::new().next_id().unwrap());
    let u1 = f.get_unit().unwrap();
    let u2 = f.get_type(TypeData::Unit).unwrap();
    assert_eq!(u1, u2);
    assert!(f.is_unit(u1));
    let i32_ty = f.get_i32().unwrap();
    assert!(!f.is_unit(i32_ty));
    assert!(!f.is_unit(Type(99, 0)));
}

#[test]
fn unit_is_excluded_where_it_cannot_stand() {
    let mut f = TypeFactory::new(InternerIds::new().next_id().unwrap());
    let unit = f.get_unit().unwrap();
    let i32_ty = f.get_i32().unwrap();
    let before = f.len();
    assert_eq!(f.get_array(unit, 4), Err(IrError::UnitNotAllowed));
    assert_eq!(f.get_function(vec![i32_ty, unit], i32_ty), Err(IrError::UnitNotAllowed));
    assert_eq!(f.get_basic_block(vec![unit]), Err(IrError::UnitNotAllowed));
    assert_eq!(f.get_type(TypeData::Array(unit, 0)), Err(IrError::UnitNotAllowed));
    assert_eq!(f.len(), before);
    // unit may be returned and pointed to
    assert!(f.get_function(vec![i32_ty], unit).is_ok());
    assert!(f.get_pointer(unit).is_ok());
}

#[test]
fn unknown_components_are_refused() {
    let mut f = TypeFactory::new(InternerIds::new().next_id().unwrap());
    let i32_ty = f.get_i32().unwrap();
    let unit = f.get_unit().unwrap();
    let before = f.len();
    assert_eq!(f.get_pointer(Type(7, 0)), Err(IrError::UnknownType));
    assert_eq!(f.get_array(Type(7, 0), 1), Err(IrError::UnknownType));
    assert_eq!(f.get_function(vec![i32_ty], Type(7, 0)), Err(IrError::UnknownType));
    assert_eq!(f.get_function(vec![Type(7, 0)], i32_ty), Err(IrError::UnknownType));
    // an unknown component is reported before unit in a wrong place
    assert_eq!(f.get_function(vec![unit, Type(7, 0)], i32_ty), Err(IrError::UnknownType));
    assert_eq!(f.get_basic_block(vec![Type(7, 0)]), Err(IrError::UnknownType));
    assert_eq!(f.len(), before);
    assert!(f.kind(Type(7, 0)).is_none());
}

#[test]
fn type_texts() {
    let mut f = TypeFactory::new(InternerIds::new().next_id().unwrap());
    let i32_ty = f.get_i32().unwrap();
    let unit = f.get_unit().unwrap();
    assert_eq!(f.text_of(i32_ty).unwrap(), "i32");
    assert_eq!(f.text_of(unit).unwrap(), "unit");
    let a = f.get_array(i32_ty, 8).unwrap();
    assert_eq!(f.text_of(a).unwrap(), "i32[8]");
    let a0 = f.get_array(i32_ty, 0).unwrap();
    assert_eq!(f.text_of(a0).unwrap(), "i32[0]");
    let big = f.get_array(a, 1234567890).unwrap();
    assert_eq!(f.text_of(big).unwrap(), "i32[8][1234567890]");
    let p = f.get_pointer(a).unwrap();
    assert_eq!(f.text_of(p).unwrap(), "*i32[8]");
    let pp = f.get_pointer(p).unwrap();
    assert_eq!(f.text_of(pp).unwrap(), "**i32[8]");
    let fun = f.get_function(vec![i32_ty, p], i32_ty).unwrap();
    assert_eq!(f.text_of(fun).unwrap(), "i32(i32, *i32[8])");
    let proc = f.get_function(vec![i32_ty], unit).unwrap();
    assert_eq!(f.text_of(proc).unwrap(), "(i32)");
    let thunk = f.get_function(vec![], unit).unwrap();
    assert_eq!(f.text_of(thunk).unwrap(), "()");
    let three = f.get_function(vec![i32_ty, i32_ty, i32_ty], p).unwrap();
    assert_eq!(f.text_of(three).unwrap(), "*i32[8](i32, i32, i32)");
    let bb = f.get_basic_block(vec![i32_ty, a]).unwrap();
    assert_eq!(f.text_of(bb).unwrap(), "bb(i32, i32[8])");
    assert!(f.text_of(Type(1000, 0)).is_none());
}

#[test]
fn descriptions_compare_and_copy_by_structure() {
    let a = TypeData::Function(vec![Type(1, 0), Type(1, 0)], Type(0, 0));
    let b = a.duplicate();
    assert!(a.same(&b));
    assert_eq!(a, b);
    assert!(!a.same(&TypeData::Function(vec![Type(1, 0)], Type(0, 0))));
    assert!(!a.same(&TypeData::BasicBlock(vec![Type(1, 0), Type(1, 0)])));
    assert!(TypeData::Int32.same(&TypeData::Int32));
    assert!(!TypeData::Int32.same(&TypeData::Unit));
    assert!(TypeData::Array(Type(1, 0), 3).same(&TypeData::Array(Type(1, 0), 3)));
    assert!(!TypeData::Array(Type(1, 0), 3).same(&TypeData::Array(Type(1, 0), 4)));
    assert!(!TypeData::Pointer(Type(1, 0)).same(&TypeData::Pointer(Type(0, 0))));
}

#[test]
fn many_types_keep_their_handles() {
    let mut f = TypeFactory::new(InternerIds::new().next_id().unwrap());
    let i32_ty = f.get_i32().unwrap();
    let mut handles = Vec::new();
    for n in 0..500usize {
        let a = f.get_array(i32_ty, n).unwrap();
        let p = f.get_pointer(a).unwrap();
        let fun = f.get_function(vec![a, p, i32_ty], p).unwrap();
        handles.push((a, p, fun));
    }
    assert_eq!(f.len(), 1 + 3 * 500);
    for (n, (a, p, fun)) in handles.iter().enumerate() {
        assert_eq!(f.get_array(i32_ty, n), Ok(*a));
        assert_eq!(f.get_pointer(*a), Ok(*p));
        assert_eq!(f.get_function(vec![*a, *p, i32_ty], *p), Ok(*fun));
        assert_eq!(f.lookup(&TypeData::Pointer(*a)), Some(*p));
    }
    assert_eq!(f.len(), 1 + 3 * 500);
    let mut all: Vec<Type> = handles.iter().flat_map(|(a, p, fun)| [*a, *p, *fun]).collect();
    all.sort_by_key(|t| t.0);
    all.dedup();
    assert_eq!(all.len(), 3 * 500);
    assert_eq!(f.lookup(&TypeData::Array(i32_ty, 500)), None);
    assert_eq!(f.lookup(&TypeData::Int32), Some(i32_ty));
}

#[test]
fn interners_are_isolated() {
    let mut ids = InternerIds::new();
    let mut f = TypeFactory::new(ids.next_id().unwrap());
    let mut g = TypeFactory::new(ids.next_id().unwrap());
    assert_ne!(f.number(), g.number());
    let a = f.get_i32().unwrap();
    let b = g.get_i32().unwrap();
    assert_eq!(f.get_i32().unwrap(), a);
    assert_ne!(a, b);
    assert_ne!(f.get_unit().unwrap(), g.get_unit().unwrap());
    assert!(matches!(f.kind(a), Some(TypeData::Int32)));
    // a handle of another interner is unknown
    assert!(f.owns(a));
    assert!(!f.owns(b));
    assert!(f.kind(b).is_none());
    assert!(!f.is_unit(g.get_unit().unwrap()));
    assert!(f.text_of(b).is_none());
    assert_eq!(f.get_pointer(b), Err(IrError::UnknownType));
    assert_eq!(f.get_array(b, 2), Err(IrError::UnknownType));
    assert_eq!(f.get_function(vec![a, b], a), Err(IrError::UnknownType));
    assert_eq!(f.get_function(vec![a], b), Err(IrError::UnknownType));
    assert_eq!(f.get_basic_block(vec![b]), Err(IrError::UnknownType));
    assert_eq!(f.get_type(TypeData::Pointer(b)), Err(IrError::UnknownType));
    assert_eq!(f.len(), 2);
    assert_eq!(g.len(), 2);
    // the same structure has different handles in different interners
    let pf = f.get_pointer(a).unwrap();
    let pg = g.get_pointer(b).unwrap();
    assert_ne!(pf, pg);
    assert_eq!(f.text_of(pf), g.text_of(pg));
    assert_eq!(f.lookup(&TypeData::Pointer(b)), None);
}

#[test]
fn numbers_of_interners_are_handed_out_once() {
    let mut ids = InternerIds::new();
    let mut seen = Vec::new();
    for _ in 0..100 {
        seen.push(TypeFactory::new(ids.next_id().unwrap()).number());
    }
    let mut sorted = seen.clone();
    sorted.sort();
    sorted.dedup();
    assert_eq!(sorted.len(), 100);
    assert_eq!(seen[0], 0);
    assert_eq!(seen[99], 99);
}
