use llamac::lex::token::Position;
use llamac::parse::ast::annotation::TypeAnnotation;
use llamac::parse::ast::Span;
use llamac::pass::sem::types::inference::{ArrayDims, Constraints, InferenceGroup, Inferer, TypeKind};
use llamac::pass::sem::types::type_map::{decimal_string, occurs_in, TypeMap};
use llamac::pass::sem::types::{same_type, Type};
use llamac::pass::sem::SemanticError;

fn span() -> Span {
    Span::new(Position::new(1, 1, "f.lla".to_string()), Position::new(1, 5, "f.lla".to_string()))
}

fn message(e: &SemanticError) -> String {
    match e {
        SemanticError::InferenceError { msg, .. } => msg.clone(),
        _ => panic!("not an inference error"),
    }
}

#[test]
fn unknown_names() {
    assert_eq!(Type::unknown_id_to_name(0), "a");
    assert_eq!(Type::unknown_id_to_name(25), "z");
    assert_eq!(Type::unknown_id_to_name(26), "aa");
    assert_eq!(Type::unknown_id_to_name(27), "ab");
    assert_eq!(Type::unknown_id_to_name(52), "ba");
    assert_eq!(Type::unknown_id_to_name(676), "a`a");
}

#[test]
fn decimal_strings() {
    assert_eq!(decimal_string(0), "0");
    assert_eq!(decimal_string(7), "7");
    assert_eq!(decimal_string(1234), "1234");
    assert_eq!(decimal_string(u32::MAX), "4294967295");
}

#[test]
fn fully_known_types() {
    assert!(Type::Int.is_fully_known());
    assert!(!Type::Unknown(0).is_fully_known());
    assert!(Type::new_known_array(Type::Int, 2).is_fully_known());
    assert!(!Type::new_bounded_array(Type::Int, 2).is_fully_known());
    assert!(!Type::new_tuple(vec![Type::Int, Type::Unknown(3)]).is_fully_known());
    assert!(Type::new_tuple(vec![Type::Int, Type::Char]).is_fully_known());
    assert!(!Type::new_func(Type::Int, Type::new_ref(Type::Unknown(1))).is_fully_known());
}

#[test]
fn type_equality() {
    assert!(same_type(&Type::Unknown(3), &Type::Unknown(3)));
    assert!(!same_type(&Type::Unknown(3), &Type::Unknown(4)));
    assert!(same_type(
        &Type::new_tuple(vec![Type::Int, Type::Custom { id: "t".to_string() }]),
        &Type::new_tuple(vec![Type::Int, Type::Custom { id: "t".to_string() }])
    ));
    assert!(!same_type(&Type::Custom { id: "t".to_string() }, &Type::Custom { id: "u".to_string() }));
    assert!(!same_type(&Type::new_known_array(Type::Int, 1), &Type::new_bounded_array(Type::Int, 1)));
    assert!(!same_type(&Type::new_tuple(vec![Type::Int]), &Type::new_tuple(vec![Type::Int, Type::Int])));
}

#[test]
fn multi_arg_functions_are_curried() {
    let f = Type::new_multi_arg_func(vec![Type::Int, Type::Bool], Type::Unit);
    let g = Type::new_func(Type::Int, Type::new_func(Type::Bool, Type::Unit));
    assert!(same_type(&f, &g));
    let h = Type::new_multi_arg_func(vec![], Type::Char);
    assert!(same_type(&h, &Type::Char));
}

#[test]
fn dims_compatibility() {
    assert!(ArrayDims::Known(2).are_compatible(&ArrayDims::Known(2)));
    assert!(!ArrayDims::Known(2).are_compatible(&ArrayDims::Known(3)));
    assert!(ArrayDims::Known(3).are_compatible(&ArrayDims::LowerBounded(2)));
    assert!(ArrayDims::LowerBounded(2).are_compatible(&ArrayDims::Known(3)));
    assert!(!ArrayDims::LowerBounded(4).are_compatible(&ArrayDims::Known(3)));
    assert!(ArrayDims::LowerBounded(4).are_compatible(&ArrayDims::LowerBounded(1)));
}

#[test]
fn constraints_decide_kinds() {
    assert!(Constraints::new().are_satisfied_by(&Type::new_func(Type::Int, Type::Int)));
    assert!(Constraints::allow_numeric().are_satisfied_by(&Type::Float));
    assert!(!Constraints::allow_numeric().are_satisfied_by(&Type::Char));
    assert!(Constraints::allow_comparables().are_satisfied_by(&Type::Char));
    assert!(!Constraints::allow_comparables().are_satisfied_by(&Type::Unknown(1)));
    assert!(!Constraints::disallow_array_and_func().are_satisfied_by(&Type::new_known_array(Type::Int, 1)));
    assert!(Constraints::disallow_array_and_func().are_satisfied_by(&Type::Bool));
    let mut c = Constraints::allow_numeric();
    c.consolidate(&Constraints::disallow_array_and_func());
    assert!(c.are_satisfied_by(&Type::Int));
    assert!(!c.are_satisfied_by(&Type::Bool));
    assert_eq!(Type::new_ref(Type::Int).kind(), TypeKind::Ref);
}

#[test]
fn occurs_finds_unknowns() {
    let t = Type::new_tuple(vec![Type::Int, Type::new_func(Type::Unknown(2), Type::Bool)]);
    assert!(occurs_in(2, &t));
    assert!(!occurs_in(3, &t));
}

#[test]
fn new_unknowns_are_numbered() {
    let mut map = TypeMap::new();
    assert!(same_type(&map.new_unknown(), &Type::Unknown(0)));
    assert!(same_type(&map.new_unknown(), &Type::Unknown(1)));
    assert!(same_type(&map.new_unknown_ref(), &Type::new_ref(Type::Unknown(2))));
    assert!(same_type(&map.get_int(), &Type::Int));
}

#[test]
fn unify_binds_unknown() {
    let mut map = TypeMap::new();
    let a = map.new_unknown();
    let b = map.new_unknown();
    let s = span();
    assert!(map.unify(a.clone(), b.clone(), &s, "test").is_ok());
    assert!(map.unify(b.clone(), Type::Int, &s, "test").is_ok());
    assert!(same_type(&map.deep_resolve_type(a.clone()), &Type::Int));
    assert!(same_type(&map.deep_resolve_type(Type::new_tuple(vec![a, b])), &Type::new_tuple(vec![Type::Int, Type::Int])));
}

#[test]
fn unify_functions_part_by_part() {
    let mut map = TypeMap::new();
    let a = map.new_unknown();
    let b = map.new_unknown();
    let s = span();
    let f = Type::new_func(a.clone(), Type::Bool);
    let g = Type::new_func(Type::Char, b.clone());
    assert!(map.unify(f.clone(), g, &s, "call").is_ok());
    assert!(same_type(&map.deep_resolve_type(f), &Type::new_func(Type::Char, Type::Bool)));
    assert!(same_type(&map.deep_resolve_type(b), &Type::Bool));
}

#[test]
fn unify_equal_types_is_a_no_op() {
    let mut map = TypeMap::new();
    let s = span();
    assert!(map.unify(Type::Int, Type::Int, &s, "same").is_ok());
}

#[test]
fn unify_refuses_recursive_types() {
    let mut map = TypeMap::new();
    let a = map.new_unknown();
    let s = span();
    let r = map.unify(a.clone(), Type::new_func(a.clone(), Type::Int), &s, "rec");
    let e = r.unwrap_err();
    assert_eq!(message(&e), "Occurs check failed, recursive unknown type implied");
    assert!(message(&e).contains("Occurs"));
}

#[test]
fn unify_respects_constraints() {
    let mut map = TypeMap::new();
    let a = map.new_unknown_with_constraint(Constraints::allow_numeric());
    let s = span();
    let e = map.unify(a.clone(), Type::Bool, &s, "arith").unwrap_err();
    assert_eq!(message(&e), "Constraints violated");
    assert!(map.unify(a.clone(), Type::Float, &s, "arith").is_ok());
    assert!(same_type(&map.deep_resolve_type(a), &Type::Float));
}

#[test]
fn unknown_takes_on_constraints() {
    let mut map = TypeMap::new();
    let a = map.new_unknown_with_constraint(Constraints::allow_numeric());
    let b = map.new_unknown();
    let s = span();
    // `a` allows only numbers, and an unknown type is not one
    let e = map.unify(a.clone(), b.clone(), &s, "x").unwrap_err();
    assert_eq!(message(&e), "Constraints violated");
    // the other way round `b` is bound to `a`, and `a` keeps its constraints
    assert!(map.unify(b.clone(), a.clone(), &s, "x").is_ok());
    assert!(map.unify(b, Type::Char, &s, "x").is_err());
}

#[test]
fn unify_reports_mismatches() {
    let mut map = TypeMap::new();
    let s = span();
    let e = map.unify(Type::Int, Type::Bool, &s, "if").unwrap_err();
    assert_eq!(message(&e), "Couldn't unify");
    match &e {
        SemanticError::InferenceError { unification_reason, lhs_resolved, rhs_resolved, .. } => {
            assert_eq!(unification_reason, "if");
            assert!(same_type(lhs_resolved, &Type::Int));
            assert!(same_type(rhs_resolved, &Type::Bool));
        },
        _ => panic!("not an inference error"),
    }
    let e = map.unify(
        Type::new_tuple(vec![Type::Int]),
        Type::new_tuple(vec![Type::Int, Type::Int]),
        &s,
        "tuple",
    ).unwrap_err();
    assert_eq!(message(&e), "Tuple sizes don't match");
    let e = map.unify(Type::Custom { id: "a".to_string() }, Type::Custom { id: "b".to_string() }, &s, "c").unwrap_err();
    assert_eq!(message(&e), "Couldn't unify");
}

#[test]
fn solve_group_in_order() {
    let mut map = TypeMap::new();
    let a = map.new_unknown();
    let b = map.new_unknown();
    let s = span();
    let mut group = InferenceGroup::new();
    group.insert_unification(a.clone(), Type::new_ref(b.clone()), "first", &s);
    group.insert_unification(b.clone(), Type::Int, "second", &s);
    assert!(map.solve_group(group).is_ok());
    assert!(same_type(&map.deep_resolve_type(a.clone()), &Type::new_ref(Type::Int)));
    let mut group = InferenceGroup::new();
    group.insert_unification(a.clone(), Type::Int, "third", &s);
    group.insert_unification(b.clone(), Type::Bool, "fourth", &s);
    let e = map.solve_group(group).unwrap_err();
    match e {
        SemanticError::InferenceError { unification_reason, .. } => assert_eq!(unification_reason, "third"),
        _ => panic!("not an inference error"),
    }
}

#[test]
fn resolve_shortens_chains() {
    let mut map = TypeMap::new();
    let a = map.new_unknown();
    let b = map.new_unknown();
    let c = map.new_unknown();
    let s = span();
    assert!(map.unify(a.clone(), b.clone(), &s, "x").is_ok());
    assert!(map.unify(b.clone(), c.clone(), &s, "x").is_ok());
    assert!(map.unify(c.clone(), Type::Unit, &s, "x").is_ok());
    assert!(same_type(&map.resolve_type(a.clone()), &Type::Unit));
    assert!(same_type(&map.resolve_type(b.clone()), &Type::Unit));
    assert!(same_type(&map.resolve_type(Type::Int), &Type::Int));
}

#[test]
fn annotations_become_types() {
    let ann = TypeAnnotation::Func {
        lhs: Box::new(TypeAnnotation::Array { inner: Box::new(TypeAnnotation::Int), dim_cnt: 2 }),
        rhs: Box::new(TypeAnnotation::Tuple(vec![TypeAnnotation::Bool, TypeAnnotation::Custom { id: "t".to_string() }])),
    };
    let t = Type::from_annotation(&ann);
    let expected = Type::new_func(
        Type::new_known_array(Type::Int, 2),
        Type::new_tuple(vec![Type::Bool, Type::Custom { id: "t".to_string() }]),
    );
    assert!(same_type(&t, &expected));
    match TypeAnnotation::maybe_tuple(vec![TypeAnnotation::Char]) {
        TypeAnnotation::Char => {},
        _ => panic!("one type is not a tuple"),
    }
    match TypeAnnotation::maybe_tuple(vec![TypeAnnotation::Char, TypeAnnotation::Int]) {
        TypeAnnotation::Tuple(ts) => assert_eq!(ts.len(), 2),
        _ => panic!("two types make a tuple"),
    }
}

#[test]
fn unify_reports_incompatible_dims() {
    let mut map = TypeMap::new();
    let s = span();
    let e = map
        .unify(Type::new_known_array(Type::Int, 1), Type::new_bounded_array(Type::Int, 3), &s, "index")
        .unwrap_err();
    assert_eq!(message(&e), "Can't match dims 1 with >=3");
    let e = map
        .unify(Type::new_known_array(Type::Int, 2), Type::new_known_array(Type::Int, 12), &s, "index")
        .unwrap_err();
    assert_eq!(message(&e), "Can't match dims 2 with 12");
}

#[test]
fn unknown_bound_to_array() {
    let mut map = TypeMap::new();
    let a = map.new_unknown();
    let s = span();
    let arr = Type::new_known_array(Type::Char, 1);
    assert!(map.unify(a.clone(), arr.clone(), &s, "let").is_ok());
    assert!(same_type(&map.deep_resolve_type(a.clone()), &arr));
    // the same array again is the same type
    assert!(map.unify(arr.clone(), a.clone(), &s, "let").is_ok());
    let e = map.unify(a, Type::new_known_array(Type::Char, 3), &s, "let").unwrap_err();
    assert_eq!(message(&e), "Can't match dims 1 with 3");
}

#[test]
fn type_texts() {
    let mut tm = TypeMap::new();
    let a = tm.new_unknown();
    let b = tm.new_unknown_with_constraint(Constraints::allow_numeric());
    let c = tm.new_unknown_with_constraint(Constraints::disallow_array_and_func());
    let t = Type::new_func(
        Type::new_tuple(vec![a.clone(), Type::new_bounded_array(Type::Char, 2)]),
        Type::new_ref(Type::new_known_array(b.clone(), 3)),
    );
    assert_eq!(tm.type_text(&t), "('a, char[>=2]) -> (('b allow{int, float}[3] ref))");
    assert_eq!(tm.type_text(&c), "'c disallow{array, func}");
    assert_eq!(tm.type_text(&Type::Custom { id: "tree".to_string() }), "tree");
    let mut both = Constraints::allow_numeric();
    both.consolidate(&Constraints::disallow_array_and_func());
    assert_eq!(both.text(), " allow{int, float},  disallow{array, func}");
    assert_eq!(Constraints::new().text(), "");
}

#[test]
fn instantiation_renames_each_unknown_once() {
    let mut tm = TypeMap::new();
    let a = tm.new_unknown();
    let b = tm.new_unknown_with_constraint(Constraints::allow_numeric());
    let generic = Type::new_func(a.clone(), Type::new_func(b.clone(), a.clone()));
    let fresh = tm.instantiate(&generic);
    let expected = Type::new_func(Type::Unknown(2), Type::new_func(Type::Unknown(3), Type::Unknown(2)));
    assert!(same_type(&fresh, &expected));
    assert_eq!(tm.type_text(&fresh), "'c -> ('d allow{int, float} -> ('c))");
    let plain = Type::new_tuple(vec![Type::Int, Type::Bool]);
    assert!(same_type(&tm.instantiate(&plain), &plain));
    assert!(same_type(&tm.new_unknown(), &Type::Unknown(4)));
}

#[test]
fn unify_arrays_with_different_elements_fails() {
    let mut map = TypeMap::new();
    let s = span();
    let e = map.unify(
        Type::new_known_array(Type::Int, 1),
        Type::new_known_array(Type::Char, 1),
        &s,
        "arr",
    ).unwrap_err();
    assert_eq!(message(&e), "Couldn't unify");
    let f = Type::new_func(Type::new_known_array(Type::Int, 1), Type::new_known_array(Type::Char, 1));
    let e = map.unify(f, Type::Int, &s, "fn").unwrap_err();
    assert_eq!(message(&e), "Couldn't unify");
}

#[test]
fn unify_arrays_with_incompatible_dims_fails() {
    let mut map = TypeMap::new();
    let s = span();
    let e = map.unify(
        Type::new_known_array(Type::Char, 2),
        Type::new_known_array(Type::Char, 1),
        &s,
        "dims",
    ).unwrap_err();
    assert!(message(&e).starts_with("Can't match dims"));
}

#[test]
fn unify_compatible_arrays_is_not_yet_implemented() {
    let mut map = TypeMap::new();
    let u = map.new_unknown();
    let s = span();
    let e = map.unify(
        Type::new_known_array(Type::Char, 1),
        Type::new_bounded_array(u, 1),
        &s,
        "string",
    ).unwrap_err();
    match e {
        SemanticError::NotYetImplemented { msg, .. } => {
            assert_eq!(msg, "not yet implemented: choose the dim_cnt that is more specific");
        },
        _ => panic!("expected the unfinished case"),
    }
}
