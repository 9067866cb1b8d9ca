use llamac::lex::token::Position;
use llamac::parse::ast::annotation::TypeAnnotation;
use llamac::parse::ast::def::{Constr, TDef, Typedef};
use llamac::parse::ast::expr::{Binop, BinopKind, Pattern, PatternKind, Unop, UnopKind};
use llamac::parse::ast::Span;
use llamac::pass::sem::sem_table::SemTable;
use llamac::pass::sem::types::inference::{InferenceGroup, Inferer};
use llamac::pass::sem::types::{same_type, Type};
use llamac::pass::sem::SemanticError;

fn span() -> Span {
    Span::new(Position::new(2, 3, "m.lla".to_string()), Position::new(2, 9, "m.lla".to_string()))
}

fn pat(kind: PatternKind) -> Pattern {
    Pattern { kind, span: span() }
}

fn general_message(e: &SemanticError) -> String {
    match e {
        SemanticError::GeneralError { msg, .. } => msg.clone(),
        _ => panic!("not a general error"),
    }
}

#[test]
fn scope_inserts_ordering_and_basic_lookup() {
    let mut table = SemTable::new();
    let foo_node = table.types.insert(Type::Unit);
    assert_eq!(table.insert_scope_binding("foo", foo_node), None);
    assert!(matches!(table.lookup("foo"), Some(_)));
    table.push_scope();
    let bar_node = table.types.insert(Type::Unit);
    assert_eq!(table.insert_scope_binding("bar", bar_node), None);
    assert!(matches!(table.lookup("bar"), Some(_)));
    assert!(matches!(table.lookup("foo"), Some(_)));
    table.pop_scope();
    assert!(matches!(table.lookup("bar"), None));
}

#[test]
fn inner_bindings_shadow_and_rebinding_returns_previous() {
    let mut table = SemTable::new();
    let a = table.types.insert(Type::Int);
    let b = table.types.insert(Type::Bool);
    let c = table.types.insert(Type::Char);
    assert_eq!(table.insert_scope_binding("x", a), None);
    table.push_scope();
    assert_eq!(table.insert_scope_binding("x", b), None);
    assert_eq!(table.lookup("x"), Some(b));
    assert_eq!(table.insert_scope_binding("x", c), Some(b));
    assert_eq!(table.lookup("x"), Some(c));
    table.pop_scope();
    assert_eq!(table.lookup("x"), Some(a));
    assert_eq!(table.lookup("y"), None);
}

#[test]
fn name_pattern_binds_the_matched_type() {
    let mut table = SemTable::new();
    let mut group = table.new_inference_group();
    let r = table.sem_pattern(&mut group, &pat(PatternKind::IdLower("x".to_string())), Type::Int);
    assert!(r.is_ok());
    let node = table.lookup("x").unwrap();
    assert!(same_type(&table.types.get_node_type(node).unwrap(), &Type::Int));
}

#[test]
fn literal_patterns_fix_the_matched_type() {
    let mut table = SemTable::new();
    let u = table.types.new_unknown();
    let v = table.types.new_unknown();
    let mut group = table.new_inference_group();
    assert!(table.sem_pattern(&mut group, &pat(PatternKind::IntLiteral(3)), u.clone()).is_ok());
    assert!(table.sem_pattern(&mut group, &pat(PatternKind::StringLiteral("hi".to_string())), v.clone()).is_ok());
    assert!(table.types.solve_group(group).is_ok());
    assert!(same_type(&table.types.deep_resolve_type(u), &Type::Int));
    assert!(same_type(&table.types.deep_resolve_type(v), &Type::new_known_array(Type::Char, 1)));
}

#[test]
fn tuple_pattern_makes_an_unknown_per_element() {
    let mut table = SemTable::new();
    let t = table.types.new_unknown();
    let mut group = table.new_inference_group();
    let p = pat(PatternKind::Tuple(vec![
        pat(PatternKind::IdLower("x".to_string())),
        pat(PatternKind::BoolLiteral(true)),
    ]));
    assert!(table.sem_pattern(&mut group, &p, t.clone()).is_ok());
    let x = table.lookup("x").unwrap();
    assert!(same_type(&table.types.get_node_type(x).unwrap(), &Type::Unknown(1)));
    assert!(same_type(&table.types.new_unknown(), &Type::Unknown(3)));
    assert!(table.types.solve_group(group).is_ok());
    assert!(same_type(
        &table.types.deep_resolve_type(t),
        &Type::new_tuple(vec![Type::Unknown(1), Type::Bool])
    ));
}

#[test]
fn constructor_patterns_follow_the_constructor_type() {
    let mut table = SemTable::new();
    let tree = Type::Custom { id: "tree".to_string() };
    let leaf = table.types.insert(tree.clone());
    table.insert_scope_binding("Leaf", leaf);
    let node = table.types.insert(Type::new_func(Type::Int, Type::new_func(Type::Char, tree.clone())));
    table.insert_scope_binding("Node", node);
    let t = table.types.new_unknown();
    let mut group = table.new_inference_group();
    let p = pat(PatternKind::IdUpper {
        id: "Node".to_string(),
        args: vec![pat(PatternKind::IdLower("n".to_string())), pat(PatternKind::CharLiteral(b'c'))],
    });
    assert!(table.sem_pattern(&mut group, &p, t.clone()).is_ok());
    let n = table.lookup("n").unwrap();
    assert!(same_type(&table.types.get_node_type(n).unwrap(), &Type::Int));
    assert!(table.types.solve_group(group).is_ok());
    assert!(same_type(&table.types.deep_resolve_type(t), &tree));

    let u = table.types.new_unknown();
    let mut group = table.new_inference_group();
    let leaf_pattern = pat(PatternKind::IdUpper { id: "Leaf".to_string(), args: vec![] });
    assert!(table.sem_pattern(&mut group, &leaf_pattern, u.clone()).is_ok());
    assert!(table.types.solve_group(group).is_ok());
    assert!(same_type(&table.types.deep_resolve_type(u), &tree));
}

#[test]
fn constructor_pattern_errors() {
    let mut table = SemTable::new();
    let tree = Type::Custom { id: "tree".to_string() };
    let leaf = table.types.insert(tree.clone());
    table.insert_scope_binding("Leaf", leaf);
    let wrap = table.types.insert(Type::new_func(Type::Int, tree.clone()));
    table.insert_scope_binding("Wrap", wrap);
    let odd = table.types.insert(Type::Int);
    table.insert_scope_binding("Odd", odd);
    let mut group = table.new_inference_group();

    let missing = pat(PatternKind::IdUpper { id: "Nope".to_string(), args: vec![] });
    match table.sem_pattern(&mut group, &missing, Type::Int) {
        Err(SemanticError::LookupError { id, span: s }) => {
            assert_eq!(id, "Nope");
            assert_eq!(s.start.line, 2);
            assert_eq!(s.start.column, 3);
        },
        _ => panic!("expected a lookup error"),
    }

    let partial = pat(PatternKind::IdUpper { id: "Wrap".to_string(), args: vec![] });
    let e = table.sem_pattern(&mut group, &partial, Type::Int).unwrap_err();
    assert_eq!(general_message(&e), "partial application of constructor Wrap in match patterns is not allowed");

    let extra = pat(PatternKind::IdUpper {
        id: "Leaf".to_string(),
        args: vec![pat(PatternKind::IntLiteral(1))],
    });
    let e = table.sem_pattern(&mut group, &extra, Type::Int).unwrap_err();
    assert_eq!(general_message(&e), "constructor Leaf invoked with arguments in match pattern, but takes none");

    let not_func = pat(PatternKind::IdUpper { id: "Odd".to_string(), args: vec![] });
    let e = table.sem_pattern(&mut group, &not_func, Type::Int).unwrap_err();
    assert_eq!(general_message(&e), "Odd type signature is not a function (constructors are functions)");
}

#[test]
fn generic_nodes_get_fresh_instances() {
    let mut table = SemTable::new();
    let a = table.types.new_unknown();
    let id_node = table.types.insert(Type::new_func(a.clone(), a.clone()));
    let plain = table.types.get_node_type_or_instantiation(id_node);
    assert!(same_type(&plain, &Type::new_func(Type::Unknown(0), Type::Unknown(0))));
    table.types.mark_generic(id_node);
    let first = table.types.get_node_type_or_instantiation(id_node);
    assert!(same_type(&first, &Type::new_func(Type::Unknown(1), Type::Unknown(1))));
    let second = table.types.get_node_type_or_instantiation(id_node);
    assert!(same_type(&second, &Type::new_func(Type::Unknown(2), Type::Unknown(2))));
    assert!(table.types.get_node_type(id_node + 1).is_none());
    assert!(same_type(&table.types.get_unit(), &Type::Unit));
}

#[test]
fn typedef_binds_types_then_constructors() {
    let mut table = SemTable::new();
    let typedef = Typedef {
        tdefs: vec![TDef {
            id: "tree".to_string(),
            constrs: vec![
                Constr { id: "Leaf".to_string(), types: vec![], span: span() },
                Constr {
                    id: "Node".to_string(),
                    types: vec![TypeAnnotation::Int, TypeAnnotation::Custom { id: "tree".to_string() }],
                    span: span(),
                },
            ],
            span: span(),
        }],
        span: span(),
    };
    assert!(table.sem_typedef(&typedef).is_ok());
    let tree = Type::Custom { id: "tree".to_string() };
    let tree_node = table.lookup("tree").unwrap();
    assert_eq!(tree_node, 0);
    assert!(same_type(&table.types.get_node_type(tree_node).unwrap(), &tree));
    let leaf = table.lookup("Leaf").unwrap();
    assert_eq!(leaf, 1);
    assert!(same_type(&table.types.get_node_type(leaf).unwrap(), &tree));
    let node = table.lookup("Node").unwrap();
    assert_eq!(node, 2);
    assert!(same_type(
        &table.types.get_node_type(node).unwrap(),
        &Type::new_func(Type::Int, Type::new_func(tree.clone(), tree.clone()))
    ));
    assert!(same_type(&table.types.new_unknown(), &Type::Unknown(0)));
}

fn unit_expr() -> Box<llamac::parse::ast::expr::Expr> {
    Box::new(llamac::parse::ast::expr::Expr { kind: llamac::parse::ast::expr::ExprKind::UnitLiteral, span: span() })
}

#[test]
fn binary_operators_constrain_their_operands() {
    let mut table = SemTable::new();
    let a = table.types.new_unknown();
    let b = table.types.new_unknown();
    let mut group = table.new_inference_group();
    let add = Binop { lhs: unit_expr(), op: BinopKind::Add, rhs: unit_expr() };
    let t = table.sem_binop(&mut group, &add, &span(), a.clone(), Type::Int).unwrap();
    assert!(same_type(&t, &Type::Int));
    let lt = Binop { lhs: unit_expr(), op: BinopKind::Lt, rhs: unit_expr() };
    let t = table.sem_binop(&mut group, &lt, &span(), b.clone(), Type::Int).unwrap();
    assert!(same_type(&t, &Type::Bool));
    let seq = Binop { lhs: unit_expr(), op: BinopKind::Semicolon, rhs: unit_expr() };
    let t = table.sem_binop(&mut group, &seq, &span(), Type::Unit, Type::Char).unwrap();
    assert!(same_type(&t, &Type::Char));
    let assign = Binop { lhs: unit_expr(), op: BinopKind::Assign, rhs: unit_expr() };
    let r = table.types.new_unknown();
    let t = table.sem_binop(&mut group, &assign, &span(), r.clone(), Type::Int).unwrap();
    assert!(same_type(&t, &Type::Unit));
    assert!(table.types.solve_group(group).is_ok());
    assert!(same_type(&table.types.deep_resolve_type(a), &Type::Int));
    assert!(same_type(&table.types.deep_resolve_type(b), &Type::Int));
    assert!(same_type(&table.types.deep_resolve_type(r), &Type::new_ref(Type::Int)));

    let mut group = table.new_inference_group();
    let and = Binop { lhs: unit_expr(), op: BinopKind::And, rhs: unit_expr() };
    let t = table.sem_binop(&mut group, &and, &span(), Type::Int, Type::Bool).unwrap();
    assert!(same_type(&t, &Type::Bool));
    match table.types.solve_group(group) {
        Err(SemanticError::InferenceError { unification_reason, .. }) => {
            assert_eq!(unification_reason, "'&&, ||' operands must be booleans");
        },
        _ => panic!("expected an inference error"),
    }
}

#[test]
fn unary_operators_constrain_their_operand() {
    let mut table = SemTable::new();
    let p = table.types.new_unknown();
    let mut group = table.new_inference_group();
    let deref = Unop { op: UnopKind::Deref, operand: unit_expr() };
    let t = table.sem_unop(&mut group, &deref, &span(), p.clone()).unwrap();
    assert!(same_type(&t, &Type::Unknown(1)));
    let not = Unop { op: UnopKind::Not, operand: unit_expr() };
    let t = table.sem_unop(&mut group, &not, &span(), t).unwrap();
    assert!(same_type(&t, &Type::Bool));
    assert!(table.types.solve_group(group).is_ok());
    assert!(same_type(&table.types.deep_resolve_type(p), &Type::new_ref(Type::Bool)));
    let mut group = table.new_inference_group();
    let minus = Unop { op: UnopKind::Minus, operand: unit_expr() };
    let t = table.sem_unop(&mut group, &minus, &span(), Type::Char).unwrap();
    assert!(same_type(&t, &Type::Char));
    assert!(table.types.solve_group(group).is_err());
}

#[test]
fn constructors_of_three_arguments_match_all_of_them() {
    let mut table = SemTable::new();
    let tree = Type::Custom { id: "t".to_string() };
    let triple = table.types.insert(Type::new_func(
        Type::Int,
        Type::new_func(Type::Char, Type::new_func(Type::Bool, tree.clone())),
    ));
    table.insert_scope_binding("Triple", triple);
    let u = table.types.new_unknown();
    let mut group = table.new_inference_group();
    let p = pat(PatternKind::IdUpper {
        id: "Triple".to_string(),
        args: vec![
            pat(PatternKind::IdLower("a".to_string())),
            pat(PatternKind::CharLiteral(b'c')),
            pat(PatternKind::BoolLiteral(true)),
        ],
    });
    assert!(table.sem_pattern(&mut group, &p, u.clone()).is_ok());
    let a = table.lookup("a").unwrap();
    assert!(same_type(&table.types.get_node_type(a).unwrap(), &Type::Int));
    assert!(table.types.solve_group(group).is_ok());
    assert!(same_type(&table.types.deep_resolve_type(u), &tree));
    let mut group = table.new_inference_group();
    let short = pat(PatternKind::IdUpper {
        id: "Triple".to_string(),
        args: vec![pat(PatternKind::IntLiteral(1)), pat(PatternKind::CharLiteral(b'c'))],
    });
    let e = table.sem_pattern(&mut group, &short, Type::Int).unwrap_err();
    assert_eq!(general_message(&e), "partial application of constructor Triple in match patterns is not allowed");
}
