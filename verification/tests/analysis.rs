use llamac::lex::token::Token;
use llamac::lex::{IntoLexer, Lexer};
use llamac::parse::ast::Program;
use llamac::parse::{IntoParser, Parser};
use llamac::pass::sem::sem;
use llamac::pass::sem::types::Type;
use llamac::pass::sem::SemanticError;
use llamac::scan::Line;

fn tokens(text: &str) -> Vec<Token> {
    let mut input = vec![Line::change_file("s.lla".to_string())];
    for (i, l) in text.lines().enumerate() {
        let mut bytes = l.as_bytes().to_vec();
        bytes.push(b'\n');
        input.push(Line::line(bytes, i + 1));
    }
    assert!(Lexer::accepts(&input));
    let mut lexer = input.into_lexer(true);
    let mut out = Vec::new();
    loop {
        match lexer.next_token() {
            Ok(Some(t)) => out.push(t),
            Ok(None) => break,
            Err(_) => panic!("lexing failed"),
        }
    }
    out
}

fn program(text: &str) -> Program {
    let ts = tokens(text);
    assert!(Parser::accepts(&ts));
    match ts.into_parser().program() {
        Ok(p) => p,
        Err(_) => panic!("parsing failed"),
    }
}

fn analyse(text: &str) -> Result<Vec<String>, SemanticError> {
    let p = program(text);
    let mut table = sem(&p)?;
    Ok(table.node_types_text())
}

fn inference_message(e: &SemanticError) -> String {
    match e {
        SemanticError::InferenceError { msg, .. } => msg.clone(),
        _ => panic!("not an inference error"),
    }
}

#[test]
fn simple_definitions_are_typed() {
    let types = analyse("let x = 1\nlet y = x + 2\nlet b = y > 1").unwrap();
    assert!(types.iter().any(|t| t == "bool"));
    assert!(types.iter().all(|t| t == "int" || t == "bool"));
}

#[test]
fn functions_and_calls_are_typed() {
    let types = analyse("let f x = x + 1\nlet z = f 3").unwrap();
    assert!(types.iter().any(|t| t == "int -> (int)"));
}

#[test]
fn recursive_functions_are_typed() {
    let text = "let rec fact n = if n = 0 then 1 else n * fact (n - 1)\nlet z = fact 5";
    let types = analyse(text).unwrap();
    assert!(types.iter().any(|t| t == "int -> (int)"));
}

#[test]
fn generic_functions_get_fresh_instances() {
    let text = "let id x = x\nlet a = id 1\nlet b = id 'c'";
    assert!(analyse(text).is_ok());
}

#[test]
fn recursive_generic_definitions_are_refused() {
    let e = analyse("let rec f x = x").unwrap_err();
    match e {
        SemanticError::GeneralError { msg, .. } => {
            assert!(msg.starts_with("Recursive generic def is not (yet) supported (of type "));
        },
        _ => panic!("expected a general error"),
    }
}

#[test]
fn unknown_names_are_lookup_errors() {
    let e = analyse("let x = y + 1").unwrap_err();
    match e {
        SemanticError::LookupError { id, .. } => assert_eq!(id, "y"),
        _ => panic!("expected a lookup error"),
    }
}

#[test]
fn mismatched_types_are_inference_errors() {
    let e = analyse("let x = 1 + true").unwrap_err();
    assert!(!inference_message(&e).is_empty());
    let e = analyse("let x = if true then 1 else 'c'").unwrap_err();
    assert_eq!(inference_message(&e), "Couldn't unify");
}

#[test]
fn loops_and_references_are_typed() {
    let text = "let mutable a\nlet f n = for i = 1 to n do a := !a + i done\nlet g n = while !a < n do a := !a + 1 done";
    assert!(analyse(text).is_ok());
}

#[test]
fn user_types_and_matches_are_typed() {
    let text = "type color = Red | Green | Other of int\nlet f c = match c with Red -> 1 | Green -> 2 | Other n -> n end";
    let types = analyse(text).unwrap();
    assert!(types.iter().any(|t| t == "color -> (int)"));
}

#[test]
fn let_in_and_tuples_are_typed() {
    let text = "let p = let a = 1 in (a, 'c', true)";
    let types = analyse(text).unwrap();
    assert!(types.iter().any(|t| t == "(int, char, bool)"));
}

#[test]
fn array_definitions_are_typed() {
    let types = analyse("let mutable m [3, 4] : int\nlet n = 3").unwrap();
    assert!(types.iter().any(|t| t == "int"));
}

#[test]
fn annotated_arrays_have_their_element_type() {
    for text in ["let mutable m [3, 4] : int\nlet d = dim 2 m", "let mutable m [3, 4] : int\nlet x = m[1, 2]"] {
        let e = analyse(text).unwrap_err();
        assert_eq!(inference_message(&e), "Couldn't unify");
    }
}

#[test]
fn array_uses_reach_the_unfinished_case() {
    let text = "let mutable m [3]\nlet x = m[1]\nlet y = m[2]";
    match analyse(text).unwrap_err() {
        SemanticError::NotYetImplemented { msg, .. } => {
            assert_eq!(msg, "not yet implemented: choose the dim_cnt that is more specific");
        },
        _ => panic!("expected the unfinished case"),
    }
}

#[test]
fn each_expression_and_definition_is_a_node() {
    assert_eq!(analyse("let x = 1").unwrap(), vec!["int".to_string(), "int".to_string()]);
}

#[test]
fn mutually_recursive_functions_are_typed() {
    let text = "let rec even n = if n = 0 then true else odd (n - 1)\nand odd n = if n = 0 then false else even (n - 1)";
    let types = analyse(text).unwrap();
    assert!(types.iter().any(|t| t == "int -> (bool)"));
}

#[test]
fn loop_bounds_must_be_integers() {
    let e = analyse("let f x = for i = 1 to 'c' do () done").unwrap_err();
    assert_eq!(inference_message(&e), "Couldn't unify");
}

#[test]
fn unknown_constructors_in_patterns_are_lookup_errors() {
    let e = analyse("let f x = match x with Nope -> 1 end").unwrap_err();
    match e {
        SemanticError::LookupError { id, .. } => assert_eq!(id, "Nope"),
        _ => panic!("expected a lookup error"),
    }
}

fn reason(e: &SemanticError) -> String {
    match e {
        SemanticError::InferenceError { unification_reason, .. } => unification_reason.clone(),
        _ => panic!("not an inference error"),
    }
}

#[test]
fn non_recursive_self_reference_is_a_lookup_error() {
    for (text, name) in [("let x = x", "x"), ("let f n = f n", "f"), ("let a = 1 and b = a", "a")] {
        match analyse(text).unwrap_err() {
            SemanticError::LookupError { id, .. } => assert_eq!(id, name),
            _ => panic!("expected a lookup error"),
        }
    }
}

#[test]
fn recursive_self_reference_is_allowed() {
    assert!(analyse("let rec f n = if n = 0 then 0 else f (n - 1)").is_ok());
    assert!(analyse("let x = 1\nlet x = x + 1").is_ok());
}

#[test]
fn each_name_is_bound_to_its_own_definition() {
    assert!(analyse("let a = 1 and b = true\nlet c = if b then a else 0").is_ok());
    let e = analyse("let a = 1 and b = true\nlet c = a && b").unwrap_err();
    assert_eq!(inference_message(&e), "Couldn't unify");
}

#[test]
fn recursive_generic_error_names_the_type() {
    match analyse("let rec f x = x").unwrap_err() {
        SemanticError::GeneralError { msg, .. } => {
            assert!(msg.starts_with("Recursive generic def is not (yet) supported (of type "));
            assert!(msg.ends_with(")"));
            assert!(msg.len() > "Recursive generic def is not (yet) supported (of type )".len());
        },
        _ => panic!("expected a general error"),
    }
}

#[test]
fn unifications_carry_their_reasons() {
    let cases = [
        ("let mutable a [true]", "array definition dimensions must be integers"),
        ("let f (x : int) = x\nlet y = f 'c'", "function call must match function signature"),
        ("let f x = match x with 1 -> 'c' | 2 -> true end", "match expression clauses must all have the same type"),
        ("let f x = if 'c' then 1 else 2", "if expression condition must be a boolean"),
        ("let f x = while true do 1 done", "while expression body must be of unit type"),
        ("let x : char = 1", "expression type and annotation must match"),
    ];
    for (text, why) in cases {
        let e = analyse(text).unwrap_err();
        assert_eq!(reason(&e), why, "{}", text);
    }
}

#[test]
fn let_in_definitions_are_local() {
    assert!(analyse("let x = let y = 1 in y + 1").is_ok());
    match analyse("let x = let y = z in y").unwrap_err() {
        SemanticError::LookupError { id, .. } => assert_eq!(id, "z"),
        _ => panic!("expected a lookup error"),
    }
    match analyse("let x = let y = 1 in y\nlet z = y").unwrap_err() {
        SemanticError::LookupError { id, .. } => assert_eq!(id, "y"),
        _ => panic!("expected a lookup error"),
    }
}
