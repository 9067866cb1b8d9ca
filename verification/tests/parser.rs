use llamac::lex::token::{Token, TokenKind};
use llamac::lex::{IntoLexer, Lexer};
use llamac::parse::ast::annotation::TypeAnnotation;
use llamac::parse::ast::def::{DefKind, Definition};
use llamac::parse::ast::expr::{BinopKind, Expr, ExprKind, PatternKind, UnopKind};
use llamac::parse::ast::print::{type_text, NodeRef};
use llamac::parse::ast::Program;
use llamac::parse::{IntoParser, ParseErr, Parser};
use llamac::scan::Line;

fn tokens(text: &str) -> Vec<Token> {
    let mut input = vec![Line::change_file("t.lla".to_string())];
    for (i, l) in text.lines().enumerate() {
        let mut bytes = l.as_bytes().to_vec();
        bytes.push(b'\n');
        input.push(Line::line(bytes, i + 1));
    }
    assert!(Lexer::accepts(&input));
    let mut lexer = input.into_lexer(true);
    let mut out = Vec::new();
    loop {
        match lexer.next_token() {
            Ok(Some(t)) => out.push(t),
            Ok(None) => break,
            Err(_) => panic!("lexing failed"),
        }
    }
    out
}

fn parse(text: &str) -> Result<Program, ParseErr> {
    let ts = tokens(text);
    assert!(Parser::accepts(&ts));
    ts.into_parser().program()
}

fn only_def_expr(p: &Program) -> &Expr {
    assert_eq!(p.definitions.len(), 1);
    match &p.definitions[0] {
        Definition::Let(l) => match &l.defs[0].kind {
            DefKind::Const { expr } => expr,
            DefKind::Function { expr, .. } => expr,
            _ => panic!("not a definition with a body"),
        },
        _ => panic!("not a let"),
    }
}

fn binop(e: &Expr) -> (&Expr, BinopKind, &Expr) {
    match &e.kind {
        ExprKind::Binop(b) => (&b.lhs, b.op, &b.rhs),
        _ => panic!("not a binary operation"),
    }
}

fn int_of(e: &Expr) -> i32 {
    match &e.kind {
        ExprKind::IntLiteral(i) => *i,
        _ => panic!("not an integer"),
    }
}

fn name(e: &Expr) -> &str {
    match &e.kind {
        ExprKind::Call(c) => {
            assert!(c.args.is_empty());
            &c.id
        }
        _ => panic!("not a name"),
    }
}

#[test]
fn parses_arithmetic_with_precedence() {
    let p = parse("let x = 1 + 2 * 3").unwrap();
    let (l, op, r) = binop(only_def_expr(&p));
    assert_eq!(op, BinopKind::Add);
    assert_eq!(int_of(l), 1);
    let (l2, op2, r2) = binop(r);
    assert_eq!(op2, BinopKind::Mul);
    assert_eq!((int_of(l2), int_of(r2)), (2, 3));
}

#[test]
fn subtraction_is_left_associative_and_power_right_associative() {
    let p = parse("let x = a - b - c").unwrap();
    let (l, op, r) = binop(only_def_expr(&p));
    assert_eq!(op, BinopKind::Sub);
    assert_eq!(name(r), "c");
    let (ll, _, lr) = binop(l);
    assert_eq!((name(ll), name(lr)), ("a", "b"));

    let p = parse("let y = 2 ** 3 ** 4").unwrap();
    let (l, op, r) = binop(only_def_expr(&p));
    assert_eq!(op, BinopKind::Pow);
    assert_eq!(int_of(l), 2);
    let (rl, _, rr) = binop(r);
    assert_eq!((int_of(rl), int_of(rr)), (3, 4));
}

#[test]
fn spans_cover_the_expression() {
    let p = parse("let x = 10 + 2").unwrap();
    let e = only_def_expr(&p);
    assert_eq!((e.span.start.line, e.span.start.column), (1, 9));
    assert_eq!(e.span.end.line, 1);
    assert!(e.span.end.column > e.span.start.column);
}

#[test]
fn parses_functions_with_typed_parameters() {
    let p = parse("let f x (y : int) : bool = x < y").unwrap();
    match &p.definitions[0] {
        Definition::Let(l) => {
            assert!(!l.rec);
            let d = &l.defs[0];
            assert_eq!(d.id, "f");
            assert!(matches!(d.type_, Some(TypeAnnotation::Bool)));
            match &d.kind {
                DefKind::Function { pars, expr } => {
                    assert_eq!(pars.len(), 2);
                    assert_eq!(pars[0].id, "x");
                    assert!(pars[0].type_.is_none());
                    assert_eq!(pars[1].id, "y");
                    assert!(matches!(pars[1].type_, Some(TypeAnnotation::Int)));
                    assert_eq!(binop(expr).1, BinopKind::Lt);
                }
                _ => panic!("not a function"),
            }
        }
        _ => panic!("not a let"),
    }
}

#[test]
fn parses_recursive_definitions_joined_by_and() {
    let p = parse("let rec f x = g x and g y = f y").unwrap();
    match &p.definitions[0] {
        Definition::Let(l) => {
            assert!(l.rec);
            assert_eq!(l.defs.len(), 2);
            assert_eq!(l.defs[1].id, "g");
        }
        _ => panic!("not a let"),
    }
}

#[test]
fn function_types_associate_to_the_right() {
    let p = parse("let f (g : int -> int -> bool) = 1").unwrap();
    match &p.definitions[0] {
        Definition::Let(l) => match &l.defs[0].kind {
            DefKind::Function { pars, .. } => match &pars[0].type_ {
                Some(TypeAnnotation::Func { lhs, rhs }) => {
                    assert!(matches!(**lhs, TypeAnnotation::Int));
                    assert!(matches!(**rhs, TypeAnnotation::Func { .. }));
                }
                _ => panic!("not a function type"),
            },
            _ => panic!("not a function"),
        },
        _ => panic!("not a let"),
    }
}

#[test]
fn parses_array_and_reference_types() {
    let p = parse("let mutable a [10, 20] : array [*, *] of int ref").unwrap();
    match &p.definitions[0] {
        Definition::Let(l) => {
            let d = &l.defs[0];
            assert_eq!(d.id, "a");
            match &d.kind {
                DefKind::Array { dims } => assert_eq!(dims.len(), 2),
                _ => panic!("not an array"),
            }
            match &d.type_ {
                Some(TypeAnnotation::Ref(inner)) => match &**inner {
                    TypeAnnotation::Array { inner, dim_cnt } => {
                        assert_eq!(*dim_cnt, 2);
                        assert!(matches!(**inner, TypeAnnotation::Ref(_)));
                    }
                    _ => panic!("not an array type"),
                },
                _ => panic!("no reference type"),
            }
        }
        _ => panic!("not a let"),
    }
}

#[test]
fn parses_type_definitions() {
    let p = parse("type color = Red | Green | Rgb of int int int and t = T").unwrap();
    match &p.definitions[0] {
        Definition::Type(t) => {
            assert_eq!(t.tdefs.len(), 2);
            let c = &t.tdefs[0];
            assert_eq!(c.id, "color");
            assert_eq!(c.constrs.len(), 3);
            assert_eq!(c.constrs[2].id, "Rgb");
            assert_eq!(c.constrs[2].types.len(), 3);
            assert!(c.constrs[0].types.is_empty());
            assert_eq!(t.tdefs[1].constrs[0].id, "T");
        }
        _ => panic!("not a type definition"),
    }
}

#[test]
fn parses_match_with_patterns() {
    let p = parse("let f x = match x with -1 -> 0 | Some y -> y | (a, b) -> a end").unwrap();
    match &only_def_expr(&p).kind {
        ExprKind::Match(m) => {
            assert_eq!(m.clauses.len(), 3);
            assert!(matches!(m.clauses[0].pattern.kind, PatternKind::IntLiteral(-1)));
            match &m.clauses[1].pattern.kind {
                PatternKind::IdUpper { id, args } => {
                    assert_eq!(id, "Some");
                    assert_eq!(args.len(), 1);
                }
                _ => panic!("not a constructor pattern"),
            }
            match &m.clauses[2].pattern.kind {
                PatternKind::Tuple(ps) => assert_eq!(ps.len(), 2),
                _ => panic!("not a tuple pattern"),
            }
        }
        _ => panic!("not a match"),
    }
}

#[test]
fn parses_control_flow() {
    let p = parse("let main = let x = 1 in if x = 1 then while true do x := !x + 1 done else for i = 10 downto 1 do () done").unwrap();
    match &only_def_expr(&p).kind {
        ExprKind::LetIn(l) => match &l.expr.kind {
            ExprKind::If(i) => {
                assert!(matches!(i.then_body.kind, ExprKind::While(_)));
                match &i.else_body.as_ref().unwrap().kind {
                    ExprKind::For(f) => {
                        assert_eq!(f.id, "i");
                        assert!(!f.ascending);
                        assert!(matches!(f.body.kind, ExprKind::UnitLiteral));
                    }
                    _ => panic!("not a for loop"),
                }
            }
            _ => panic!("not an if"),
        },
        _ => panic!("not a let-in"),
    }
}

#[test]
fn parses_sequences_calls_and_dereferences() {
    let p = parse("let main = print_int (f 1 2); a[1, 2] := !r; dim 2 a; new int; (1, 'c', \"s\")").unwrap();
    let (first, op, rest) = binop(only_def_expr(&p));
    assert_eq!(op, BinopKind::Semicolon);
    match &first.kind {
        ExprKind::Call(c) => {
            assert_eq!(c.id, "print_int");
            assert_eq!(c.args.len(), 1);
            match &c.args[0].kind {
                ExprKind::Call(inner) => assert_eq!(inner.args.len(), 2),
                _ => panic!("not a call"),
            }
        }
        _ => panic!("not a call"),
    }
    let (assign, _, rest) = binop(rest);
    let (lhs, op, rhs) = binop(assign);
    assert_eq!(op, BinopKind::Assign);
    match &lhs.kind {
        ExprKind::ArrayAccess(a) => assert_eq!(a.indexes.len(), 2),
        _ => panic!("not an array access"),
    }
    match &rhs.kind {
        ExprKind::Unop(u) => assert_eq!(u.op, UnopKind::Deref),
        _ => panic!("not a dereference"),
    }
    let (dim, _, rest) = binop(rest);
    match &dim.kind {
        ExprKind::Dim(d) => assert_eq!((d.id.as_str(), d.dim), ("a", 2)),
        _ => panic!("not dim"),
    }
    let (new, _, tuple) = binop(rest);
    assert!(matches!(new.kind, ExprKind::New(TypeAnnotation::Int)));
    match &tuple.kind {
        ExprKind::Tuple(es) => assert_eq!(es.len(), 3),
        _ => panic!("not a tuple"),
    }
}

#[test]
fn unary_operators_nest_from_the_right() {
    let p = parse("let x = - not y").unwrap();
    match &only_def_expr(&p).kind {
        ExprKind::Unop(u) => {
            assert_eq!(u.op, UnopKind::Minus);
            match &u.operand.kind {
                ExprKind::Unop(v) => assert_eq!(v.op, UnopKind::Not),
                _ => panic!("not a unary operation"),
            }
        }
        _ => panic!("not a unary operation"),
    }
}

#[test]
fn comments_are_skipped() {
    let p = parse("let x = 1 (* one *) + -- a comment\n 2").unwrap();
    assert_eq!(binop(only_def_expr(&p)).1, BinopKind::Add);
}

#[test]
fn reports_the_unexpected_token() {
    match parse("let = 1") {
        Err(ParseErr::UnexpectedToken(Some(t), expected)) => {
            assert_eq!(t.kind, TokenKind::Eq);
            assert_eq!(expected, vec![TokenKind::IdLower, TokenKind::Mutable]);
        }
        _ => panic!("expected an error"),
    }
}

#[test]
fn reports_a_missing_expression_at_the_end() {
    match parse("let x =") {
        Err(ParseErr::UnexpectedToken(Some(t), expected)) => {
            assert_eq!(t.kind, TokenKind::EOF);
            assert!(expected.contains(&TokenKind::IntLiteral));
            assert!(expected.contains(&TokenKind::Match));
        }
        _ => panic!("expected an error"),
    }
}

#[test]
fn reports_the_end_of_input_without_end_token() {
    let mut ts = tokens("let x = 1");
    assert_eq!(ts.pop().unwrap().kind, TokenKind::EOF);
    match ts.into_parser().program() {
        Err(ParseErr::UnexpectedToken(None, expected)) => {
            assert_eq!(expected, vec![TokenKind::Let, TokenKind::Type]);
        }
        _ => panic!("expected an error"),
    }
}

#[test]
fn an_empty_program_parses() {
    let p = parse("").unwrap();
    assert!(p.definitions.is_empty());
}

#[test]
fn labels_of_printed_nodes() {
    let p = parse("let rec f (x : int) : array [*, *] of int ref = x + 1 and g = \"a\\nb\"").unwrap();
    assert_eq!(NodeRef::Program(&p).label(), "Program with 1 statement");
    assert_eq!(NodeRef::Definition(&p.definitions[0]).label(), "Recursive let statement with 2 definitions");
    match &p.definitions[0] {
        Definition::Let(l) => {
            assert_eq!(
                NodeRef::Def(&l.defs[0]).label(),
                "Function f annotated '(int ref)[*, *]'"
            );
            let shown = NodeRef::Def(&l.defs[0]).shown_children();
            assert_eq!(shown.len(), 2);
            assert_eq!(shown[0].label(), "Parameter x annotated 'int'");
            assert_eq!(shown[1].label(), "Binary Operation 'Add'");
            assert_eq!(NodeRef::Def(&l.defs[0]).children().unwrap().len(), 3);
            match &l.defs[1].kind {
                DefKind::Const { expr } => assert_eq!(NodeRef::Expr(expr).label(), "String Literal 'a\\nb'"),
                _ => panic!("not a constant"),
            }
        }
        _ => panic!("not a let"),
    }
    let t = TypeAnnotation::Func {
        lhs: Box::new(TypeAnnotation::Tuple(vec![TypeAnnotation::Int, TypeAnnotation::Char])),
        rhs: Box::new(TypeAnnotation::Unit),
    };
    assert_eq!(type_text(&t), "(int, char) -> (unit)");
}

#[test]
fn labels_of_patterns_and_leaves() {
    let p = parse("let f x = match x with -12 -> 'c' | Some (a, b) -> dim 2 z end").unwrap();
    match &only_def_expr(&p).kind {
        ExprKind::Match(m) => {
            assert_eq!(NodeRef::Expr(only_def_expr(&p)).label(), "Match expression with 2 clauses");
            assert_eq!(NodeRef::Pattern(&m.clauses[0].pattern).label(), "Int Literal '-12'");
            assert_eq!(NodeRef::Expr(&m.clauses[0].expr).label(), "Char Literal '99'");
            assert_eq!(
                NodeRef::Pattern(&m.clauses[1].pattern).label(),
                "Pattern matching on constructor 'Some' with 1 argument"
            );
            assert_eq!(NodeRef::Expr(&m.clauses[1].expr).label(), "dim call for id z and dimension 2");
            assert!(NodeRef::Expr(&m.clauses[1].expr).children().is_none());
            assert!(NodeRef::Expr(&m.clauses[1].expr).shown_children().is_empty());
        }
        _ => panic!("not a match"),
    }
}

#[test]
fn parenthesised_and_block_expressions_span_their_tokens() {
    for (text, first, last) in [
        ("let x = (1, 22)", TokenKind::LParen, TokenKind::RParen),
        ("let x = begin 7 end", TokenKind::Begin, TokenKind::End),
        ("let x = ( )", TokenKind::LParen, TokenKind::RParen),
        ("let x = (5)", TokenKind::LParen, TokenKind::RParen),
    ] {
        let ts = tokens(text);
        let open = ts.iter().find(|t| t.kind == first).unwrap();
        let close = ts.iter().rev().find(|t| t.kind == last).unwrap();
        let p = parse(text).unwrap();
        let e = only_def_expr(&p);
        assert_eq!((e.span.start.line, e.span.start.column), (open.from.line, open.from.column));
        assert_eq!((e.span.end.line, e.span.end.column), (close.to.line, close.to.column));
    }
    let p = parse("let x = (1, 22)").unwrap();
    assert!(matches!(only_def_expr(&p).kind, ExprKind::Tuple(_)));
    let p = parse("let x = (5)").unwrap();
    assert_eq!(int_of(only_def_expr(&p)), 5);
}

#[test]
fn patterns_span_their_tokens() {
    for (text, first, last) in [
        ("let y = match x with (a, b) -> 1 end", TokenKind::LParen, TokenKind::RParen),
        ("let y = match x with -3 -> 1 end", TokenKind::Minus, TokenKind::IntLiteral),
        ("let y = match x with 'c' -> 1 end", TokenKind::CharLiteral, TokenKind::CharLiteral),
    ] {
        let ts = tokens(text);
        let open = ts.iter().find(|t| t.kind == first).unwrap();
        let close = ts.iter().find(|t| t.kind == last && t.to.column >= open.to.column).unwrap();
        let p = parse(text).unwrap();
        let e = only_def_expr(&p);
        let clause = match &e.kind {
            ExprKind::Match(m) => &m.clauses[0],
            _ => panic!("expected a match"),
        };
        let s = &clause.pattern.span;
        assert_eq!((s.start.line, s.start.column), (open.from.line, open.from.column));
        assert_eq!((s.end.line, s.end.column), (close.to.line, close.to.column));
    }
}
