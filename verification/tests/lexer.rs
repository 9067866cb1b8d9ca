use llamac::lex::token::{TokenKind, TokenValue};
use llamac::lex::{IntoLexer, LexErr, Lexer};
use llamac::scan::Line;

fn lines(text: &[&str]) -> Vec<Line> {
    let mut v = vec![Line::change_file("t.lla".to_string())];
    for (i, l) in text.iter().enumerate() {
        v.push(Line::line(l.as_bytes().to_vec(), i + 1));
    }
    v
}

fn kinds(text: &[&str]) -> Vec<TokenKind> {
    let input = lines(text);
    assert!(Lexer::accepts(&input));
    let mut lexer = input.into_lexer(true);
    let mut out = Vec::new();
    loop {
        match lexer.next_token() {
            Ok(Some(t)) => out.push(t.kind),
            Ok(None) => break,
            Err(_) => panic!("lexing failed"),
        }
    }
    out
}

#[test]
fn lexes_a_definition() {
    assert_eq!(
        kinds(&["let x = 42 + y\n"]),
        vec![TokenKind::Let, TokenKind::IdLower, TokenKind::Eq, TokenKind::IntLiteral, TokenKind::Plus, TokenKind::IdLower, TokenKind::EOF]
    );
}

#[test]
fn lexes_symbols_and_keywords() {
    assert_eq!(
        kinds(&["if a <= b then f -> Some else ()\n"]),
        vec![
            TokenKind::If, TokenKind::IdLower, TokenKind::LEq, TokenKind::IdLower, TokenKind::Then,
            TokenKind::IdLower, TokenKind::Arrow, TokenKind::IdUpper, TokenKind::Else, TokenKind::LParen,
            TokenKind::RParen, TokenKind::EOF
        ]
    );
}

#[test]
fn literal_values() {
    let mut lexer = lines(&["'a' \"hi\\n\" 17 3.25\n"]).into_lexer(false);
    let t = lexer.next_token().ok().flatten().unwrap();
    assert_eq!(t.kind, TokenKind::CharLiteral);
    assert!(matches!(t.value, TokenValue::Char(b'a')));
    let t = lexer.next_token().ok().flatten().unwrap();
    assert_eq!(t.kind, TokenKind::StringLiteral);
    assert_eq!(t.extract_string_value(), "hi\n");
    let t = lexer.next_token().ok().flatten().unwrap();
    assert_eq!(t.extract_int_value(), 17);
    let t = lexer.next_token().ok().flatten().unwrap();
    assert_eq!(t.kind, TokenKind::FloatLiteral);
    assert_eq!(t.extract_float_value(), "3.25");
}

#[test]
fn integer_overflow() {
    let mut lexer = lines(&["99999999999\n"]).into_lexer(true);
    match lexer.next_token() {
        Err(LexErr::ParseIntError(_, msg)) => assert_eq!(msg, "number too large to fit in target type"),
        _ => panic!("too large"),
    }
}

#[test]
fn unterminated_comment() {
    let mut lexer = lines(&["(* open\n", "still open\n"]).into_lexer(true);
    let mut seen_error = false;
    for _ in 0..5 {
        match lexer.next_token() {
            Err(LexErr::UnterminatedComment(_)) => {
                seen_error = true;
                break;
            },
            Ok(None) => break,
            _ => {},
        }
    }
    assert!(seen_error);
}

#[test]
fn hex_escapes_read_their_digits_in_base_ten() {
    let mut lexer = lines(&["'\\x41' \"a\\x42b\"\n"]).into_lexer(false);
    let t = lexer.next_token().ok().flatten().unwrap();
    assert!(matches!(t.value, TokenValue::Char(41)));
    let t = lexer.next_token().ok().flatten().unwrap();
    assert_eq!(t.extract_string_value(), "a*b");
}
