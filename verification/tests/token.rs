use llamac::lex::token::TokenKind;

#[test]
fn serialize_one_of_each() {
    assert_eq!(TokenKind::EOF.to_string(), "EOF");
    assert_eq!(TokenKind::Begin.to_string(), "begin");
    assert_eq!(TokenKind::IntLiteral.to_string(), "IntLiteral");
    assert_eq!(TokenKind::StringLiteral.to_string(), "StringLiteral");
    assert_eq!(TokenKind::Arrow.to_string(), "->");
}
