use llamac::lex::token::TokenKind;
use llamac::parse::ast::annotation::TypeAnnotation;
use llamac::parse::ast::expr::{BinopKind, UnopKind};

#[test]
fn operators_from_tokens() {
    assert_eq!(UnopKind::from_token_kind(&TokenKind::Exclam), UnopKind::Deref);
    assert_eq!(UnopKind::from_token_kind(&TokenKind::Delete), UnopKind::Delete);
    assert_eq!(BinopKind::from_token_kind(&TokenKind::Eq), BinopKind::StrEq);
    assert_eq!(BinopKind::from_token_kind(&TokenKind::DblEq), BinopKind::NatEq);
    assert_eq!(BinopKind::from_token_kind(&TokenKind::ColonEq), BinopKind::Assign);
    assert_eq!(BinopKind::from_token_kind(&TokenKind::DblStar), BinopKind::Pow);
}

#[test]
fn basic_type_tokens() {
    assert!(matches!(TypeAnnotation::from_token_kind(&TokenKind::Unit), TypeAnnotation::Unit));
    assert!(matches!(TypeAnnotation::from_token_kind(&TokenKind::Float), TypeAnnotation::Float));
}
