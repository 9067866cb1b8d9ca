use vstd::prelude::*;
use crate::lex::token::{Token, TokenKind, TokenValue};
use crate::pass::sem::types::TypeV;
use super::ast::expr::PatternV;
use crate::pass::sem::types::inference::ArrayDims;
use super::stream::{Parsed, skipped, next_kind, after_next, lemma_skipped};

verus! {

/// The kinds that can start a type.
pub open spec fn type_starters() -> Seq<TokenKind> {
    seq![
        TokenKind::Unit, TokenKind::Int, TokenKind::Char, TokenKind::Bool, TokenKind::Float,
        TokenKind::LParen, TokenKind::Array, TokenKind::IdLower,
    ]
}

/// The basic type a token kind names.
pub open spec fn basic_type(k: TokenKind) -> Option<TypeV> {
    match k {
        TokenKind::Unit => Some(TypeV::Unit),
        TokenKind::Int => Some(TypeV::Int),
        TokenKind::Char => Some(TypeV::Char),
        TokenKind::Bool => Some(TypeV::Bool),
        TokenKind::Float => Some(TypeV::Float),
        _ => None,
    }
}

/// The one type of a one-element list, else the tuple of the list.
pub open spec fn tuple_or_one(ts: Seq<TypeV>) -> TypeV {
    if ts.len() == 1 {
        ts[0]
    } else {
        TypeV::Tuple(ts)
    }
}

/// The text a token carries, if it carries one.
pub open spec fn token_text(t: Token) -> Seq<char> {
    match t.value {
        TokenValue::String(s) => s@,
        _ => Seq::empty(),
    }
}

/// A type: `t1 -> t2 -> ...`, the arrows associating to the right.
pub open spec fn type_spec(ts: Seq<Token>) -> Parsed<TypeV>
    decreases ts.len(), 2nat,
{
    match type_helper_spec(ts) {
        Parsed::Done(t1, r1) => {
            if r1.len() < ts.len() && next_kind(r1) == Some(TokenKind::Arrow) {
                proof {
                    lemma_skipped(r1);
                }
                match type_spec(after_next(r1)) {
                    Parsed::Done(t2, r2) => Parsed::Done(TypeV::Func(Box::new(t1), Box::new(t2)), r2),
                    Parsed::Failed(r2, ks) => Parsed::Failed(r2, ks),
                }
            } else {
                Parsed::Done(t1, skipped(r1))
            }
        },
        Parsed::Failed(r, ks) => Parsed::Failed(r, ks),
    }
}

/// Types separated by commas, at least one.
pub open spec fn type_list_spec(ts: Seq<Token>) -> Parsed<Seq<TypeV>>
    decreases ts.len(), 3nat,
{
    match type_spec(ts) {
        Parsed::Done(t, r1) => {
            if r1.len() < ts.len() && next_kind(r1) == Some(TokenKind::Comma) {
                proof {
                    lemma_skipped(r1);
                }
                match type_list_spec(after_next(r1)) {
                    Parsed::Done(more, r2) => Parsed::Done(seq![t] + more, r2),
                    Parsed::Failed(r2, ks) => Parsed::Failed(r2, ks),
                }
            } else {
                Parsed::Done(seq![t], skipped(r1))
            }
        },
        Parsed::Failed(r, ks) => Parsed::Failed(r, ks),
    }
}

/// `, *` repeated: the count of stars so far, `n`, plus one for each.
pub open spec fn stars_spec(ts: Seq<Token>, n: nat) -> Parsed<nat>
    decreases ts.len(),
{
    if next_kind(ts) == Some(TokenKind::Comma) {
        let r = after_next(ts);
        proof {
            lemma_skipped(ts);
            lemma_skipped(r);
        }
        if next_kind(r) == Some(TokenKind::Star) {
            stars_spec(after_next(r), n + 1)
        } else {
            Parsed::Failed(skipped(r), seq![TokenKind::Star])
        }
    } else {
        Parsed::Done(n, skipped(ts))
    }
}

/// The dimensions of an array type: `[*, *, ...]`, or one when none are
/// written.
pub open spec fn dims_spec(ts: Seq<Token>) -> Parsed<nat> {
    if next_kind(ts) == Some(TokenKind::LBracket) {
        let r = after_next(ts);
        if next_kind(r) == Some(TokenKind::Star) {
            match stars_spec(after_next(r), 1) {
                Parsed::Done(n, r2) => {
                    if next_kind(r2) == Some(TokenKind::RBracket) {
                        Parsed::Done(n, after_next(r2))
                    } else {
                        Parsed::Failed(skipped(r2), seq![TokenKind::RBracket])
                    }
                },
                Parsed::Failed(r2, ks) => Parsed::Failed(r2, ks),
            }
        } else {
            Parsed::Failed(skipped(r), seq![TokenKind::Star])
        }
    } else {
        Parsed::Done(1, skipped(ts))
    }
}

/// Any number of `ref` after the type `t`.
pub open spec fn refs_spec(t: TypeV, ts: Seq<Token>) -> Parsed<TypeV>
    decreases ts.len(),
{
    if next_kind(ts) == Some(TokenKind::Ref) {
        proof {
            lemma_skipped(ts);
        }
        refs_spec(TypeV::Ref(Box::new(t)), after_next(ts))
    } else {
        Parsed::Done(t, skipped(ts))
    }
}

/// After `(`: a type, or a tuple of types separated by commas, then `)`.
pub open spec fn paren_type_spec(ts: Seq<Token>) -> Parsed<TypeV>
    decreases ts.len(), 4nat,
{
    match type_list_spec(ts) {
        Parsed::Done(list, r1) => {
            if next_kind(r1) == Some(TokenKind::RParen) {
                Parsed::Done(tuple_or_one(list), after_next(r1))
            } else {
                Parsed::Failed(skipped(r1), seq![TokenKind::RParen])
            }
        },
        Parsed::Failed(r1, ks) => Parsed::Failed(r1, ks),
    }
}

/// After `array`: the dimensions, `of` and the type of the items.
pub open spec fn array_type_spec(ts: Seq<Token>) -> Parsed<TypeV>
    decreases ts.len(), 4nat,
{
    match dims_spec(ts) {
        Parsed::Done(n, r1) => {
            if r1.len() <= ts.len() && next_kind(r1) == Some(TokenKind::Of) {
                proof {
                    lemma_skipped(r1);
                }
                match type_helper_spec(after_next(r1)) {
                    Parsed::Done(inner, r2) => Parsed::Done(
                        TypeV::Array(Box::new(inner), ArrayDims::Known(n as u32)), r2),
                    Parsed::Failed(r2, ks) => Parsed::Failed(r2, ks),
                }
            } else {
                Parsed::Failed(skipped(r1), seq![TokenKind::Of])
            }
        },
        Parsed::Failed(r1, ks) => Parsed::Failed(r1, ks),
    }
}

/// The first part of a type without arrows: a basic type, a type or tuple
/// of types in parentheses, an array type or a type name.
pub open spec fn type_base_spec(ts: Seq<Token>) -> Parsed<TypeV>
    decreases ts.len(), 0nat,
{
    match next_kind(ts) {
        None => Parsed::Failed(skipped(ts), type_starters()),
        Some(k) => {
            let tok = skipped(ts).last();
            let r0 = after_next(ts);
            proof {
                lemma_skipped(ts);
            }
            if basic_type(k) is Some {
                Parsed::Done(basic_type(k)->0, r0)
            } else if k == TokenKind::LParen {
                paren_type_spec(r0)
            } else if k == TokenKind::Array {
                proof {
                    lemma_skipped(ts);
                }
                array_type_spec(r0)
            } else if k == TokenKind::IdLower {
                Parsed::Done(TypeV::Custom(token_text(tok)), r0)
            } else {
                Parsed::Failed(skipped(ts), type_starters())
            }
        },
    }
}

/// A type without arrows, followed by any number of `ref`.
pub open spec fn type_helper_spec(ts: Seq<Token>) -> Parsed<TypeV>
    decreases ts.len(), 1nat,
{
    match type_base_spec(ts) {
        Parsed::Done(t, r) => refs_spec(t, r),
        Parsed::Failed(r, ks) => Parsed::Failed(r, ks),
    }
}

/// The types parsed before some point, in front of what is parsed after it.
pub open spec fn prepend(vs: Seq<TypeV>, p: Parsed<Seq<TypeV>>) -> Parsed<Seq<TypeV>> {
    match p {
        Parsed::Done(more, r) => Parsed::Done(vs + more, r),
        Parsed::Failed(r, ks) => Parsed::Failed(r, ks),
    }
}


/// The kinds that can start a pattern.
pub open spec fn pattern_starters() -> Seq<TokenKind> {
    seq![
        TokenKind::Plus, TokenKind::Minus, TokenKind::CharLiteral, TokenKind::StringLiteral,
        TokenKind::IntLiteral, TokenKind::FloatLiteral, TokenKind::False, TokenKind::True,
        TokenKind::IdLower, TokenKind::LParen, TokenKind::IdUpper,
    ]
}

/// The integer a token carries, if it carries one.
pub open spec fn token_int(t: Token) -> int {
    match t.value {
        TokenValue::Int(i) => i as int,
        _ => 0,
    }
}

/// The byte a character token carries, if it carries one.
pub open spec fn token_char(t: Token) -> u8 {
    match t.value {
        TokenValue::Char(c) => c,
        _ => 0,
    }
}

/// The decimal text a float token carries, if it carries one.
pub open spec fn token_float(t: Token) -> Seq<char> {
    match t.value {
        TokenValue::Float(f) => f@,
        _ => Seq::empty(),
    }
}

/// The one pattern of a one-element list, else the tuple of the list.
pub open spec fn pattern_tuple_or_one(ps: Seq<PatternV>) -> PatternV {
    if ps.len() == 1 {
        ps[0]
    } else {
        PatternV::Tuple(ps)
    }
}

/// The patterns parsed before some point, in front of what is parsed after
/// it.
pub open spec fn prepend_patterns(vs: Seq<PatternV>, p: Parsed<Seq<PatternV>>) -> Parsed<Seq<PatternV>> {
    match p {
        Parsed::Done(more, r) => Parsed::Done(vs + more, r),
        Parsed::Failed(r, ks) => Parsed::Failed(r, ks),
    }
}

/// A pattern: a literal (an integer with its sign), a name, patterns in
/// parentheses, or a constructor with its argument patterns.
pub open spec fn pattern_spec(ts: Seq<Token>) -> Parsed<PatternV>
    decreases ts.len(), 1nat,
{
    match next_kind(ts) {
        None => Parsed::Failed(skipped(ts), pattern_starters()),
        Some(k) => {
            let tok = skipped(ts).last();
            let r0 = after_next(ts);
            proof {
                lemma_skipped(ts);
            }
            if k == TokenKind::Plus || k == TokenKind::Minus {
                if next_kind(r0) == Some(TokenKind::IntLiteral) {
                    let i = token_int(skipped(r0).last());
                    Parsed::Done(PatternV::Int(if k == TokenKind::Minus { -i } else { i }), after_next(r0))
                } else {
                    Parsed::Failed(skipped(r0), seq![TokenKind::IntLiteral])
                }
            } else if k == TokenKind::CharLiteral {
                Parsed::Done(PatternV::Char(token_char(tok)), r0)
            } else if k == TokenKind::StringLiteral {
                Parsed::Done(PatternV::Str(token_text(tok)), r0)
            } else if k == TokenKind::IntLiteral {
                Parsed::Done(PatternV::Int(token_int(tok)), r0)
            } else if k == TokenKind::FloatLiteral {
                Parsed::Done(PatternV::Float(token_float(tok)), r0)
            } else if k == TokenKind::False || k == TokenKind::True {
                Parsed::Done(PatternV::Bool(k == TokenKind::True), r0)
            } else if k == TokenKind::IdLower {
                Parsed::Done(PatternV::Name(token_text(tok)), r0)
            } else if k == TokenKind::LParen {
                paren_pattern_spec(r0)
            } else if k == TokenKind::IdUpper {
                match pattern_args_spec(r0) {
                    Parsed::Done(args, r1) => Parsed::Done(PatternV::Constr(token_text(tok), args), r1),
                    Parsed::Failed(r1, ks) => Parsed::Failed(r1, ks),
                }
            } else {
                Parsed::Failed(skipped(ts), pattern_starters())
            }
        },
    }
}

/// After `(`: a pattern, or a tuple of patterns separated by commas, then
/// `)`.
pub open spec fn paren_pattern_spec(ts: Seq<Token>) -> Parsed<PatternV>
    decreases ts.len(), 3nat,
{
    match pattern_list_spec(ts) {
        Parsed::Done(list, r1) => {
            if next_kind(r1) == Some(TokenKind::RParen) {
                Parsed::Done(pattern_tuple_or_one(list), after_next(r1))
            } else {
                Parsed::Failed(skipped(r1), seq![TokenKind::RParen])
            }
        },
        Parsed::Failed(r1, ks) => Parsed::Failed(r1, ks),
    }
}

/// Patterns separated by commas, at least one.
pub open spec fn pattern_list_spec(ts: Seq<Token>) -> Parsed<Seq<PatternV>>
    decreases ts.len(), 2nat,
{
    match pattern_spec(ts) {
        Parsed::Done(p, r1) => {
            if r1.len() < ts.len() && next_kind(r1) == Some(TokenKind::Comma) {
                proof {
                    lemma_skipped(r1);
                }
                match pattern_list_spec(after_next(r1)) {
                    Parsed::Done(more, r2) => Parsed::Done(seq![p] + more, r2),
                    Parsed::Failed(r2, ks) => Parsed::Failed(r2, ks),
                }
            } else {
                Parsed::Done(seq![p], skipped(r1))
            }
        },
        Parsed::Failed(r, ks) => Parsed::Failed(r, ks),
    }
}

/// The argument patterns of a constructor: patterns for as long as the next
/// token can start one.
pub open spec fn pattern_args_spec(ts: Seq<Token>) -> Parsed<Seq<PatternV>>
    decreases ts.len(), 2nat,
{
    if next_kind(ts) is Some && pattern_starters().contains(next_kind(ts)->0) {
        match pattern_spec(ts) {
            Parsed::Done(p, r1) => {
                if r1.len() < ts.len() {
                    match pattern_args_spec(r1) {
                        Parsed::Done(more, r2) => Parsed::Done(seq![p] + more, r2),
                        Parsed::Failed(r2, ks) => Parsed::Failed(r2, ks),
                    }
                } else {
                    Parsed::Done(seq![p], r1)
                }
            },
            Parsed::Failed(r, ks) => Parsed::Failed(r, ks),
        }
    } else {
        Parsed::Done(Seq::empty(), skipped(ts))
    }
}

} // verus!
