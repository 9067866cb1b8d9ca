use vstd::prelude::*;
use crate::lex::token::{Token, TokenKind};
use crate::pass::sem::types::TypeV;
use super::ast::expr::{UnopKind, BinopKind, unop_of, binop_of, PatternV};
use super::ast::expr::{Expr, left_assoc};
use super::ast::view::{expr_view, views, ExprV, ClauseV, LetdefV, DefV, DefKindV, ParV, DefinitionV, TDefV, ConstrV};
use super::stream::{Parsed, skipped, next_kind, after_next, lemma_skipped};
use super::grammar::{type_spec, pattern_spec, token_text, token_int, token_char, token_float};

verus! {

/// The kinds that can start a primary expression.
pub open spec fn primary_starters() -> Seq<TokenKind> {
    seq![
        TokenKind::IntLiteral, TokenKind::FloatLiteral, TokenKind::CharLiteral, TokenKind::StringLiteral,
        TokenKind::True, TokenKind::False, TokenKind::LParen, TokenKind::Dim, TokenKind::New,
        TokenKind::Begin, TokenKind::While, TokenKind::For, TokenKind::Match,
    ]
}

/// The kinds that can start an argument of a call.
pub open spec fn arg_starters() -> Seq<TokenKind> {
    seq![
        TokenKind::IdLower, TokenKind::IdUpper, TokenKind::Exclam, TokenKind::IntLiteral,
        TokenKind::FloatLiteral, TokenKind::CharLiteral, TokenKind::StringLiteral, TokenKind::True,
        TokenKind::False, TokenKind::LParen, TokenKind::Dim, TokenKind::New, TokenKind::Begin,
        TokenKind::While, TokenKind::For, TokenKind::Match,
    ]
}

/// The comparison operators, of which at most one joins two operands.
pub open spec fn is_comparison(k: TokenKind) -> bool {
    ||| k == TokenKind::Eq
    ||| k == TokenKind::LtGt
    ||| k == TokenKind::Lt
    ||| k == TokenKind::Gt
    ||| k == TokenKind::LEq
    ||| k == TokenKind::GEq
    ||| k == TokenKind::DblEq
    ||| k == TokenKind::ExclamEq
}

/// The prefix operators `+`, `-`, `not` and `delete`.
pub open spec fn is_prefix_op(k: TokenKind) -> bool {
    k == TokenKind::Plus || k == TokenKind::Minus || k == TokenKind::Not || k == TokenKind::Delete
}

/// The literal a literal token stands for.
pub open spec fn literal_value(t: Token) -> ExprV {
    if t.kind == TokenKind::IntLiteral {
        ExprV::Int(token_int(t))
    } else if t.kind == TokenKind::FloatLiteral {
        ExprV::Float(token_float(t))
    } else if t.kind == TokenKind::CharLiteral {
        ExprV::Char(token_char(t))
    } else if t.kind == TokenKind::StringLiteral {
        ExprV::Str(token_text(t))
    } else {
        ExprV::Bool(t.kind == TokenKind::True)
    }
}

/// The one expression of a one-element list, else the tuple of the list.
pub open spec fn expr_tuple_or_one(es: Seq<ExprV>) -> ExprV {
    if es.len() == 1 {
        es[0]
    } else {
        ExprV::Tuple(es)
    }
}

/// The expressions joined from the left by the operator.
pub open spec fn left_assoc_v(es: Seq<ExprV>, op: BinopKind) -> ExprV
    decreases es.len(),
{
    if es.len() <= 1 {
        es[0]
    } else {
        ExprV::Binop(Box::new(left_assoc_v(es.drop_last(), op)), op, Box::new(es.last()))
    }
}

/// A value parsed before some point, in front of the list parsed after it.
pub open spec fn cons<T>(v: T, p: Parsed<Seq<T>>) -> Parsed<Seq<T>> {
    match p {
        Parsed::Done(more, r) => Parsed::Done(seq![v] + more, r),
        Parsed::Failed(r, ks) => Parsed::Failed(r, ks),
    }
}

/// Values parsed before some point, in front of the list parsed after it.
pub open spec fn prepend_all<T>(vs: Seq<T>, p: Parsed<Seq<T>>) -> Parsed<Seq<T>> {
    match p {
        Parsed::Done(more, r) => Parsed::Done(vs + more, r),
        Parsed::Failed(r, ks) => Parsed::Failed(r, ks),
    }
}

/// The value of expressions joined from the left is the values joined
/// from the left.
pub proof fn lemma_left_assoc_view(es: Seq<Expr>, op: BinopKind)
    requires
        es.len() > 0,
    ensures
        expr_view(left_assoc(es, op)) == left_assoc_v(views(es), op),
    decreases es.len(),
{
    if es.len() > 1 {
        lemma_left_assoc_view(es.drop_last(), op);
        assert(views(es).drop_last() =~= views(es.drop_last()));
    }
}

/// An expression.
#[verifier::opaque]
pub open spec fn expr_spec(ts: Seq<Token>) -> Parsed<ExprV>
    decreases ts.len(), 30nat,
{
    expr0_spec(ts)
}

/// Expressions separated by commas, at least one.
#[verifier::opaque]
pub open spec fn expr_list_spec(ts: Seq<Token>) -> Parsed<Seq<ExprV>>
    decreases ts.len(), 40nat,
{
    match expr_spec(ts) {
        Parsed::Done(e, r1) => {
            if r1.len() < ts.len() && next_kind(r1) == Some(TokenKind::Comma) {
                proof {
                    lemma_skipped(r1);
                }
                cons(e, expr_list_spec(after_next(r1)))
            } else {
                Parsed::Done(seq![e], skipped(r1))
            }
        },
        Parsed::Failed(r, ks) => Parsed::Failed(r, ks),
    }
}

/// `let ... in` in front of an expression, any number of times.
#[verifier::opaque]
pub open spec fn expr0_spec(ts: Seq<Token>) -> Parsed<ExprV>
    decreases ts.len(), 29nat,
{
    proof {
        lemma_skipped(ts);
    }
    if next_kind(ts) == Some(TokenKind::Let) {
        match letdef_spec(after_next(ts)) {
            Parsed::Done(l, r1) => {
                if r1.len() < ts.len() && next_kind(r1) == Some(TokenKind::In) {
                    proof {
                        lemma_skipped(r1);
                    }
                    match expr0_spec(after_next(r1)) {
                        Parsed::Done(e, r2) => Parsed::Done(ExprV::LetIn(l, Box::new(e)), r2),
                        Parsed::Failed(r2, ks) => Parsed::Failed(r2, ks),
                    }
                } else {
                    Parsed::Failed(skipped(r1), seq![TokenKind::In])
                }
            },
            Parsed::Failed(r1, ks) => Parsed::Failed(r1, ks),
        }
    } else {
        expr1_spec(skipped(ts))
    }
}

/// Expressions in sequence: `e1; e2`, where what follows `;` is again a
/// whole expression.
#[verifier::opaque]
pub open spec fn expr1_spec(ts: Seq<Token>) -> Parsed<ExprV>
    decreases ts.len(), 28nat,
{
    match expr2_spec(ts) {
        Parsed::Done(l, r1) => if r1.len() < ts.len() {
            seq_tail_spec(l, r1)
        } else {
            Parsed::Done(l, r1)
        },
        Parsed::Failed(r, ks) => Parsed::Failed(r, ks),
    }
}

/// `; e` repeated after `acc`, joined from the left.
#[verifier::opaque]
pub open spec fn seq_tail_spec(acc: ExprV, ts: Seq<Token>) -> Parsed<ExprV>
    decreases ts.len(), 0nat,
{
    if next_kind(ts) == Some(TokenKind::Semicolon) {
        proof {
            lemma_skipped(ts);
        }
        match expr_spec(after_next(ts)) {
            Parsed::Done(rhs, r) => if r.len() < ts.len() {
                seq_tail_spec(ExprV::Binop(Box::new(acc), BinopKind::Semicolon, Box::new(rhs)), r)
            } else {
                Parsed::Done(acc, r)
            },
            Parsed::Failed(r, ks) => Parsed::Failed(r, ks),
        }
    } else {
        Parsed::Done(acc, skipped(ts))
    }
}

/// `if ... then ... else ...`, the `else` part optional.
#[verifier::opaque]
pub open spec fn expr2_spec(ts: Seq<Token>) -> Parsed<ExprV>
    decreases ts.len(), 27nat,
{
    proof {
        lemma_skipped(ts);
    }
    if next_kind(ts) == Some(TokenKind::If) {
        match expr_spec(after_next(ts)) {
            Parsed::Done(cond, r1) => {
                if r1.len() < ts.len() && next_kind(r1) == Some(TokenKind::Then) {
                    proof {
                        lemma_skipped(r1);
                    }
                    match expr_spec(after_next(r1)) {
                        Parsed::Done(then_body, r2) => {
                            if r2.len() < ts.len() && next_kind(r2) == Some(TokenKind::Else) {
                                proof {
                                    lemma_skipped(r2);
                                }
                                match expr_spec(after_next(r2)) {
                                    Parsed::Done(else_body, r3) => Parsed::Done(
                                        ExprV::If(Box::new(cond), Box::new(then_body), Some(Box::new(else_body))), r3),
                                    Parsed::Failed(r3, ks) => Parsed::Failed(r3, ks),
                                }
                            } else {
                                Parsed::Done(ExprV::If(Box::new(cond), Box::new(then_body), None), skipped(r2))
                            }
                        },
                        Parsed::Failed(r2, ks) => Parsed::Failed(r2, ks),
                    }
                } else {
                    Parsed::Failed(skipped(r1), seq![TokenKind::Then])
                }
            },
            Parsed::Failed(r1, ks) => Parsed::Failed(r1, ks),
        }
    } else {
        expr3_spec(skipped(ts))
    }
}

/// Assignment with `:=`, associating to the right.
#[verifier::opaque]
pub open spec fn expr3_spec(ts: Seq<Token>) -> Parsed<ExprV>
    decreases ts.len(), 26nat,
{
    match expr4_spec(ts) {
        Parsed::Done(l, r1) => {
            if r1.len() < ts.len() && next_kind(r1) == Some(TokenKind::ColonEq) {
                proof {
                    lemma_skipped(r1);
                }
                match expr3_spec(after_next(r1)) {
                    Parsed::Done(rhs, r2) => Parsed::Done(ExprV::Binop(Box::new(l), BinopKind::Assign, Box::new(rhs)), r2),
                    Parsed::Failed(r2, ks) => Parsed::Failed(r2, ks),
                }
            } else {
                Parsed::Done(l, skipped(r1))
            }
        },
        Parsed::Failed(r, ks) => Parsed::Failed(r, ks),
    }
}

/// Disjunction with `||`, associating to the left.
#[verifier::opaque]
pub open spec fn expr4_spec(ts: Seq<Token>) -> Parsed<ExprV>
    decreases ts.len(), 25nat,
{
    match or_list_spec(ts) {
        Parsed::Done(es, r) => Parsed::Done(left_assoc_v(es, BinopKind::Or), r),
        Parsed::Failed(r, ks) => Parsed::Failed(r, ks),
    }
}

/// The operands of `||`, at least one.
#[verifier::opaque]
pub open spec fn or_list_spec(ts: Seq<Token>) -> Parsed<Seq<ExprV>>
    decreases ts.len(), 24nat,
{
    match expr5_spec(ts) {
        Parsed::Done(e, r1) => {
            if r1.len() < ts.len() && next_kind(r1) == Some(TokenKind::DblBar) {
                proof {
                    lemma_skipped(r1);
                }
                cons(e, or_list_spec(after_next(r1)))
            } else {
                Parsed::Done(seq![e], skipped(r1))
            }
        },
        Parsed::Failed(r, ks) => Parsed::Failed(r, ks),
    }
}

/// Conjunction with `&&`, associating to the left.
#[verifier::opaque]
pub open spec fn expr5_spec(ts: Seq<Token>) -> Parsed<ExprV>
    decreases ts.len(), 23nat,
{
    match and_list_spec(ts) {
        Parsed::Done(es, r) => Parsed::Done(left_assoc_v(es, BinopKind::And), r),
        Parsed::Failed(r, ks) => Parsed::Failed(r, ks),
    }
}

/// The operands of `&&`, at least one.
#[verifier::opaque]
pub open spec fn and_list_spec(ts: Seq<Token>) -> Parsed<Seq<ExprV>>
    decreases ts.len(), 22nat,
{
    match expr6_spec(ts) {
        Parsed::Done(e, r1) => {
            if r1.len() < ts.len() && next_kind(r1) == Some(TokenKind::DblAmpersand) {
                proof {
                    lemma_skipped(r1);
                }
                cons(e, and_list_spec(after_next(r1)))
            } else {
                Parsed::Done(seq![e], skipped(r1))
            }
        },
        Parsed::Failed(r, ks) => Parsed::Failed(r, ks),
    }
}

/// One comparison, not chained.
#[verifier::opaque]
pub open spec fn expr6_spec(ts: Seq<Token>) -> Parsed<ExprV>
    decreases ts.len(), 21nat,
{
    match expr7_spec(ts) {
        Parsed::Done(l, r1) => {
            if r1.len() < ts.len() && next_kind(r1) is Some && is_comparison(next_kind(r1)->0) {
                proof {
                    lemma_skipped(r1);
                }
                match expr7_spec(after_next(r1)) {
                    Parsed::Done(rhs, r2) => Parsed::Done(
                        ExprV::Binop(Box::new(l), binop_of(next_kind(r1)->0)->0, Box::new(rhs)), r2),
                    Parsed::Failed(r2, ks) => Parsed::Failed(r2, ks),
                }
            } else {
                Parsed::Done(l, skipped(r1))
            }
        },
        Parsed::Failed(r, ks) => Parsed::Failed(r, ks),
    }
}

/// Addition and subtraction, associating to the left.
#[verifier::opaque]
pub open spec fn expr7_spec(ts: Seq<Token>) -> Parsed<ExprV>
    decreases ts.len(), 20nat,
{
    match expr8_spec(ts) {
        Parsed::Done(l, r1) => if r1.len() < ts.len() {
            add_tail_spec(l, r1)
        } else {
            Parsed::Done(l, r1)
        },
        Parsed::Failed(r, ks) => Parsed::Failed(r, ks),
    }
}

/// `+ e` and `- e` repeated after `acc`, joined from the left.
#[verifier::opaque]
pub open spec fn add_tail_spec(acc: ExprV, ts: Seq<Token>) -> Parsed<ExprV>
    decreases ts.len(), 0nat,
{
    let k = next_kind(ts);
    if k == Some(TokenKind::Plus) || k == Some(TokenKind::Minus) {
        proof {
            lemma_skipped(ts);
        }
        match expr8_spec(after_next(ts)) {
            Parsed::Done(rhs, r) => if r.len() < ts.len() {
                add_tail_spec(ExprV::Binop(Box::new(acc), binop_of(k->0)->0, Box::new(rhs)), r)
            } else {
                Parsed::Done(acc, r)
            },
            Parsed::Failed(r, ks) => Parsed::Failed(r, ks),
        }
    } else {
        Parsed::Done(acc, skipped(ts))
    }
}

/// Multiplication, division and `mod`, associating to the left.
#[verifier::opaque]
pub open spec fn expr8_spec(ts: Seq<Token>) -> Parsed<ExprV>
    decreases ts.len(), 19nat,
{
    match expr9_spec(ts) {
        Parsed::Done(l, r1) => if r1.len() < ts.len() {
            mul_tail_spec(l, r1)
        } else {
            Parsed::Done(l, r1)
        },
        Parsed::Failed(r, ks) => Parsed::Failed(r, ks),
    }
}

/// `* e`, `/ e` and `mod e` repeated after `acc`, joined from the left.
#[verifier::opaque]
pub open spec fn mul_tail_spec(acc: ExprV, ts: Seq<Token>) -> Parsed<ExprV>
    decreases ts.len(), 0nat,
{
    let k = next_kind(ts);
    if k == Some(TokenKind::Star) || k == Some(TokenKind::Slash) || k == Some(TokenKind::Mod) {
        proof {
            lemma_skipped(ts);
        }
        match expr9_spec(after_next(ts)) {
            Parsed::Done(rhs, r) => if r.len() < ts.len() {
                mul_tail_spec(ExprV::Binop(Box::new(acc), binop_of(k->0)->0, Box::new(rhs)), r)
            } else {
                Parsed::Done(acc, r)
            },
            Parsed::Failed(r, ks) => Parsed::Failed(r, ks),
        }
    } else {
        Parsed::Done(acc, skipped(ts))
    }
}

/// Exponentiation with `**`, associating to the right.
#[verifier::opaque]
pub open spec fn expr9_spec(ts: Seq<Token>) -> Parsed<ExprV>
    decreases ts.len(), 18nat,
{
    match expr10_spec(ts) {
        Parsed::Done(l, r1) => {
            if r1.len() < ts.len() && next_kind(r1) == Some(TokenKind::DblStar) {
                proof {
                    lemma_skipped(r1);
                }
                match expr9_spec(after_next(r1)) {
                    Parsed::Done(rhs, r2) => Parsed::Done(ExprV::Binop(Box::new(l), BinopKind::Pow, Box::new(rhs)), r2),
                    Parsed::Failed(r2, ks) => Parsed::Failed(r2, ks),
                }
            } else {
                Parsed::Done(l, skipped(r1))
            }
        },
        Parsed::Failed(r, ks) => Parsed::Failed(r, ks),
    }
}

/// Prefix `+`, `-`, `not` and `delete`, any number of them.
#[verifier::opaque]
pub open spec fn expr10_spec(ts: Seq<Token>) -> Parsed<ExprV>
    decreases ts.len(), 17nat,
{
    proof {
        lemma_skipped(ts);
    }
    if next_kind(ts) is Some && is_prefix_op(next_kind(ts)->0) {
        match expr10_spec(after_next(ts)) {
            Parsed::Done(e, r) => Parsed::Done(ExprV::Unop(unop_of(next_kind(ts)->0)->0, Box::new(e)), r),
            Parsed::Failed(r, ks) => Parsed::Failed(r, ks),
        }
    } else {
        expr11_spec(skipped(ts))
    }
}

/// Dereferences with `!`, array accesses, calls and constructor calls.
#[verifier::opaque]
pub open spec fn expr11_spec(ts: Seq<Token>) -> Parsed<ExprV>
    decreases ts.len(), 16nat,
{
    proof {
        lemma_skipped(ts);
    }
    let k = next_kind(ts);
    if k == Some(TokenKind::Exclam) {
        match deref_tail_spec(after_next(ts)) {
            Parsed::Done(e, r) => Parsed::Done(ExprV::Unop(UnopKind::Deref, Box::new(e)), r),
            Parsed::Failed(r, ks) => Parsed::Failed(r, ks),
        }
    } else if k == Some(TokenKind::IdLower) {
        let id = token_text(skipped(ts).last());
        let r0 = after_next(ts);
        proof {
            lemma_skipped(r0);
        }
        if next_kind(r0) == Some(TokenKind::LBracket) {
            array_access_spec(id, after_next(r0))
        } else {
            match call_args_spec(skipped(r0)) {
                Parsed::Done(args, r) => Parsed::Done(ExprV::Call(id, args), r),
                Parsed::Failed(r, ks) => Parsed::Failed(r, ks),
            }
        }
    } else if k == Some(TokenKind::IdUpper) {
        let id = token_text(skipped(ts).last());
        match call_args_spec(after_next(ts)) {
            Parsed::Done(args, r) => Parsed::Done(ExprV::ConstrCall(id, args), r),
            Parsed::Failed(r, ks) => Parsed::Failed(r, ks),
        }
    } else {
        expr_primary_spec(skipped(ts))
    }
}

/// What follows a `!`: more `!`, then a name, an array access or a primary
/// expression.
#[verifier::opaque]
pub open spec fn deref_tail_spec(ts: Seq<Token>) -> Parsed<ExprV>
    decreases ts.len(), 12nat,
{
    proof {
        lemma_skipped(ts);
    }
    if next_kind(ts) == Some(TokenKind::Exclam) {
        match deref_tail_spec(after_next(ts)) {
            Parsed::Done(e, r) => Parsed::Done(ExprV::Unop(UnopKind::Deref, Box::new(e)), r),
            Parsed::Failed(r, ks) => Parsed::Failed(r, ks),
        }
    } else {
        deref_operand_spec(skipped(ts))
    }
}

/// The operand of the last `!`: a name, an array access, or a primary
/// expression.
#[verifier::opaque]
pub open spec fn deref_operand_spec(ts: Seq<Token>) -> Parsed<ExprV>
    decreases ts.len(), 11nat,
{
    proof {
        lemma_skipped(ts);
    }
    if next_kind(ts) == Some(TokenKind::IdLower) {
        let id = token_text(skipped(ts).last());
        let r0 = after_next(ts);
        proof {
            lemma_skipped(r0);
        }
        if next_kind(r0) == Some(TokenKind::LBracket) {
            array_access_spec(id, after_next(r0))
        } else {
            Parsed::Done(ExprV::Call(id, Seq::empty()), skipped(r0))
        }
    } else {
        expr_primary_spec(skipped(ts))
    }
}

/// The indexes of an access to the array `id`, after `[`, then `]`.
#[verifier::opaque]
pub open spec fn array_access_spec(id: Seq<char>, ts: Seq<Token>) -> Parsed<ExprV>
    decreases ts.len(), 41nat,
{
    match expr_list_spec(ts) {
        Parsed::Done(indexes, r) => {
            if next_kind(r) == Some(TokenKind::RBracket) {
                Parsed::Done(ExprV::ArrayAccess(id, indexes), after_next(r))
            } else {
                Parsed::Failed(skipped(r), seq![TokenKind::RBracket])
            }
        },
        Parsed::Failed(r, ks) => Parsed::Failed(r, ks),
    }
}

/// The arguments of a call: arguments for as long as the next token can
/// start one.
#[verifier::opaque]
pub open spec fn call_args_spec(ts: Seq<Token>) -> Parsed<Seq<ExprV>>
    decreases ts.len(), 31nat,
{
    if next_kind(ts) is Some && arg_starters().contains(next_kind(ts)->0) {
        proof {
            lemma_skipped(ts);
        }
        match expr11_spec(skipped(ts)) {
            Parsed::Done(e, r1) => {
                if r1.len() < ts.len() {
                    cons(e, call_args_spec(r1))
                } else {
                    Parsed::Done(seq![e], r1)
                }
            },
            Parsed::Failed(r, ks) => Parsed::Failed(r, ks),
        }
    } else {
        Parsed::Done(Seq::empty(), skipped(ts))
    }
}

/// A literal, a parenthesised expression or tuple, `dim`, `new`,
/// `begin ... end`, a loop or a `match`.
#[verifier::opaque]
pub open spec fn expr_primary_spec(ts: Seq<Token>) -> Parsed<ExprV>
    decreases ts.len(), 10nat,
{
    match next_kind(ts) {
        None => Parsed::Failed(skipped(ts), primary_starters()),
        Some(k) => {
            let tok = skipped(ts).last();
            let r0 = after_next(ts);
            proof {
                lemma_skipped(ts);
                lemma_skipped(r0);
            }
            if k == TokenKind::IntLiteral || k == TokenKind::FloatLiteral || k == TokenKind::CharLiteral
                || k == TokenKind::StringLiteral || k == TokenKind::True || k == TokenKind::False {
                Parsed::Done(literal_value(tok), r0)
            } else if k == TokenKind::LParen {
                if next_kind(r0) == Some(TokenKind::RParen) {
                    Parsed::Done(ExprV::Unit, after_next(r0))
                } else {
                    match expr_list_spec(skipped(r0)) {
                        Parsed::Done(es, r1) => {
                            if next_kind(r1) == Some(TokenKind::RParen) {
                                Parsed::Done(expr_tuple_or_one(es), after_next(r1))
                            } else {
                                Parsed::Failed(skipped(r1), seq![TokenKind::RParen])
                            }
                        },
                        Parsed::Failed(r1, ks) => Parsed::Failed(r1, ks),
                    }
                }
            } else if k == TokenKind::Dim {
                let has_dim = next_kind(r0) == Some(TokenKind::IntLiteral);
                let dim = if has_dim { token_int(skipped(r0).last()) } else { 1 };
                let r1 = if has_dim { after_next(r0) } else { skipped(r0) };
                if next_kind(r1) == Some(TokenKind::IdLower) {
                    Parsed::Done(ExprV::Dim(token_text(skipped(r1).last()), dim), after_next(r1))
                } else {
                    Parsed::Failed(skipped(r1), seq![TokenKind::IdLower])
                }
            } else if k == TokenKind::New {
                match type_spec(r0) {
                    Parsed::Done(t, r1) => Parsed::Done(ExprV::New(t), r1),
                    Parsed::Failed(r1, ks) => Parsed::Failed(r1, ks),
                }
            } else if k == TokenKind::Begin {
                match expr_spec(r0) {
                    Parsed::Done(e, r1) => {
                        if next_kind(r1) == Some(TokenKind::End) {
                            Parsed::Done(e, after_next(r1))
                        } else {
                            Parsed::Failed(skipped(r1), seq![TokenKind::End])
                        }
                    },
                    Parsed::Failed(r1, ks) => Parsed::Failed(r1, ks),
                }
            } else if k == TokenKind::While {
                while_spec(r0)
            } else if k == TokenKind::For {
                for_spec(r0)
            } else if k == TokenKind::Match {
                match_spec(r0)
            } else {
                Parsed::Failed(skipped(ts), primary_starters())
            }
        },
    }
}

/// After `while`: the condition, `do`, the body and `done`.
#[verifier::opaque]
pub open spec fn while_spec(ts: Seq<Token>) -> Parsed<ExprV>
    decreases ts.len(), 45nat,
{
    match expr_spec(ts) {
        Parsed::Done(cond, r1) => {
            if r1.len() < ts.len() && next_kind(r1) == Some(TokenKind::Do) {
                proof {
                    lemma_skipped(r1);
                }
                match expr_spec(after_next(r1)) {
                    Parsed::Done(body, r2) => {
                        if next_kind(r2) == Some(TokenKind::Done) {
                            Parsed::Done(ExprV::While(Box::new(cond), Box::new(body)), after_next(r2))
                        } else {
                            Parsed::Failed(skipped(r2), seq![TokenKind::Done])
                        }
                    },
                    Parsed::Failed(r2, ks) => Parsed::Failed(r2, ks),
                }
            } else {
                Parsed::Failed(skipped(r1), seq![TokenKind::Do])
            }
        },
        Parsed::Failed(r1, ks) => Parsed::Failed(r1, ks),
    }
}

/// After `for`: the name, `=`, the first bound, `to` or `downto`, the
/// second bound, `do`, the body and `done`.
#[verifier::opaque]
pub open spec fn for_spec(ts: Seq<Token>) -> Parsed<ExprV>
    decreases ts.len(), 45nat,
{
    proof {
        lemma_skipped(ts);
    }
    if next_kind(ts) == Some(TokenKind::IdLower) {
        let id = token_text(skipped(ts).last());
        let r0 = after_next(ts);
        proof {
            lemma_skipped(r0);
        }
        if next_kind(r0) == Some(TokenKind::Eq) {
            match expr_spec(after_next(r0)) {
                Parsed::Done(from, r1) => {
                    let d = next_kind(r1);
                    if r1.len() < ts.len() && (d == Some(TokenKind::To) || d == Some(TokenKind::Downto)) {
                        proof {
                            lemma_skipped(r1);
                        }
                        match expr_spec(after_next(r1)) {
                            Parsed::Done(to, r2) => {
                                if r2.len() < ts.len() && next_kind(r2) == Some(TokenKind::Do) {
                                    proof {
                                        lemma_skipped(r2);
                                    }
                                    match expr_spec(after_next(r2)) {
                                        Parsed::Done(body, r3) => {
                                            if next_kind(r3) == Some(TokenKind::Done) {
                                                Parsed::Done(ExprV::For(id, Box::new(from), d == Some(TokenKind::To),
                                                    Box::new(to), Box::new(body)), after_next(r3))
                                            } else {
                                                Parsed::Failed(skipped(r3), seq![TokenKind::Done])
                                            }
                                        },
                                        Parsed::Failed(r3, ks) => Parsed::Failed(r3, ks),
                                    }
                                } else {
                                    Parsed::Failed(skipped(r2), seq![TokenKind::Do])
                                }
                            },
                            Parsed::Failed(r2, ks) => Parsed::Failed(r2, ks),
                        }
                    } else {
                        Parsed::Failed(skipped(r1), seq![TokenKind::To, TokenKind::Downto])
                    }
                },
                Parsed::Failed(r1, ks) => Parsed::Failed(r1, ks),
            }
        } else {
            Parsed::Failed(skipped(r0), seq![TokenKind::Eq])
        }
    } else {
        Parsed::Failed(skipped(ts), seq![TokenKind::IdLower])
    }
}

/// After `match`: the expression, `with`, the clauses separated by `|`,
/// and `end`.
#[verifier::opaque]
pub open spec fn match_spec(ts: Seq<Token>) -> Parsed<ExprV>
    decreases ts.len(), 45nat,
{
    match expr_spec(ts) {
        Parsed::Done(e, r1) => {
            if r1.len() < ts.len() && next_kind(r1) == Some(TokenKind::With) {
                proof {
                    lemma_skipped(r1);
                }
                match clause_list_spec(after_next(r1)) {
                    Parsed::Done(cs, r2) => {
                        if next_kind(r2) == Some(TokenKind::End) {
                            Parsed::Done(ExprV::Match(Box::new(e), cs), after_next(r2))
                        } else {
                            Parsed::Failed(skipped(r2), seq![TokenKind::End])
                        }
                    },
                    Parsed::Failed(r2, ks) => Parsed::Failed(r2, ks),
                }
            } else {
                Parsed::Failed(skipped(r1), seq![TokenKind::With])
            }
        },
        Parsed::Failed(r1, ks) => Parsed::Failed(r1, ks),
    }
}

/// Clauses separated by `|`, at least one.
#[verifier::opaque]
pub open spec fn clause_list_spec(ts: Seq<Token>) -> Parsed<Seq<ClauseV>>
    decreases ts.len(), 3nat,
{
    match clause_spec(ts) {
        Parsed::Done(c, r1) => {
            if r1.len() < ts.len() && next_kind(r1) == Some(TokenKind::Bar) {
                proof {
                    lemma_skipped(r1);
                }
                cons(c, clause_list_spec(after_next(r1)))
            } else {
                Parsed::Done(seq![c], skipped(r1))
            }
        },
        Parsed::Failed(r, ks) => Parsed::Failed(r, ks),
    }
}

/// A clause: a pattern, `->` and an expression.
#[verifier::opaque]
pub open spec fn clause_spec(ts: Seq<Token>) -> Parsed<ClauseV>
    decreases ts.len(), 2nat,
{
    match pattern_spec(ts) {
        Parsed::Done(p, r1) => {
            if r1.len() < ts.len() && next_kind(r1) == Some(TokenKind::Arrow) {
                proof {
                    lemma_skipped(r1);
                }
                match expr_spec(after_next(r1)) {
                    Parsed::Done(e, r2) => Parsed::Done(ClauseV { pattern: p, expr: e }, r2),
                    Parsed::Failed(r2, ks) => Parsed::Failed(r2, ks),
                }
            } else {
                Parsed::Failed(skipped(r1), seq![TokenKind::Arrow])
            }
        },
        Parsed::Failed(r, ks) => Parsed::Failed(r, ks),
    }
}

/// After `let`: `rec` if written, then definitions separated by `and`.
#[verifier::opaque]
pub open spec fn letdef_spec(ts: Seq<Token>) -> Parsed<LetdefV>
    decreases ts.len(), 3nat,
{
    proof {
        lemma_skipped(ts);
    }
    let rec = next_kind(ts) == Some(TokenKind::Rec);
    let r0 = if rec { after_next(ts) } else { skipped(ts) };
    match defs_spec(r0) {
        Parsed::Done(defs, r) => Parsed::Done(LetdefV { rec, defs }, r),
        Parsed::Failed(r, ks) => Parsed::Failed(r, ks),
    }
}

/// Definitions separated by `and`, at least one.
#[verifier::opaque]
pub open spec fn defs_spec(ts: Seq<Token>) -> Parsed<Seq<DefV>>
    decreases ts.len(), 2nat,
{
    match def_spec(ts) {
        Parsed::Done(d, r1) => {
            if r1.len() < ts.len() && next_kind(r1) == Some(TokenKind::And) {
                proof {
                    lemma_skipped(r1);
                }
                cons(d, defs_spec(after_next(r1)))
            } else {
                Parsed::Done(seq![d], skipped(r1))
            }
        },
        Parsed::Failed(r, ks) => Parsed::Failed(r, ks),
    }
}

/// A type after `:`, if there is a `:`.
#[verifier::opaque]
pub open spec fn annotation_spec(ts: Seq<Token>) -> Parsed<Option<TypeV>> {
    if next_kind(ts) == Some(TokenKind::Colon) {
        match type_spec(after_next(ts)) {
            Parsed::Done(t, r) => Parsed::Done(Some(t), r),
            Parsed::Failed(r, ks) => Parsed::Failed(r, ks),
        }
    } else {
        Parsed::Done(None, skipped(ts))
    }
}

/// The parameters of a function: parameters for as long as the next token
/// is a name or `(`.
#[verifier::opaque]
pub open spec fn pars_spec(ts: Seq<Token>) -> Parsed<Seq<ParV>>
    decreases ts.len(),
{
    let k = next_kind(ts);
    if k == Some(TokenKind::IdLower) || k == Some(TokenKind::LParen) {
        proof {
            lemma_skipped(ts);
        }
        match par_spec(skipped(ts)) {
            Parsed::Done(p, r1) => {
                if r1.len() < ts.len() {
                    cons(p, pars_spec(r1))
                } else {
                    Parsed::Done(seq![p], r1)
                }
            },
            Parsed::Failed(r, ks) => Parsed::Failed(r, ks),
        }
    } else {
        Parsed::Done(Seq::empty(), skipped(ts))
    }
}

/// A parameter: a name, or `(name : type)`.
#[verifier::opaque]
pub open spec fn par_spec(ts: Seq<Token>) -> Parsed<ParV> {
    let k = next_kind(ts);
    let r0 = after_next(ts);
    if k == Some(TokenKind::IdLower) {
        Parsed::Done(ParV { id: token_text(skipped(ts).last()), type_: None }, r0)
    } else if k == Some(TokenKind::LParen) {
        if next_kind(r0) == Some(TokenKind::IdLower) {
            let id = token_text(skipped(r0).last());
            let r1 = after_next(r0);
            if next_kind(r1) == Some(TokenKind::Colon) {
                match type_spec(after_next(r1)) {
                    Parsed::Done(t, r2) => {
                        if next_kind(r2) == Some(TokenKind::RParen) {
                            Parsed::Done(ParV { id, type_: Some(t) }, after_next(r2))
                        } else {
                            Parsed::Failed(skipped(r2), seq![TokenKind::RParen])
                        }
                    },
                    Parsed::Failed(r2, ks) => Parsed::Failed(r2, ks),
                }
            } else {
                Parsed::Failed(skipped(r1), seq![TokenKind::Colon])
            }
        } else {
            Parsed::Failed(skipped(r0), seq![TokenKind::IdLower])
        }
    } else {
        Parsed::Failed(skipped(ts), seq![TokenKind::IdLower, TokenKind::LParen])
    }
}

/// The sizes of a mutable array, `[e1, e2, ...]`, if there is a `[`.
#[verifier::opaque]
pub open spec fn sizes_spec(ts: Seq<Token>) -> Parsed<Seq<ExprV>>
    decreases ts.len(), 50nat,
{
    if next_kind(ts) == Some(TokenKind::LBracket) {
        proof {
            lemma_skipped(ts);
        }
        match expr_list_spec(after_next(ts)) {
            Parsed::Done(es, r) => {
                if next_kind(r) == Some(TokenKind::RBracket) {
                    Parsed::Done(es, after_next(r))
                } else {
                    Parsed::Failed(skipped(r), seq![TokenKind::RBracket])
                }
            },
            Parsed::Failed(r, ks) => Parsed::Failed(r, ks),
        }
    } else {
        Parsed::Done(Seq::empty(), skipped(ts))
    }
}

/// A definition: `name pars [: type] = expr`, or `mutable name [sizes]
/// [: type]`.
#[verifier::opaque]
pub open spec fn def_spec(ts: Seq<Token>) -> Parsed<DefV>
    decreases ts.len(), 1nat,
{
    proof {
        lemma_skipped(ts);
    }
    let k = next_kind(ts);
    let r0 = after_next(ts);
    if k == Some(TokenKind::IdLower) {
        let id = token_text(skipped(ts).last());
        match pars_spec(r0) {
            Parsed::Done(pars, r1) => match annotation_spec(r1) {
                Parsed::Done(type_, r2) => {
                    if r2.len() < ts.len() && next_kind(r2) == Some(TokenKind::Eq) {
                        proof {
                            lemma_skipped(r2);
                        }
                        match expr_spec(after_next(r2)) {
                            Parsed::Done(e, r3) => Parsed::Done(DefV {
                                id,
                                type_,
                                kind: if pars.len() == 0 { DefKindV::Const(e) } else { DefKindV::Function(pars, e) },
                            }, r3),
                            Parsed::Failed(r3, ks) => Parsed::Failed(r3, ks),
                        }
                    } else {
                        Parsed::Failed(skipped(r2), seq![TokenKind::Eq])
                    }
                },
                Parsed::Failed(r2, ks) => Parsed::Failed(r2, ks),
            },
            Parsed::Failed(r1, ks) => Parsed::Failed(r1, ks),
        }
    } else if k == Some(TokenKind::Mutable) {
        proof {
            lemma_skipped(r0);
        }
        if next_kind(r0) == Some(TokenKind::IdLower) {
            let id = token_text(skipped(r0).last());
            match sizes_spec(after_next(r0)) {
                Parsed::Done(sizes, r2) => match annotation_spec(r2) {
                    Parsed::Done(type_, r3) => Parsed::Done(DefV {
                        id,
                        type_: match type_ {
                            Some(t) => Some(TypeV::Ref(Box::new(t))),
                            None => None,
                        },
                        kind: if sizes.len() == 0 { DefKindV::Variable } else { DefKindV::Array(sizes) },
                    }, r3),
                    Parsed::Failed(r3, ks) => Parsed::Failed(r3, ks),
                },
                Parsed::Failed(r2, ks) => Parsed::Failed(r2, ks),
            }
        } else {
            Parsed::Failed(skipped(r0), seq![TokenKind::IdLower])
        }
    } else {
        Parsed::Failed(skipped(ts), seq![TokenKind::IdLower, TokenKind::Mutable])
    }
}

/// The definitions of a program, up to the end of the input.
#[verifier::opaque]
pub open spec fn program_spec(ts: Seq<Token>) -> Parsed<Seq<DefinitionV>>
    decreases ts.len(),
{
    proof {
        lemma_skipped(ts);
    }
    let k = next_kind(ts);
    if k == Some(TokenKind::EOF) {
        Parsed::Done(Seq::empty(), after_next(ts))
    } else if k == Some(TokenKind::Let) {
        match letdef_spec(after_next(ts)) {
            Parsed::Done(l, r) => if r.len() < skipped(ts).len() {
                cons(DefinitionV::Let(l), program_spec(r))
            } else {
                Parsed::Done(seq![DefinitionV::Let(l)], r)
            },
            Parsed::Failed(r, ks) => Parsed::Failed(r, ks),
        }
    } else if k == Some(TokenKind::Type) {
        match typedef_spec(after_next(ts)) {
            Parsed::Done(t, r) => if r.len() < skipped(ts).len() {
                cons(DefinitionV::Type(t), program_spec(r))
            } else {
                Parsed::Done(seq![DefinitionV::Type(t)], r)
            },
            Parsed::Failed(r, ks) => Parsed::Failed(r, ks),
        }
    } else {
        Parsed::Failed(skipped(ts), seq![TokenKind::Let, TokenKind::Type])
    }
}

/// After `type`: type definitions separated by `and`, at least one.
#[verifier::opaque]
pub open spec fn typedef_spec(ts: Seq<Token>) -> Parsed<Seq<TDefV>>
    decreases ts.len(),
{
    match tdef_spec(ts) {
        Parsed::Done(t, r1) => {
            if r1.len() < ts.len() && next_kind(r1) == Some(TokenKind::And) {
                proof {
                    lemma_skipped(r1);
                }
                cons(t, typedef_spec(after_next(r1)))
            } else {
                Parsed::Done(seq![t], skipped(r1))
            }
        },
        Parsed::Failed(r, ks) => Parsed::Failed(r, ks),
    }
}

/// A type definition: a name, `=` and constructors separated by `|`.
#[verifier::opaque]
pub open spec fn tdef_spec(ts: Seq<Token>) -> Parsed<TDefV> {
    if next_kind(ts) == Some(TokenKind::IdLower) {
        let id = token_text(skipped(ts).last());
        let r0 = after_next(ts);
        if next_kind(r0) == Some(TokenKind::Eq) {
            match constrs_spec(after_next(r0)) {
                Parsed::Done(cs, r) => Parsed::Done(TDefV { id, constrs: cs }, r),
                Parsed::Failed(r, ks) => Parsed::Failed(r, ks),
            }
        } else {
            Parsed::Failed(skipped(r0), seq![TokenKind::Eq])
        }
    } else {
        Parsed::Failed(skipped(ts), seq![TokenKind::IdLower])
    }
}

/// Constructors separated by `|`, at least one.
#[verifier::opaque]
pub open spec fn constrs_spec(ts: Seq<Token>) -> Parsed<Seq<ConstrV>>
    decreases ts.len(),
{
    match constr_spec(ts) {
        Parsed::Done(c, r1) => {
            if r1.len() < ts.len() && next_kind(r1) == Some(TokenKind::Bar) {
                proof {
                    lemma_skipped(r1);
                }
                cons(c, constrs_spec(after_next(r1)))
            } else {
                Parsed::Done(seq![c], skipped(r1))
            }
        },
        Parsed::Failed(r, ks) => Parsed::Failed(r, ks),
    }
}

/// Whether a token kind ends the types of a constructor.
pub open spec fn ends_constr(k: Option<TokenKind>) -> bool {
    ||| k is None
    ||| k == Some(TokenKind::Bar)
    ||| k == Some(TokenKind::And)
    ||| k == Some(TokenKind::Let)
    ||| k == Some(TokenKind::Type)
    ||| k == Some(TokenKind::EOF)
}

/// A constructor: its name, and after `of` the types of its arguments.
#[verifier::opaque]
pub open spec fn constr_spec(ts: Seq<Token>) -> Parsed<ConstrV> {
    if next_kind(ts) == Some(TokenKind::IdUpper) {
        let id = token_text(skipped(ts).last());
        let r0 = after_next(ts);
        if next_kind(r0) == Some(TokenKind::Of) {
            match constr_types_spec(after_next(r0)) {
                Parsed::Done(types, r) => Parsed::Done(ConstrV { id, types }, r),
                Parsed::Failed(r, ks) => Parsed::Failed(r, ks),
            }
        } else {
            Parsed::Done(ConstrV { id, types: Seq::empty() }, skipped(r0))
        }
    } else {
        Parsed::Failed(skipped(ts), seq![TokenKind::IdUpper])
    }
}

/// The types of a constructor's arguments: at least one, up to what ends a
/// constructor.
#[verifier::opaque]
pub open spec fn constr_types_spec(ts: Seq<Token>) -> Parsed<Seq<TypeV>>
    decreases ts.len(),
{
    match type_spec(ts) {
        Parsed::Done(t, r1) => {
            if ends_constr(next_kind(r1)) || skipped(r1).len() >= ts.len() {
                Parsed::Done(seq![t], skipped(r1))
            } else {
                cons(t, constr_types_spec(skipped(r1)))
            }
        },
        Parsed::Failed(r, ks) => Parsed::Failed(r, ks),
    }
}

} // verus!
