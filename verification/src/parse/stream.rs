use vstd::prelude::*;
use crate::lex::token::{Token, TokenKind, TokenValue};

verus! {

/// A token carries the value its kind calls for.
pub open spec fn token_ok(t: Token) -> bool {
    &&& (t.kind == TokenKind::IdLower || t.kind == TokenKind::IdUpper || t.kind == TokenKind::StringLiteral)
        ==> t.value is String
    &&& t.kind == TokenKind::IntLiteral ==> (t.value matches TokenValue::Int(i) && i >= 0)
    &&& t.kind == TokenKind::FloatLiteral ==> t.value is Float
    &&& t.kind == TokenKind::CharLiteral ==> t.value is Char
}

pub open spec fn tokens_ok(ts: Seq<Token>) -> bool {
    forall|i: int| 0 <= i < ts.len() ==> #[trigger] token_ok(ts[i])
}

/// `after` is what is left of `before` once some tokens were taken from
/// its end (the tokens left are kept last-first).
pub open spec fn advanced(before: Seq<Token>, after: Seq<Token>) -> bool {
    after.len() <= before.len() && after == before.take(after.len() as int)
}

pub broadcast proof fn lemma_advanced_trans(a: Seq<Token>, b: Seq<Token>, c: Seq<Token>)
    requires
        #[trigger] advanced(a, b),
        #[trigger] advanced(b, c),
    ensures
        advanced(a, c),
{
    assert(c =~= a.take(c.len() as int));
}

pub broadcast proof fn lemma_advanced_refl(a: Seq<Token>)
    ensures
        #[trigger] advanced(a, a),
{
    assert(a =~= a.take(a.len() as int));
}

pub broadcast proof fn lemma_advanced_ok(a: Seq<Token>, b: Seq<Token>)
    requires
        #[trigger] advanced(a, b),
        #[trigger] tokens_ok(a),
    ensures
        tokens_ok(b),
{
    assert forall|i: int| 0 <= i < b.len() implies #[trigger] token_ok(b[i]) by {
        assert(b[i] == a[i]);
    }
}


/// What is left of the tokens once the comments in front are dropped.
pub open spec fn skipped(ts: Seq<Token>) -> Seq<Token>
    decreases ts.len(),
{
    if ts.len() > 0 && ts.last().kind == TokenKind::COMMENT {
        skipped(ts.drop_last())
    } else {
        ts
    }
}

/// The kind of the next token that is no comment, if any.
pub open spec fn next_kind(ts: Seq<Token>) -> Option<TokenKind> {
    if skipped(ts).len() == 0 {
        None
    } else {
        Some(skipped(ts).last().kind)
    }
}

/// What is left once the next token that is no comment is taken.
pub open spec fn after_next(ts: Seq<Token>) -> Seq<Token> {
    skipped(ts).drop_last()
}

/// The outcome of parsing from some tokens: what was built and the tokens
/// left, or the tokens left where it stopped and the kinds that would have
/// fitted there.
pub enum Parsed<T> {
    Done(T, Seq<Token>),
    Failed(Seq<Token>, Seq<TokenKind>),
}

pub proof fn lemma_skipped(ts: Seq<Token>)
    ensures
        advanced(ts, skipped(ts)),
        skipped(ts).len() == 0 || skipped(ts).last().kind != TokenKind::COMMENT,
        skipped(skipped(ts)) == skipped(ts),
        next_kind(skipped(ts)) == next_kind(ts),
        after_next(skipped(ts)) == after_next(ts),
        skipped(ts).len() <= ts.len(),
        after_next(ts).len() < ts.len() || next_kind(ts) is None,
        next_kind(ts) is Some ==> advanced(ts, after_next(ts)),
    decreases ts.len(),
{
    if ts.len() > 0 && ts.last().kind == TokenKind::COMMENT {
        lemma_skipped(ts.drop_last());
        assert(ts.drop_last() =~= ts.take(ts.len() - 1));
        lemma_advanced_trans(ts, ts.drop_last(), skipped(ts));
        if next_kind(ts) is Some {
            lemma_advanced_trans(ts, ts.drop_last(), after_next(ts));
        }
    } else {
        lemma_advanced_refl(ts);
        if ts.len() > 0 {
            assert(ts.drop_last() =~= ts.take(ts.len() - 1));
        }
    }
}

} // verus!
