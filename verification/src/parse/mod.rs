pub mod ast;
pub mod stream;
pub mod grammar;
pub mod expr_grammar;

use vstd::prelude::*;
use crate::lex::token::{Token, TokenKind, TokenValue, kind_text, position_text};
use crate::text::string_push_str;
use self::ast::expr::unop_of;
use self::ast::Span;
use self::ast::annotation::{TypeAnnotation, annotated_type, annotated_types, lemma_annotated_types, lemma_annotated_types_push};
use self::grammar::{
    type_spec, type_helper_spec, type_base_spec, type_list_spec, stars_spec, dims_spec, refs_spec, prepend,
    paren_type_spec, array_type_spec, pattern_spec, paren_pattern_spec, pattern_list_spec, pattern_args_spec,
    prepend_patterns, pattern_starters, token_text,
};
use crate::pass::sem::types::TypeV;
use self::ast::expr::{
    Pattern, PatternKind, PatternV, pattern_views, lemma_pattern_views, lemma_pattern_views_push, Expr, ExprKind, Unop, UnopKind, Binop, BinopKind, Call, ArrayAccess, Dim, LetIn,
    If, While, For, Match, Clause,
};
use self::ast::def::{Definition, Letdef, Def, DefKind, Par, Typedef, TDef, Constr};
use self::ast::view::{
    ExprV, DefV, ParV, ClauseV, TDefV, ConstrV, DefinitionV, views, lemma_views_push, expr_views, opt_type_view,
    typedef_view, lemma_expr_views, lemma_expr_views_eq, lemma_def_views_eq, lemma_clause_views_eq, lemma_par_views_eq,
    lemma_tdef_views_eq, lemma_constr_views_eq,
};
use self::expr_grammar::{
    arg_starters, literal_value, cons, prepend_all, lemma_left_assoc_view, expr_spec, expr_list_spec,
    expr0_spec, expr1_spec, seq_tail_spec, expr2_spec, expr3_spec, expr4_spec, or_list_spec, expr5_spec,
    and_list_spec, expr6_spec, expr7_spec, add_tail_spec, expr8_spec, mul_tail_spec, expr9_spec, expr10_spec,
    expr11_spec, deref_tail_spec, deref_operand_spec, array_access_spec, call_args_spec, expr_primary_spec,
    while_spec, for_spec, match_spec, clause_list_spec, clause_spec, letdef_spec, defs_spec, annotation_spec,
    pars_spec, par_spec, sizes_spec, def_spec, program_spec, typedef_spec, tdef_spec, constrs_spec,
    constr_spec, constr_types_spec,
};
use self::ast::Program;
use crate::lex::token::Position;
use self::stream::{
    token_ok, tokens_ok, advanced, lemma_advanced_trans, lemma_advanced_ok, lemma_advanced_refl, skipped, next_kind,
    after_next, lemma_skipped, Parsed,
};

verus! {

broadcast use lemma_advanced_trans, lemma_advanced_ok, lemma_advanced_refl;

/// Why parsing failed: the token found (none at the end of the input) and
/// the kinds that would have been accepted there.
#[derive(Debug)]
pub enum ParseErr {
    UnexpectedToken(Option<Token>, Vec<TokenKind>),
}

pub type ParseResult<T> = Result<T, ParseErr>;

/// Token kinds, each in quotes, separated by commas.
pub open spec fn kinds_text(ks: Seq<TokenKind>) -> Seq<char>
    decreases ks.len(),
{
    if ks.len() == 0 {
        Seq::empty()
    } else if ks.len() == 1 {
        "\""@ + kind_text(ks[0]) + "\""@
    } else {
        kinds_text(ks.drop_last()) + ", \""@ + kind_text(ks.last()) + "\""@
    }
}

/// How a parsing error reads: the token found, or the end of the input,
/// and the kinds that would have fitted.
pub open spec fn parse_err_text(e: ParseErr) -> Seq<char> {
    match e {
        ParseErr::UnexpectedToken(t, ks) => (match t {
            Some(t) => position_text(t.from.line, t.from.column, t.from.filename@) + ": Unexpected token \""@
                + kind_text(t.kind) + "\""@,
            None => "Unexpected end of input"@,
        }) + ", expected any of {"@ + kinds_text(ks@) + "}"@,
    }
}

impl ParseErr {
    /// How the error reads: the token found, or the end of the input, and
    /// the kinds that would have fitted.
    pub fn message(&self) -> (r: String)
        ensures
            r@ == parse_err_text(*self),
    {
        let mut s = String::new();
        match self {
            ParseErr::UnexpectedToken(t, ks) => {
                match t {
                    Some(t) => {
                        let at = t.from.text();
                        string_push_str(&mut s, at.as_str());
                        string_push_str(&mut s, ": Unexpected token \"");
                        let kind = t.kind.to_string();
                        string_push_str(&mut s, kind.as_str());
                        string_push_str(&mut s, "\"");
                    },
                    None => string_push_str(&mut s, "Unexpected end of input"),
                }
                string_push_str(&mut s, ", expected any of {");
                let ghost prefix = s@;
                let mut i: usize = 0;
                while i < ks.len()
                    invariant
                        i <= ks.len(),
                        s@ == prefix + kinds_text(ks@.take(i as int)),
                    decreases ks.len() - i,
                {
                    if i > 0 {
                        string_push_str(&mut s, ", \"");
                    } else {
                        string_push_str(&mut s, "\"");
                    }
                    let kind = ks[i].to_string();
                    string_push_str(&mut s, kind.as_str());
                    string_push_str(&mut s, "\"");
                    proof {
                        assert(ks@.take(i + 1).drop_last() =~= ks@.take(i as int));
                        if i == 0 {
                            assert(kinds_text(ks@.take(0)) =~= Seq::<char>::empty());
                        }
                        assert(s@ =~= prefix + kinds_text(ks@.take(i + 1)));
                    }
                    i += 1;
                }
                proof {
                    assert(ks@.take(ks.len() as int) =~= ks@);
                }
                string_push_str(&mut s, "}");
            },
        }
        proof {
            assert(s@ =~= parse_err_text(*self));
        }
        s
    }
}

/// The error reports the next token (no comment), or the end of the input.
pub open spec fn reports_next(rest: Seq<Token>, e: ParseErr) -> bool {
    match e {
        ParseErr::UnexpectedToken(t, _) => match t {
            None => rest.len() == 0,
            Some(tok) => rest.len() > 0 && tok@ == rest.last()@ && tok.kind != TokenKind::COMMENT,
        },
    }
}

/// What a parse gave, as an outcome over the tokens left: the value of what
/// was built, or the kinds that would have fitted where it stopped.
pub open spec fn outcome<T: View>(r: ParseResult<T>, rest: Seq<Token>) -> Parsed<T::V> {
    match r {
        Ok(t) => Parsed::Done(t@, rest),
        Err(ParseErr::UnexpectedToken(_, ks)) => Parsed::Failed(rest, ks@),
    }
}

/// What a parse of a list gave, as an outcome over the tokens left.
pub open spec fn list_outcome<T: View>(r: ParseResult<Vec<T>>, rest: Seq<Token>) -> Parsed<Seq<T::V>> {
    match r {
        Ok(v) => Parsed::Done(views(v@), rest),
        Err(ParseErr::UnexpectedToken(_, ks)) => Parsed::Failed(rest, ks@),
    }
}

/// A parsing step took tokens from the input, at least one when it
/// succeeded, and a failure reports the token where it stopped.
pub open spec fn parsed<T>(before: Seq<Token>, after: Seq<Token>, r: ParseResult<T>) -> bool {
    &&& advanced(before, after)
    &&& (r is Ok ==> after.len() < before.len())
    &&& (r matches Err(e) ==> reports_next(after, e))
}

/// The node spans from the first token that is no comment in `ts` to the
/// last token taken, which leaves `n` tokens.
pub open spec fn spans_tokens(ts: Seq<Token>, n: nat, s: Span) -> bool {
    &&& n < ts.len()
    &&& skipped(ts).len() > 0
    &&& s.start == skipped(ts).last().from
    &&& s.end == ts[n as int].to
}

/// The kinds of token that start a primary expression whose node spans
/// exactly its tokens: literals, parentheses, `dim` and `begin`.
pub open spec fn spans_own_tokens(k: TokenKind) -> bool {
    ||| k == TokenKind::IntLiteral
    ||| k == TokenKind::FloatLiteral
    ||| k == TokenKind::CharLiteral
    ||| k == TokenKind::StringLiteral
    ||| k == TokenKind::True
    ||| k == TokenKind::False
    ||| k == TokenKind::LParen
    ||| k == TokenKind::Dim
    ||| k == TokenKind::Begin
}

/// The token taken next from `mid` sits, among the tokens `ts` that `mid`
/// came from, right after those it leaves.
pub proof fn lemma_last_taken(ts: Seq<Token>, mid: Seq<Token>)
    requires
        advanced(ts, mid),
        next_kind(mid) is Some,
    ensures
        after_next(mid).len() < ts.len(),
        ts[after_next(mid).len() as int] == skipped(mid).last(),
{
    lemma_skipped(mid);
    lemma_advanced_trans(ts, mid, skipped(mid));
    let n = after_next(mid).len();
    assert(skipped(mid).len() == n + 1);
    assert(ts.take(skipped(mid).len() as int)[n as int] == ts[n as int]);
}

/// A recursive-descent parser over the tokens of the lexer.
pub struct Parser {
    rest: Vec<Token>,
    consumed_token_span: Span,
}

impl Parser {
    /// The tokens not yet read, the next one last.
    pub closed spec fn rest(&self) -> Seq<Token> {
        self.rest@
    }

    pub open spec fn wf(&self) -> bool {
        &&& tokens_ok(self.rest())
        &&& self.rest().len() < u32::MAX
    }

    /// Whether the parser can take these tokens: each carries the value its
    /// kind calls for.
    pub fn accepts(tokens: &Vec<Token>) -> (r: bool)
        ensures
            r == tokens_ok(tokens@),
    {
        let mut i: usize = 0;
        while i < tokens.len()
            invariant
                i <= tokens.len(),
                forall|k: int| 0 <= k < i ==> #[trigger] token_ok(tokens@[k]),
            decreases tokens.len() - i,
        {
            let t = &tokens[i];
            let ok = match (&t.kind, &t.value) {
                (TokenKind::IdLower, TokenValue::String(_)) => true,
                (TokenKind::IdUpper, TokenValue::String(_)) => true,
                (TokenKind::StringLiteral, TokenValue::String(_)) => true,
                (TokenKind::IntLiteral, TokenValue::Int(v)) => *v >= 0,
                (TokenKind::FloatLiteral, TokenValue::Float(_)) => true,
                (TokenKind::CharLiteral, TokenValue::Char(_)) => true,
                (TokenKind::IdLower, _) => false,
                (TokenKind::IdUpper, _) => false,
                (TokenKind::StringLiteral, _) => false,
                (TokenKind::IntLiteral, _) => false,
                (TokenKind::FloatLiteral, _) => false,
                (TokenKind::CharLiteral, _) => false,
                _ => true,
            };
            if !ok {
                proof {
                    assert(!token_ok(tokens@[i as int]));
                }
                return false;
            }
            i += 1;
        }
        true
    }

    /// A parser over the tokens, in order.
    pub fn new(tokens: Vec<Token>) -> (r: Self)
        requires
            tokens_ok(tokens@),
            tokens@.len() < u32::MAX,
        ensures
            r.wf(),
            r.rest() == tokens@.reverse(),
    {
        let ghost all = tokens@;
        let mut tokens = tokens;
        let mut rest: Vec<Token> = Vec::new();
        while tokens.len() > 0
            invariant
                tokens@ + rest@.reverse() == all,
            decreases tokens.len(),
        {
            let ghost before = tokens@;
            let t = tokens.pop().unwrap();
            rest.push(t);
            proof {
                assert(tokens@ + rest@.reverse() =~= all);
            }
        }
        proof {
            assert(rest@.reverse() =~= all);
            assert(rest@ =~= all.reverse());
            assert forall|i: int| 0 <= i < rest@.len() implies #[trigger] token_ok(rest@[i]) by {
                assert(rest@[i] == all[all.len() - 1 - i]);
            }
        }
        Parser { rest, consumed_token_span: Span::default() }
    }

    /// Drops the comments in front.
    fn skip_comments(&mut self)
        requires
            old(self).wf(),
        ensures
            final(self).wf(),
            final(self).rest() == skipped(old(self).rest()),
            advanced(old(self).rest(), final(self).rest()),
            final(self).rest().len() == 0 || final(self).rest().last().kind != TokenKind::COMMENT,
            final(self).consumed_token_span == old(self).consumed_token_span,
    {
        proof {
            lemma_skipped(self.rest@);
        }
        while self.rest.len() > 0 && self.rest[self.rest.len() - 1].kind == TokenKind::COMMENT
            invariant
                tokens_ok(self.rest@),
                skipped(self.rest@) == skipped(old(self).rest()),
                self.consumed_token_span == old(self).consumed_token_span,
            decreases self.rest.len(),
        {
            let ghost before = self.rest@;
            self.rest.pop();
            proof {
                assert(self.rest@ =~= before.drop_last());
                assert(self.rest@ =~= before.take(before.len() - 1));
                lemma_advanced_ok(before, self.rest@);
            }
        }
        proof {
            lemma_skipped(old(self).rest());
        }
    }

    /// The kind of the next token, if any.
    fn peek_kind(&mut self) -> (r: Option<TokenKind>)
        requires
            old(self).wf(),
        ensures
            final(self).wf(),
            final(self).rest() == skipped(old(self).rest()),
            r == next_kind(old(self).rest()),
            advanced(old(self).rest(), final(self).rest()),
            final(self).rest().len() == 0 || final(self).rest().last().kind != TokenKind::COMMENT,
            final(self).consumed_token_span == old(self).consumed_token_span,
            r == if final(self).rest().len() == 0 { None } else { Some(final(self).rest().last().kind) },
    {
        self.skip_comments();
        if self.rest.len() > 0 {
            Some(self.rest[self.rest.len() - 1].kind)
        } else {
            None
        }
    }

    /// Takes the next token.
    fn consume_token(&mut self) -> (r: Option<Token>)
        requires
            old(self).wf(),
        ensures
            final(self).wf(),
            advanced(old(self).rest(), final(self).rest()),
            r matches Some(t) ==> final(self).rest().len() < old(self).rest().len() && token_ok(t)
                && t.kind != TokenKind::COMMENT && final(self).consumed_token_span == (Span { start: t.from, end: t.to }),
            r is None ==> final(self).rest().len() == 0 && final(self).consumed_token_span == old(self).consumed_token_span,
            old(self).rest().len() > 0 && old(self).rest().last().kind != TokenKind::COMMENT ==> r == Some(old(self).rest().last())
                && final(self).rest() == old(self).rest().drop_last(),
            next_kind(old(self).rest()) is Some ==> r == Some(skipped(old(self).rest()).last())
                && final(self).rest() == after_next(old(self).rest()),
            next_kind(old(self).rest()) is None ==> r is None,
    {
        self.skip_comments();
        let ghost before = self.rest@;
        match self.rest.pop() {
            Some(t) => {
                proof {
                    assert(self.rest@ =~= before.take(before.len() - 1));
                    assert(self.rest@ =~= before.drop_last());
                    assert(t == before.last());
                    assert(token_ok(before[before.len() - 1]));
                    lemma_advanced_trans(old(self).rest(), before, self.rest@);
                    lemma_advanced_ok(before, self.rest@);
                }
                self.consumed_token_span = Span::new(t.from.clone(), t.to.clone());
                Some(t)
            },
            None => None,
        }
    }

    /// Takes the next token if it is of the given kind.
    fn accept(&mut self, token_kind: TokenKind) -> (r: Option<Token>)
        requires
            old(self).wf(),
        ensures
            final(self).wf(),
            advanced(old(self).rest(), final(self).rest()),
            r matches Some(t) ==> t.kind == token_kind && token_ok(t) && final(self).rest().len() < old(self).rest().len()
                && final(self).consumed_token_span == (Span { start: t.from, end: t.to }),
            r is None ==> (final(self).rest().len() == 0 || (final(self).rest().last().kind != TokenKind::COMMENT
                && final(self).rest().last().kind != token_kind)) && final(self).consumed_token_span == old(self).consumed_token_span,
            next_kind(old(self).rest()) == Some(token_kind) ==> r == Some(skipped(old(self).rest()).last())
                && final(self).rest() == after_next(old(self).rest()),
            next_kind(old(self).rest()) != Some(token_kind) ==> r is None && final(self).rest() == skipped(old(self).rest()),
    {
        let k = self.peek_kind();
        let ghost mid = self.rest@;
        match k {
            Some(k) => {
                if k == token_kind {
                    let t = self.consume_token();
                    proof {
                        lemma_skipped(old(self).rest());
                        lemma_advanced_trans(old(self).rest(), mid, self.rest@);
                    }
                    t
                } else {
                    None
                }
            },
            None => None,
        }
    }

    /// The error for the next token, where one of `expected` was wanted.
    fn unexpected(&mut self, expected: Vec<TokenKind>) -> (e: ParseErr)
        requires
            old(self).wf(),
        ensures
            final(self).wf(),
            advanced(old(self).rest(), final(self).rest()),
            reports_next(final(self).rest(), e),
            final(self).rest() == skipped(old(self).rest()),
            e matches ParseErr::UnexpectedToken(_, ks) && ks == expected,
            final(self).consumed_token_span == old(self).consumed_token_span,
    {
        self.skip_comments();
        if self.rest.len() > 0 {
            let t = self.rest[self.rest.len() - 1].clone();
            ParseErr::UnexpectedToken(Some(t), expected)
        } else {
            ParseErr::UnexpectedToken(None, expected)
        }
    }

    /// Takes the next token, which must be of the given kind.
    fn expect(&mut self, token_kind: TokenKind) -> (r: ParseResult<Token>)
        requires
            old(self).wf(),
        ensures
            final(self).wf(),
            parsed(old(self).rest(), final(self).rest(), r),
            r matches Ok(t) ==> t.kind == token_kind && token_ok(t)
                && final(self).consumed_token_span == (Span { start: t.from, end: t.to }),
            r matches Err(ParseErr::UnexpectedToken(_, ks)) ==> ks@ == seq![token_kind],
            next_kind(old(self).rest()) == Some(token_kind) ==> r == Ok::<Token, ParseErr>(skipped(old(self).rest()).last())
                && final(self).rest() == after_next(old(self).rest()),
            next_kind(old(self).rest()) != Some(token_kind) ==> r is Err && final(self).rest() == skipped(old(self).rest()),
    {
        match self.accept(token_kind) {
            Some(t) => Ok(t),
            None => {
                let ghost mid = self.rest@;
                let e = self.unexpected(vec![token_kind]);
                proof {
                    lemma_advanced_trans(old(self).rest(), mid, self.rest@);
                }
                Err(e)
            },
        }
    }
}


impl Parser {
    /// A type: function types associate to the right.
    pub fn type_(&mut self) -> (r: ParseResult<TypeAnnotation>)
        requires
            old(self).wf(),
        ensures
            final(self).wf(),
            parsed(old(self).rest(), final(self).rest(), r),
            outcome(r, final(self).rest()) == type_spec(old(self).rest()),
        decreases old(self).rest().len(), 2nat,
    {
        let t1 = self.type_precedence_helper()?;
        let ghost r1 = self.rest();
        if self.accept(TokenKind::Arrow).is_some() {
            let lhs = Box::new(t1);
            let rhs = Box::new(self.type_()?);
            Ok(TypeAnnotation::Func { lhs, rhs })
        } else {
            Ok(t1)
        }
    }

    /// After `(`: a type or a tuple of types, then `)`.
    fn paren_type(&mut self) -> (r: ParseResult<TypeAnnotation>)
        requires
            old(self).wf(),
        ensures
            final(self).wf(),
            advanced(old(self).rest(), final(self).rest()),
            r is Ok ==> final(self).rest().len() < old(self).rest().len(),
            r matches Err(e) ==> reports_next(final(self).rest(), e),
            outcome(r, final(self).rest()) == paren_type_spec(old(self).rest()),
        decreases old(self).rest().len(), 4nat,
    {
        let ghost r0 = self.rest();
        let mut types: Vec<TypeAnnotation> = Vec::new();
        proof {
            assert(annotated_types(types@) =~= Seq::<TypeV>::empty());
            assert(prepend(Seq::empty(), type_list_spec(r0)) == type_list_spec(r0)) by {
                match type_list_spec(r0) {
                    Parsed::Done(more, r) => assert(Seq::<TypeV>::empty() + more =~= more),
                    Parsed::Failed(..) => {},
                }
            }
        }
        loop
            invariant_except_break
                type_list_spec(r0) == prepend(annotated_types(types@), type_list_spec(self.rest())),
            invariant
                self.wf(),
                self.rest().len() <= old(self).rest().len(),
                advanced(old(self).rest(), self.rest()),
                r0 == old(self).rest(),
            ensures
                self.wf(),
                self.rest().len() < old(self).rest().len(),
                advanced(old(self).rest(), self.rest()),
                type_list_spec(r0) == Parsed::Done(annotated_types(types@), self.rest()),
            decreases self.rest().len(),
        {
            let ghost cur = self.rest();
            let t = match self.type_() {
                Ok(t) => t,
                Err(e) => {
                    proof {
                        let ks = match e {
                            ParseErr::UnexpectedToken(_, ref ks) => ks@,
                        };
                        assert(type_list_spec(cur) == Parsed::<Seq<TypeV>>::Failed(self.rest(), ks));
                        assert(type_list_spec(r0) == Parsed::<Seq<TypeV>>::Failed(self.rest(), ks));
                        assert(paren_type_spec(r0) == Parsed::<TypeV>::Failed(self.rest(), ks));
                    }
                    return Err(e);
                },
            };
            let ghost r1 = self.rest();
            let ghost tv = t@;
            let ghost before = types@;
            proof {
                lemma_annotated_types(types@);
                lemma_annotated_types(types@.push(t));
                assert(annotated_types(types@.push(t)) =~= annotated_types(types@).push(t@));
            }
            types.push(t);
            if self.accept(TokenKind::Comma).is_none() {
                proof {
                    assert(type_list_spec(cur) == Parsed::Done(seq![tv], self.rest()));
                    assert(annotated_types(types@) =~= annotated_types(before) + seq![tv]);
                }
                break;
            }
            proof {
                assert(type_spec(cur) == Parsed::Done(tv, r1));
                assert(type_list_spec(cur) == prepend(seq![tv], type_list_spec(self.rest())));
                match type_list_spec(self.rest()) {
                    Parsed::Done(more, r) => {
                        assert(annotated_types(types@) + more =~= annotated_types(before) + (seq![tv] + more));
                    },
                    Parsed::Failed(..) => {},
                }
            }
        }
        let ghost r1 = self.rest();
        let _ = self.expect(TokenKind::RParen)?;
        proof {
            lemma_annotated_types(types@);
        }
        Ok(TypeAnnotation::maybe_tuple(types))
    }

    /// After `array`: the dimensions, `of` and the type of the items.
    fn array_type(&mut self) -> (r: ParseResult<TypeAnnotation>)
        requires
            old(self).wf(),
        ensures
            final(self).wf(),
            advanced(old(self).rest(), final(self).rest()),
            r is Ok ==> final(self).rest().len() < old(self).rest().len(),
            r matches Err(e) ==> reports_next(final(self).rest(), e),
            outcome(r, final(self).rest()) == array_type_spec(old(self).rest()),
        decreases old(self).rest().len(), 4nat,
    {
        let ghost r0 = self.rest();
        let mut dim_cnt: u32 = 1;
        if self.accept(TokenKind::LBracket).is_some() {
            let ghost rl = self.rest();
            self.expect(TokenKind::Star)?;
            let ghost rs = self.rest();
            while self.accept(TokenKind::Comma).is_some()
                invariant
                    self.wf(),
                    self.rest().len() < old(self).rest().len(),
                    advanced(old(self).rest(), self.rest()),
                    dim_cnt + self.rest().len() < u32::MAX,
                    stars_spec(rs, 1) == stars_spec(self.rest(), dim_cnt as nat),
                    r0 == old(self).rest(),
                    next_kind(r0) == Some(TokenKind::LBracket),
                    rl == after_next(r0),
                    next_kind(rl) == Some(TokenKind::Star),
                    rs == after_next(rl),
                decreases self.rest().len(),
            {
                let ghost prev = self.rest();
                if let Err(e) = self.expect(TokenKind::Star) {
                    proof {
                        let ks = seq![TokenKind::Star];
                        assert(stars_spec(rs, 1) == Parsed::<nat>::Failed(self.rest(), ks));
                        assert(dims_spec(r0) == Parsed::<nat>::Failed(self.rest(), ks));
                        assert(array_type_spec(r0) == Parsed::<TypeV>::Failed(self.rest(), ks));
                    }
                    return Err(e);
                }
                dim_cnt = dim_cnt + 1;
            }
            self.expect(TokenKind::RBracket)?;
        }
        let ghost r1 = self.rest();
        proof {
            assert(dims_spec(r0) == Parsed::Done(dim_cnt as nat, r1));
        }
        self.expect(TokenKind::Of)?;
        let inner = self.type_precedence_helper()?;
        Ok(TypeAnnotation::Array { inner: Box::new(inner), dim_cnt })
    }

    /// A type without function arrows: a basic type, a parenthesised type
    /// or tuple, an array type or a type name, followed by any number of
    /// `ref`.
    fn type_precedence_helper(&mut self) -> (r: ParseResult<TypeAnnotation>)
        requires
            old(self).wf(),
        ensures
            final(self).wf(),
            parsed(old(self).rest(), final(self).rest(), r),
            outcome(r, final(self).rest()) == type_helper_spec(old(self).rest()),
        decreases old(self).rest().len(), 1nat,
    {
        let ghost ts = self.rest();
        proof {
            lemma_skipped(ts);
        }
        let k = self.peek_kind();
        let mut t = match k {
            Some(TokenKind::Unit) | Some(TokenKind::Int) | Some(TokenKind::Char) | Some(TokenKind::Bool)
            | Some(TokenKind::Float) => {
                let token = self.consume_token().unwrap();
                TypeAnnotation::from_token_kind(&token.kind)
            },
            Some(TokenKind::LParen) => {
                let _ = self.consume_token();
                self.paren_type()?
            },
            Some(TokenKind::Array) => {
                let _ = self.consume_token();
                self.array_type()?
            },
            Some(TokenKind::IdLower) => {
                let token = self.consume_token().unwrap();
                TypeAnnotation::Custom { id: token.extract_string_value() }
            },
            _ => {
                return Err(self.unexpected(vec![
                    TokenKind::Unit, TokenKind::Int, TokenKind::Char, TokenKind::Bool, TokenKind::Float,
                    TokenKind::LParen, TokenKind::Array, TokenKind::IdLower,
                ]));
            },
        };
        let ghost rb = self.rest();
        let ghost tb = t@;
        proof {
            assert(type_base_spec(ts) == Parsed::Done(tb, rb));
        }
        while self.accept(TokenKind::Ref).is_some()
            invariant
                self.wf(),
                self.rest().len() < old(self).rest().len(),
                advanced(old(self).rest(), self.rest()),
                refs_spec(tb, rb) == refs_spec(t@, self.rest()),
            decreases self.rest().len(),
        {
            t = TypeAnnotation::Ref(Box::new(t));
        }
        Ok(t)
    }
}

impl Parser {
    /// The span from `from` to the end of the last token taken.
    fn span_from(&self, from: Position) -> (r: Span)
        ensures
            r.start == from,
            r.end == self.consumed_token_span.end,
    {
        Span::new(from, self.consumed_token_span.end.clone())
    }

    /// A pattern of a `match` clause.
    fn pattern(&mut self) -> (r: ParseResult<Pattern>)
        requires
            old(self).wf(),
        ensures
            final(self).wf(),
            parsed(old(self).rest(), final(self).rest(), r),
            outcome(r, final(self).rest()) == pattern_spec(old(self).rest()),
            r is Ok && next_kind(old(self).rest()) is Some && next_kind(old(self).rest())->0 != TokenKind::IdUpper
                ==> spans_tokens(old(self).rest(), final(self).rest().len(), r->Ok_0.span),
        decreases old(self).rest().len(), 1nat,
    {
        let ghost ts = self.rest();
        proof {
            lemma_skipped(ts);
        }
        let k = self.peek_kind();
        match k {
            Some(TokenKind::Plus) | Some(TokenKind::Minus) => {
                let token = self.consume_token().unwrap();
                let ghost r0 = self.rest();
                proof {
                    lemma_last_taken(ts, ts);
                    if next_kind(r0) is Some {
                        lemma_last_taken(ts, r0);
                    }
                }
                let integer = self.expect(TokenKind::IntLiteral)?.extract_int_value();
                let integer = if token.kind == TokenKind::Minus { -integer } else { integer };
                Ok(Pattern { kind: PatternKind::IntLiteral(integer), span: self.span_from(token.from) })
            },
            Some(TokenKind::CharLiteral) => {
                let token = self.consume_token().unwrap();
                proof {
                    lemma_last_taken(ts, ts);
                }
                let span = Span::new(token.from.clone(), token.to.clone());
                Ok(Pattern { kind: PatternKind::CharLiteral(token.extract_char_value()), span })
            },
            Some(TokenKind::StringLiteral) => {
                let token = self.consume_token().unwrap();
                proof {
                    lemma_last_taken(ts, ts);
                }
                let span = Span::new(token.from.clone(), token.to.clone());
                Ok(Pattern { kind: PatternKind::StringLiteral(token.extract_string_value()), span })
            },
            Some(TokenKind::IntLiteral) => {
                let token = self.consume_token().unwrap();
                proof {
                    lemma_last_taken(ts, ts);
                }
                let span = Span::new(token.from.clone(), token.to.clone());
                Ok(Pattern { kind: PatternKind::IntLiteral(token.extract_int_value()), span })
            },
            Some(TokenKind::FloatLiteral) => {
                let token = self.consume_token().unwrap();
                proof {
                    lemma_last_taken(ts, ts);
                }
                let span = Span::new(token.from.clone(), token.to.clone());
                Ok(Pattern { kind: PatternKind::FloatLiteral(token.extract_float_value()), span })
            },
            Some(TokenKind::False) | Some(TokenKind::True) => {
                let token = self.consume_token().unwrap();
                proof {
                    lemma_last_taken(ts, ts);
                }
                let span = Span::new(token.from.clone(), token.to.clone());
                Ok(Pattern { kind: PatternKind::BoolLiteral(token.kind == TokenKind::True), span })
            },
            Some(TokenKind::IdLower) => {
                let token = self.consume_token().unwrap();
                proof {
                    lemma_last_taken(ts, ts);
                }
                let span = Span::new(token.from.clone(), token.to.clone());
                Ok(Pattern { kind: PatternKind::IdLower(token.extract_string_value()), span })
            },
            Some(TokenKind::LParen) => {
                let token = self.consume_token().unwrap();
                let ghost r0 = self.rest();
                proof {
                    lemma_last_taken(ts, ts);
                }
                let mut pattern = self.paren_pattern()?;
                proof {
                    let f = self.rest();
                    assert(ts.take(r0.len() as int)[f.len() as int] == ts[f.len() as int]);
                }
                pattern.span = self.span_from(token.from);
                Ok(pattern)
            },
            Some(TokenKind::IdUpper) => {
                let token = self.consume_token().unwrap();
                let from = token.from.clone();
                let id = token.extract_string_value();
                let args = self.constr_args()?;
                Ok(Pattern { kind: PatternKind::IdUpper { id, args }, span: self.span_from(from) })
            },
            _ => Err(self.unexpected(vec![
                TokenKind::Plus, TokenKind::Minus, TokenKind::CharLiteral, TokenKind::StringLiteral,
                TokenKind::IntLiteral, TokenKind::FloatLiteral, TokenKind::False, TokenKind::True,
                TokenKind::IdLower, TokenKind::LParen, TokenKind::IdUpper,
            ])),
        }
    }

    /// After `(`: a pattern or a tuple of patterns, then `)`.
    fn paren_pattern(&mut self) -> (r: ParseResult<Pattern>)
        requires
            old(self).wf(),
        ensures
            final(self).wf(),
            parsed(old(self).rest(), final(self).rest(), r),
            outcome(r, final(self).rest()) == paren_pattern_spec(old(self).rest()),
            r is Ok ==> final(self).rest().len() < old(self).rest().len()
                && final(self).consumed_token_span.end == old(self).rest()[final(self).rest().len() as int].to,
        decreases old(self).rest().len(), 3nat,
    {
        let ghost r0 = self.rest();
        let mut patterns: Vec<Pattern> = Vec::new();
        proof {
            assert(pattern_views(patterns@) =~= Seq::<PatternV>::empty());
            assert(prepend_patterns(Seq::empty(), pattern_list_spec(r0)) == pattern_list_spec(r0)) by {
                match pattern_list_spec(r0) {
                    Parsed::Done(more, r) => assert(Seq::<PatternV>::empty() + more =~= more),
                    Parsed::Failed(..) => {},
                }
            }
        }
        loop
            invariant_except_break
                pattern_list_spec(r0) == prepend_patterns(pattern_views(patterns@), pattern_list_spec(self.rest())),
            invariant
                self.wf(),
                self.rest().len() <= old(self).rest().len(),
                advanced(old(self).rest(), self.rest()),
                r0 == old(self).rest(),
            ensures
                self.wf(),
                self.rest().len() < old(self).rest().len(),
                advanced(old(self).rest(), self.rest()),
                pattern_list_spec(r0) == Parsed::Done(pattern_views(patterns@), self.rest()),
            decreases self.rest().len(),
        {
            let ghost cur = self.rest();
            let p = match self.pattern() {
                Ok(p) => p,
                Err(e) => {
                    proof {
                        let ks = match e {
                            ParseErr::UnexpectedToken(_, ref ks) => ks@,
                        };
                        assert(pattern_list_spec(cur) == Parsed::<Seq<PatternV>>::Failed(self.rest(), ks));
                        assert(pattern_list_spec(r0) == Parsed::<Seq<PatternV>>::Failed(self.rest(), ks));
                        assert(paren_pattern_spec(r0) == Parsed::<PatternV>::Failed(self.rest(), ks));
                    }
                    return Err(e);
                },
            };
            let ghost r1 = self.rest();
            let ghost pv = p@;
            let ghost before = patterns@;
            proof {
                lemma_pattern_views_push(before, p);
            }
            patterns.push(p);
            if self.accept(TokenKind::Comma).is_none() {
                proof {
                    assert(pattern_list_spec(cur) == Parsed::Done(seq![pv], self.rest()));
                    assert(pattern_views(patterns@) =~= pattern_views(before) + seq![pv]);
                }
                break;
            }
            proof {
                assert(pattern_spec(cur) == Parsed::Done(pv, r1));
                assert(pattern_list_spec(cur) == prepend_patterns(seq![pv], pattern_list_spec(self.rest())));
                match pattern_list_spec(self.rest()) {
                    Parsed::Done(more, r) => {
                        assert(pattern_views(patterns@) + more =~= pattern_views(before) + (seq![pv] + more));
                    },
                    Parsed::Failed(..) => {},
                }
            }
        }
        let ghost mid = self.rest();
        proof {
            if next_kind(mid) is Some {
                lemma_last_taken(r0, mid);
            }
        }
        let _ = self.expect(TokenKind::RParen)?;
        proof {
            lemma_pattern_views(patterns@);
        }
        Ok(Pattern::maybe_tuple(patterns))
    }

    /// The argument patterns of a constructor: patterns for as long as the
    /// next token can start one.
    fn constr_args(&mut self) -> (r: ParseResult<Vec<Pattern>>)
        requires
            old(self).wf(),
        ensures
            final(self).wf(),
            advanced(old(self).rest(), final(self).rest()),
            r matches Err(e) ==> reports_next(final(self).rest(), e),
            pattern_args_spec(old(self).rest()) == match r {
                Ok(args) => Parsed::Done(pattern_views(args@), final(self).rest()),
                Err(ParseErr::UnexpectedToken(_, ks)) => Parsed::Failed(final(self).rest(), ks@),
            },
        decreases old(self).rest().len(), 3nat,
    {
        let ghost r0 = self.rest();
        let mut args: Vec<Pattern> = Vec::new();
        proof {
            assert(pattern_views(args@) =~= Seq::<PatternV>::empty());
            assert(prepend_patterns(Seq::empty(), pattern_args_spec(r0)) == pattern_args_spec(r0)) by {
                match pattern_args_spec(r0) {
                    Parsed::Done(more, r) => assert(Seq::<PatternV>::empty() + more =~= more),
                    Parsed::Failed(..) => {},
                }
            }
        }
        loop
            invariant_except_break
                pattern_args_spec(r0) == prepend_patterns(pattern_views(args@), pattern_args_spec(self.rest())),
            invariant
                self.wf(),
                advanced(old(self).rest(), self.rest()),
                r0 == old(self).rest(),
            ensures
                self.wf(),
                advanced(old(self).rest(), self.rest()),
                pattern_args_spec(r0) == Parsed::Done(pattern_views(args@), self.rest()),
            decreases self.rest().len(),
        {
            let ghost cur = self.rest();
            proof {
                lemma_skipped(cur);
            }
            let k = self.peek_kind();
            match k {
                Some(TokenKind::Plus) | Some(TokenKind::Minus) | Some(TokenKind::CharLiteral)
                | Some(TokenKind::StringLiteral) | Some(TokenKind::IntLiteral)
                | Some(TokenKind::FloatLiteral) | Some(TokenKind::False) | Some(TokenKind::True)
                | Some(TokenKind::IdLower) | Some(TokenKind::LParen) | Some(TokenKind::IdUpper) => {
                    proof {
                        assert(pattern_starters().contains(k->0));
                        assert(pattern_spec(self.rest()) == pattern_spec(cur));
                    }
                    let p = match self.pattern() {
                        Ok(p) => p,
                        Err(e) => {
                            proof {
                                let ks = match e {
                                    ParseErr::UnexpectedToken(_, ref ks) => ks@,
                                };
                                assert(pattern_args_spec(cur) == Parsed::<Seq<PatternV>>::Failed(self.rest(), ks));
                            }
                            return Err(e);
                        },
                    };
                    let ghost pv = p@;
                    let ghost before = args@;
                    proof {
                        lemma_pattern_views_push(before, p);
                    }
                    args.push(p);
                    proof {
                        assert(pattern_args_spec(cur) == prepend_patterns(seq![pv], pattern_args_spec(self.rest())));
                        match pattern_args_spec(self.rest()) {
                            Parsed::Done(more, r) => {
                                assert(pattern_views(args@) + more =~= pattern_views(before) + (seq![pv] + more));
                            },
                            Parsed::Failed(..) => {},
                        }
                    }
                },
                _ => {
                    proof {
                        assert(pattern_args_spec(cur) == Parsed::<Seq<PatternV>>::Done(Seq::empty(), self.rest()));
                        assert(pattern_views(args@) + Seq::<PatternV>::empty() =~= pattern_views(args@));
                    }
                    break;
                },
            }
        }
        Ok(args)
    }
}

impl Parser {
    /// Expressions separated by commas, at least one.
    #[verifier::spinoff_prover]
    fn expr_list(&mut self) -> (r: ParseResult<Vec<Expr>>)
        requires
            old(self).wf(),
        ensures
            final(self).wf(),
            parsed(old(self).rest(), final(self).rest(), r),
            r matches Ok(v) ==> v@.len() > 0,
            list_outcome(r, final(self).rest()) == expr_list_spec(old(self).rest()),
        decreases old(self).rest().len(), 40nat,
    {
        proof {
            reveal(expr_list_spec);
        }
        let ghost r0 = self.rest();
        let mut items: Vec<Expr> = Vec::new();
        proof {
            assert(views(items@) =~= Seq::<ExprV>::empty());
            assert(prepend_all(Seq::<ExprV>::empty(), expr_list_spec(r0)) == expr_list_spec(r0)) by {
                match expr_list_spec(r0) {
                    Parsed::Done(more, r) => assert(Seq::<ExprV>::empty() + more =~= more),
                    Parsed::Failed(..) => {},
                }
            }
        }
        loop
            invariant_except_break
                expr_list_spec(r0) == prepend_all(views(items@), expr_list_spec(self.rest())),
            invariant
                self.wf(),
                self.rest().len() <= old(self).rest().len(),
                advanced(old(self).rest(), self.rest()),
                r0 == old(self).rest(),
            ensures
                self.wf(),
                self.rest().len() < old(self).rest().len(),
                advanced(old(self).rest(), self.rest()),
                expr_list_spec(r0) == Parsed::Done(views(items@), self.rest()),
                items@.len() > 0,
            decreases self.rest().len(),
        {
            let ghost cur = self.rest();
            proof {
                reveal(expr_list_spec);
            }
            let item = match self.expr() {
                Ok(item) => item,
                Err(e) => {
                    proof {
                        let ks = match e {
                            ParseErr::UnexpectedToken(_, ref ks) => ks@,
                        };
                        assert(expr_list_spec(cur) == Parsed::<Seq<ExprV>>::Failed(self.rest(), ks));
                    }
                    return Err(e);
                },
            };
            let ghost r1 = self.rest();
            let ghost iv = item@;
            let ghost before = items@;
            proof {
                lemma_views_push(before, item);
            }
            items.push(item);
            if self.accept(TokenKind::Comma).is_none() {
                proof {
                    assert(expr_list_spec(cur) == Parsed::Done(seq![iv], self.rest()));
                    assert(views(items@) =~= views(before) + seq![iv]);
                }
                break;
            }
            proof {
                assert(expr_spec(cur) == Parsed::Done(iv, r1));
                assert(expr_list_spec(cur) == cons(iv, expr_list_spec(self.rest())));
                match expr_list_spec(self.rest()) {
                    Parsed::Done(more, r) => {
                        assert(views(items@) + more =~= views(before) + (seq![iv] + more));
                    },
                    Parsed::Failed(..) => {},
                }
            }
        }
        Ok(items)
    }

    /// The operands of `||`, at least one.
    #[verifier::spinoff_prover]
    fn or_list(&mut self) -> (r: ParseResult<Vec<Expr>>)
        requires
            old(self).wf(),
        ensures
            final(self).wf(),
            parsed(old(self).rest(), final(self).rest(), r),
            r matches Ok(v) ==> v@.len() > 0,
            list_outcome(r, final(self).rest()) == or_list_spec(old(self).rest()),
        decreases old(self).rest().len(), 24nat,
    {
        proof {
            reveal(or_list_spec);
        }
        let ghost r0 = self.rest();
        let mut items: Vec<Expr> = Vec::new();
        proof {
            assert(views(items@) =~= Seq::<ExprV>::empty());
            assert(prepend_all(Seq::<ExprV>::empty(), or_list_spec(r0)) == or_list_spec(r0)) by {
                match or_list_spec(r0) {
                    Parsed::Done(more, r) => assert(Seq::<ExprV>::empty() + more =~= more),
                    Parsed::Failed(..) => {},
                }
            }
        }
        loop
            invariant_except_break
                or_list_spec(r0) == prepend_all(views(items@), or_list_spec(self.rest())),
            invariant
                self.wf(),
                self.rest().len() <= old(self).rest().len(),
                advanced(old(self).rest(), self.rest()),
                r0 == old(self).rest(),
            ensures
                self.wf(),
                self.rest().len() < old(self).rest().len(),
                advanced(old(self).rest(), self.rest()),
                or_list_spec(r0) == Parsed::Done(views(items@), self.rest()),
                items@.len() > 0,
            decreases self.rest().len(),
        {
            let ghost cur = self.rest();
            proof {
                reveal(or_list_spec);
            }
            let item = match self.expr5() {
                Ok(item) => item,
                Err(e) => {
                    proof {
                        let ks = match e {
                            ParseErr::UnexpectedToken(_, ref ks) => ks@,
                        };
                        assert(or_list_spec(cur) == Parsed::<Seq<ExprV>>::Failed(self.rest(), ks));
                    }
                    return Err(e);
                },
            };
            let ghost r1 = self.rest();
            let ghost iv = item@;
            let ghost before = items@;
            proof {
                lemma_views_push(before, item);
            }
            items.push(item);
            if self.accept(TokenKind::DblBar).is_none() {
                proof {
                    assert(or_list_spec(cur) == Parsed::Done(seq![iv], self.rest()));
                    assert(views(items@) =~= views(before) + seq![iv]);
                }
                break;
            }
            proof {
                assert(expr5_spec(cur) == Parsed::Done(iv, r1));
                assert(or_list_spec(cur) == cons(iv, or_list_spec(self.rest())));
                match or_list_spec(self.rest()) {
                    Parsed::Done(more, r) => {
                        assert(views(items@) + more =~= views(before) + (seq![iv] + more));
                    },
                    Parsed::Failed(..) => {},
                }
            }
        }
        Ok(items)
    }

    /// The operands of `&&`, at least one.
    #[verifier::spinoff_prover]
    fn and_list(&mut self) -> (r: ParseResult<Vec<Expr>>)
        requires
            old(self).wf(),
        ensures
            final(self).wf(),
            parsed(old(self).rest(), final(self).rest(), r),
            r matches Ok(v) ==> v@.len() > 0,
            list_outcome(r, final(self).rest()) == and_list_spec(old(self).rest()),
        decreases old(self).rest().len(), 22nat,
    {
        proof {
            reveal(and_list_spec);
        }
        let ghost r0 = self.rest();
        let mut items: Vec<Expr> = Vec::new();
        proof {
            assert(views(items@) =~= Seq::<ExprV>::empty());
            assert(prepend_all(Seq::<ExprV>::empty(), and_list_spec(r0)) == and_list_spec(r0)) by {
                match and_list_spec(r0) {
                    Parsed::Done(more, r) => assert(Seq::<ExprV>::empty() + more =~= more),
                    Parsed::Failed(..) => {},
                }
            }
        }
        loop
            invariant_except_break
                and_list_spec(r0) == prepend_all(views(items@), and_list_spec(self.rest())),
            invariant
                self.wf(),
                self.rest().len() <= old(self).rest().len(),
                advanced(old(self).rest(), self.rest()),
                r0 == old(self).rest(),
            ensures
                self.wf(),
                self.rest().len() < old(self).rest().len(),
                advanced(old(self).rest(), self.rest()),
                and_list_spec(r0) == Parsed::Done(views(items@), self.rest()),
                items@.len() > 0,
            decreases self.rest().len(),
        {
            let ghost cur = self.rest();
            proof {
                reveal(and_list_spec);
            }
            let item = match self.expr6() {
                Ok(item) => item,
                Err(e) => {
                    proof {
                        let ks = match e {
                            ParseErr::UnexpectedToken(_, ref ks) => ks@,
                        };
                        assert(and_list_spec(cur) == Parsed::<Seq<ExprV>>::Failed(self.rest(), ks));
                    }
                    return Err(e);
                },
            };
            let ghost r1 = self.rest();
            let ghost iv = item@;
            let ghost before = items@;
            proof {
                lemma_views_push(before, item);
            }
            items.push(item);
            if self.accept(TokenKind::DblAmpersand).is_none() {
                proof {
                    assert(and_list_spec(cur) == Parsed::Done(seq![iv], self.rest()));
                    assert(views(items@) =~= views(before) + seq![iv]);
                }
                break;
            }
            proof {
                assert(expr6_spec(cur) == Parsed::Done(iv, r1));
                assert(and_list_spec(cur) == cons(iv, and_list_spec(self.rest())));
                match and_list_spec(self.rest()) {
                    Parsed::Done(more, r) => {
                        assert(views(items@) + more =~= views(before) + (seq![iv] + more));
                    },
                    Parsed::Failed(..) => {},
                }
            }
        }
        Ok(items)
    }

    /// Definitions separated by `and`, at least one.
    #[verifier::spinoff_prover]
    fn defs(&mut self) -> (r: ParseResult<Vec<Def>>)
        requires
            old(self).wf(),
        ensures
            final(self).wf(),
            parsed(old(self).rest(), final(self).rest(), r),
            r matches Ok(v) ==> v@.len() > 0,
            list_outcome(r, final(self).rest()) == defs_spec(old(self).rest()),
        decreases old(self).rest().len(), 2nat,
    {
        proof {
            reveal(defs_spec);
        }
        let ghost r0 = self.rest();
        let mut items: Vec<Def> = Vec::new();
        proof {
            assert(views(items@) =~= Seq::<DefV>::empty());
            assert(prepend_all(Seq::<DefV>::empty(), defs_spec(r0)) == defs_spec(r0)) by {
                match defs_spec(r0) {
                    Parsed::Done(more, r) => assert(Seq::<DefV>::empty() + more =~= more),
                    Parsed::Failed(..) => {},
                }
            }
        }
        loop
            invariant_except_break
                defs_spec(r0) == prepend_all(views(items@), defs_spec(self.rest())),
            invariant
                self.wf(),
                self.rest().len() <= old(self).rest().len(),
                advanced(old(self).rest(), self.rest()),
                r0 == old(self).rest(),
            ensures
                self.wf(),
                self.rest().len() < old(self).rest().len(),
                advanced(old(self).rest(), self.rest()),
                defs_spec(r0) == Parsed::Done(views(items@), self.rest()),
                items@.len() > 0,
            decreases self.rest().len(),
        {
            let ghost cur = self.rest();
            proof {
                reveal(defs_spec);
            }
            let item = match self.def() {
                Ok(item) => item,
                Err(e) => {
                    proof {
                        let ks = match e {
                            ParseErr::UnexpectedToken(_, ref ks) => ks@,
                        };
                        assert(defs_spec(cur) == Parsed::<Seq<DefV>>::Failed(self.rest(), ks));
                    }
                    return Err(e);
                },
            };
            let ghost r1 = self.rest();
            let ghost iv = item@;
            let ghost before = items@;
            proof {
                lemma_views_push(before, item);
            }
            items.push(item);
            if self.accept(TokenKind::And).is_none() {
                proof {
                    assert(defs_spec(cur) == Parsed::Done(seq![iv], self.rest()));
                    assert(views(items@) =~= views(before) + seq![iv]);
                }
                break;
            }
            proof {
                assert(def_spec(cur) == Parsed::Done(iv, r1));
                assert(defs_spec(cur) == cons(iv, defs_spec(self.rest())));
                match defs_spec(self.rest()) {
                    Parsed::Done(more, r) => {
                        assert(views(items@) + more =~= views(before) + (seq![iv] + more));
                    },
                    Parsed::Failed(..) => {},
                }
            }
        }
        Ok(items)
    }

    /// Clauses separated by `|`, at least one.
    #[verifier::spinoff_prover]
    fn clauses(&mut self) -> (r: ParseResult<Vec<Clause>>)
        requires
            old(self).wf(),
        ensures
            final(self).wf(),
            parsed(old(self).rest(), final(self).rest(), r),
            r matches Ok(v) ==> v@.len() > 0,
            list_outcome(r, final(self).rest()) == clause_list_spec(old(self).rest()),
        decreases old(self).rest().len(), 3nat,
    {
        proof {
            reveal(clause_list_spec);
        }
        let ghost r0 = self.rest();
        let mut items: Vec<Clause> = Vec::new();
        proof {
            assert(views(items@) =~= Seq::<ClauseV>::empty());
            assert(prepend_all(Seq::<ClauseV>::empty(), clause_list_spec(r0)) == clause_list_spec(r0)) by {
                match clause_list_spec(r0) {
                    Parsed::Done(more, r) => assert(Seq::<ClauseV>::empty() + more =~= more),
                    Parsed::Failed(..) => {},
                }
            }
        }
        loop
            invariant_except_break
                clause_list_spec(r0) == prepend_all(views(items@), clause_list_spec(self.rest())),
            invariant
                self.wf(),
                self.rest().len() <= old(self).rest().len(),
                advanced(old(self).rest(), self.rest()),
                r0 == old(self).rest(),
            ensures
                self.wf(),
                self.rest().len() < old(self).rest().len(),
                advanced(old(self).rest(), self.rest()),
                clause_list_spec(r0) == Parsed::Done(views(items@), self.rest()),
                items@.len() > 0,
            decreases self.rest().len(),
        {
            let ghost cur = self.rest();
            proof {
                reveal(clause_list_spec);
            }
            let item = match self.clause() {
                Ok(item) => item,
                Err(e) => {
                    proof {
                        let ks = match e {
                            ParseErr::UnexpectedToken(_, ref ks) => ks@,
                        };
                        assert(clause_list_spec(cur) == Parsed::<Seq<ClauseV>>::Failed(self.rest(), ks));
                    }
                    return Err(e);
                },
            };
            let ghost r1 = self.rest();
            let ghost iv = item@;
            let ghost before = items@;
            proof {
                lemma_views_push(before, item);
            }
            items.push(item);
            if self.accept(TokenKind::Bar).is_none() {
                proof {
                    assert(clause_list_spec(cur) == Parsed::Done(seq![iv], self.rest()));
                    assert(views(items@) =~= views(before) + seq![iv]);
                }
                break;
            }
            proof {
                assert(clause_spec(cur) == Parsed::Done(iv, r1));
                assert(clause_list_spec(cur) == cons(iv, clause_list_spec(self.rest())));
                match clause_list_spec(self.rest()) {
                    Parsed::Done(more, r) => {
                        assert(views(items@) + more =~= views(before) + (seq![iv] + more));
                    },
                    Parsed::Failed(..) => {},
                }
            }
        }
        Ok(items)
    }

    /// Type definitions separated by `and`, at least one.
    #[verifier::spinoff_prover]
    fn tdefs(&mut self) -> (r: ParseResult<Vec<TDef>>)
        requires
            old(self).wf(),
        ensures
            final(self).wf(),
            parsed(old(self).rest(), final(self).rest(), r),
            r matches Ok(v) ==> v@.len() > 0,
            list_outcome(r, final(self).rest()) == typedef_spec(old(self).rest()),
    {
        proof {
            reveal(typedef_spec);
        }
        let ghost r0 = self.rest();
        let mut items: Vec<TDef> = Vec::new();
        proof {
            assert(views(items@) =~= Seq::<TDefV>::empty());
            assert(prepend_all(Seq::<TDefV>::empty(), typedef_spec(r0)) == typedef_spec(r0)) by {
                match typedef_spec(r0) {
                    Parsed::Done(more, r) => assert(Seq::<TDefV>::empty() + more =~= more),
                    Parsed::Failed(..) => {},
                }
            }
        }
        loop
            invariant_except_break
                typedef_spec(r0) == prepend_all(views(items@), typedef_spec(self.rest())),
            invariant
                self.wf(),
                self.rest().len() <= old(self).rest().len(),
                advanced(old(self).rest(), self.rest()),
                r0 == old(self).rest(),
            ensures
                self.wf(),
                self.rest().len() < old(self).rest().len(),
                advanced(old(self).rest(), self.rest()),
                typedef_spec(r0) == Parsed::Done(views(items@), self.rest()),
                items@.len() > 0,
            decreases self.rest().len(),
        {
            let ghost cur = self.rest();
            proof {
                reveal(typedef_spec);
            }
            let item = match self.tdef() {
                Ok(item) => item,
                Err(e) => {
                    proof {
                        let ks = match e {
                            ParseErr::UnexpectedToken(_, ref ks) => ks@,
                        };
                        assert(typedef_spec(cur) == Parsed::<Seq<TDefV>>::Failed(self.rest(), ks));
                    }
                    return Err(e);
                },
            };
            let ghost r1 = self.rest();
            let ghost iv = item@;
            let ghost before = items@;
            proof {
                lemma_views_push(before, item);
            }
            items.push(item);
            if self.accept(TokenKind::And).is_none() {
                proof {
                    assert(typedef_spec(cur) == Parsed::Done(seq![iv], self.rest()));
                    assert(views(items@) =~= views(before) + seq![iv]);
                }
                break;
            }
            proof {
                assert(tdef_spec(cur) == Parsed::Done(iv, r1));
                assert(typedef_spec(cur) == cons(iv, typedef_spec(self.rest())));
                match typedef_spec(self.rest()) {
                    Parsed::Done(more, r) => {
                        assert(views(items@) + more =~= views(before) + (seq![iv] + more));
                    },
                    Parsed::Failed(..) => {},
                }
            }
        }
        Ok(items)
    }

    /// Constructors separated by `|`, at least one.
    #[verifier::spinoff_prover]
    fn constrs(&mut self) -> (r: ParseResult<Vec<Constr>>)
        requires
            old(self).wf(),
        ensures
            final(self).wf(),
            parsed(old(self).rest(), final(self).rest(), r),
            r matches Ok(v) ==> v@.len() > 0,
            list_outcome(r, final(self).rest()) == constrs_spec(old(self).rest()),
    {
        proof {
            reveal(constrs_spec);
        }
        let ghost r0 = self.rest();
        let mut items: Vec<Constr> = Vec::new();
        proof {
            assert(views(items@) =~= Seq::<ConstrV>::empty());
            assert(prepend_all(Seq::<ConstrV>::empty(), constrs_spec(r0)) == constrs_spec(r0)) by {
                match constrs_spec(r0) {
                    Parsed::Done(more, r) => assert(Seq::<ConstrV>::empty() + more =~= more),
                    Parsed::Failed(..) => {},
                }
            }
        }
        loop
            invariant_except_break
                constrs_spec(r0) == prepend_all(views(items@), constrs_spec(self.rest())),
            invariant
                self.wf(),
                self.rest().len() <= old(self).rest().len(),
                advanced(old(self).rest(), self.rest()),
                r0 == old(self).rest(),
            ensures
                self.wf(),
                self.rest().len() < old(self).rest().len(),
                advanced(old(self).rest(), self.rest()),
                constrs_spec(r0) == Parsed::Done(views(items@), self.rest()),
                items@.len() > 0,
            decreases self.rest().len(),
        {
            let ghost cur = self.rest();
            proof {
                reveal(constrs_spec);
            }
            let item = match self.constr() {
                Ok(item) => item,
                Err(e) => {
                    proof {
                        let ks = match e {
                            ParseErr::UnexpectedToken(_, ref ks) => ks@,
                        };
                        assert(constrs_spec(cur) == Parsed::<Seq<ConstrV>>::Failed(self.rest(), ks));
                    }
                    return Err(e);
                },
            };
            let ghost r1 = self.rest();
            let ghost iv = item@;
            let ghost before = items@;
            proof {
                lemma_views_push(before, item);
            }
            items.push(item);
            if self.accept(TokenKind::Bar).is_none() {
                proof {
                    assert(constrs_spec(cur) == Parsed::Done(seq![iv], self.rest()));
                    assert(views(items@) =~= views(before) + seq![iv]);
                }
                break;
            }
            proof {
                assert(constr_spec(cur) == Parsed::Done(iv, r1));
                assert(constrs_spec(cur) == cons(iv, constrs_spec(self.rest())));
                match constrs_spec(self.rest()) {
                    Parsed::Done(more, r) => {
                        assert(views(items@) + more =~= views(before) + (seq![iv] + more));
                    },
                    Parsed::Failed(..) => {},
                }
            }
        }
        Ok(items)
    }

    /// A whole program: definitions up to the end of the input.
    #[verifier::spinoff_prover]
    pub fn program(&mut self) -> (r: ParseResult<Program>)
        requires
            old(self).wf(),
        ensures
            final(self).wf(),
            parsed(old(self).rest(), final(self).rest(), r),
            outcome(r, final(self).rest()) == program_spec(old(self).rest()),
    {
        proof {
            reveal(program_spec);
        }
        let ghost ts = self.rest();
        proof {
            lemma_skipped(ts);
        }
        let _ = self.peek_kind();
        let from = if self.rest.len() > 0 {
            self.rest[self.rest.len() - 1].from.clone()
        } else {
            self.consumed_token_span.end.clone()
        };
        let ghost r0 = self.rest();
        let mut definitions: Vec<Definition> = Vec::new();
        proof {
            assert(program_spec(r0) == program_spec(ts));
            assert(views(definitions@) =~= Seq::<DefinitionV>::empty());
            assert(prepend_all(Seq::<DefinitionV>::empty(), program_spec(r0)) == program_spec(r0)) by {
                match program_spec(r0) {
                    Parsed::Done(more, r) => assert(Seq::<DefinitionV>::empty() + more =~= more),
                    Parsed::Failed(..) => {},
                }
            }
        }
        loop
            invariant_except_break
                program_spec(r0) == prepend_all(views(definitions@), program_spec(self.rest())),
            invariant
                self.wf(),
                advanced(old(self).rest(), self.rest()),
                program_spec(r0) == program_spec(ts),
                ts == old(self).rest(),
            ensures
                self.wf(),
                advanced(old(self).rest(), self.rest()),
                self.rest().len() < old(self).rest().len(),
                program_spec(ts) == Parsed::Done(views(definitions@), self.rest()),
            decreases self.rest().len(),
        {
            let ghost cur = self.rest();
            proof {
                reveal(program_spec);
            }
            proof {
                lemma_skipped(cur);
            }
            if self.accept(TokenKind::EOF).is_some() {
                proof {
                    assert(program_spec(cur) == Parsed::<Seq<DefinitionV>>::Done(Seq::empty(), self.rest()));
                    assert(views(definitions@) + Seq::<DefinitionV>::empty() =~= views(definitions@));
                }
                break;
            }
            let k = self.peek_kind();
            let ghost before = definitions@;
            let d = match k {
                Some(TokenKind::Let) => {
                    let _ = self.consume_token();
                    match self.letdef() {
                        Ok(l) => Definition::Let(l),
                        Err(e) => {
                            proof {
                                let ks = match e {
                                    ParseErr::UnexpectedToken(_, ref ks) => ks@,
                                };
                                assert(program_spec(cur) == Parsed::<Seq<DefinitionV>>::Failed(self.rest(), ks));
                            }
                            return Err(e);
                        },
                    }
                },
                Some(TokenKind::Type) => {
                    let _ = self.consume_token();
                    match self.typedef() {
                        Ok(t) => Definition::Type(t),
                        Err(e) => {
                            proof {
                                let ks = match e {
                                    ParseErr::UnexpectedToken(_, ref ks) => ks@,
                                };
                                assert(program_spec(cur) == Parsed::<Seq<DefinitionV>>::Failed(self.rest(), ks));
                            }
                            return Err(e);
                        },
                    }
                },
                _ => {
                    let e = self.unexpected(vec![TokenKind::Let, TokenKind::Type]);
                    proof {
                        assert(program_spec(cur) == Parsed::<Seq<DefinitionV>>::Failed(
                            self.rest(), seq![TokenKind::Let, TokenKind::Type]));
                    }
                    return Err(e);
                },
            };
            let ghost dv = d@;
            proof {
                lemma_views_push(before, d);
                assert(program_spec(cur) == cons(dv, program_spec(self.rest())));
            }
            definitions.push(d);
            proof {
                match program_spec(self.rest()) {
                    Parsed::Done(more, r) => {
                        assert(views(definitions@) + more =~= views(before) + (seq![dv] + more));
                    },
                    Parsed::Failed(..) => {},
                }
            }
        }
        let to = self.consumed_token_span.end.clone();
        Ok(Program::new(definitions, from, to))
    }

    /// After `let`: `rec` if written, then definitions joined by `and`.
    #[verifier::spinoff_prover]
    fn letdef(&mut self) -> (r: ParseResult<Letdef>)
        requires
            old(self).wf(),
        ensures
            final(self).wf(),
            parsed(old(self).rest(), final(self).rest(), r),
            outcome(r, final(self).rest()) == letdef_spec(old(self).rest()),
        decreases old(self).rest().len(), 3nat,
    {
        proof {
            reveal(letdef_spec);
        }
        let ghost ts = self.rest();
        proof {
            lemma_skipped(ts);
        }
        let from = self.consumed_token_span.start.clone();
        let rec = self.accept(TokenKind::Rec).is_some();
        let defs = self.defs()?;
        proof {
            lemma_def_views_eq(defs@);
        }
        Ok(Letdef { rec, defs, span: self.span_from(from) })
    }

    /// One value definition: a constant or function, or a `mutable` variable or array.
    #[verifier::spinoff_prover]
    fn def(&mut self) -> (r: ParseResult<Def>)
        requires
            old(self).wf(),
        ensures
            final(self).wf(),
            parsed(old(self).rest(), final(self).rest(), r),
            outcome(r, final(self).rest()) == def_spec(old(self).rest()),
        decreases old(self).rest().len(), 1nat,
    {
        proof {
            reveal(def_spec);
        }
        let ghost ts = self.rest();
        proof {
            lemma_skipped(ts);
        }
        let k = self.peek_kind();
        match k {
            Some(TokenKind::IdLower) => {
                let token = self.consume_token().unwrap();
                let from = token.from.clone();
                let id = token.extract_string_value();
                let pars = self.pars()?;
                let type_ = self.annotation()?;
                self.expect(TokenKind::Eq)?;
                let expr = self.expr()?;
                proof {
                    lemma_par_views_eq(pars@);
                }
                let span = self.span_from(from);
                if pars.len() == 0 {
                    Ok(Def { id, type_, kind: DefKind::Const { expr }, span })
                } else {
                    Ok(Def { id, type_, kind: DefKind::Function { pars, expr }, span })
                }
            },
            Some(TokenKind::Mutable) => {
                let _ = self.consume_token();
                let from = self.consumed_token_span.start.clone();
                let id = self.expect(TokenKind::IdLower)?.extract_string_value();
                let dims = self.sizes()?;
                let type_ = match self.annotation()? {
                    Some(t) => Some(TypeAnnotation::Ref(Box::new(t))),
                    None => None,
                };
                proof {
                    lemma_expr_views_eq(dims@);
                }
                let span = self.span_from(from);
                if dims.len() == 0 {
                    Ok(Def { id, type_, kind: DefKind::Variable, span })
                } else {
                    Ok(Def { id, type_, kind: DefKind::Array { dims }, span })
                }
            },
            _ => Err(self.unexpected(vec![TokenKind::IdLower, TokenKind::Mutable])),
        }
    }

    /// The parameters of a function: parameters for as long as the next
    /// token is a name or `(`.
    #[verifier::spinoff_prover]
    fn pars(&mut self) -> (r: ParseResult<Vec<Par>>)
        requires
            old(self).wf(),
        ensures
            final(self).wf(),
            advanced(old(self).rest(), final(self).rest()),
            r matches Err(e) ==> reports_next(final(self).rest(), e),
            list_outcome(r, final(self).rest()) == pars_spec(old(self).rest()),
    {
        proof {
            reveal(pars_spec);
        }
        let ghost r0 = self.rest();
        let mut items: Vec<Par> = Vec::new();
        proof {
            assert(views(items@) =~= Seq::<ParV>::empty());
            assert(prepend_all(Seq::<ParV>::empty(), pars_spec(r0)) == pars_spec(r0)) by {
                match pars_spec(r0) {
                    Parsed::Done(more, r) => assert(Seq::<ParV>::empty() + more =~= more),
                    Parsed::Failed(..) => {},
                }
            }
        }
        loop
            invariant_except_break
                pars_spec(r0) == prepend_all(views(items@), pars_spec(self.rest())),
            invariant
                self.wf(),
                advanced(old(self).rest(), self.rest()),
                r0 == old(self).rest(),
            ensures
                self.wf(),
                advanced(old(self).rest(), self.rest()),
                pars_spec(r0) == Parsed::Done(views(items@), self.rest()),
            decreases self.rest().len(),
        {
            let ghost cur = self.rest();
            proof {
                reveal(pars_spec);
            }
            proof {
                lemma_skipped(cur);
            }
            let k = self.peek_kind();
            match k {
                Some(TokenKind::IdLower) | Some(TokenKind::LParen) => {
                    let item = match self.par() {
                        Ok(item) => item,
                        Err(e) => {
                            proof {
                                let ks = match e {
                                    ParseErr::UnexpectedToken(_, ref ks) => ks@,
                                };
                                assert(pars_spec(cur) == Parsed::<Seq<ParV>>::Failed(self.rest(), ks));
                            }
                            return Err(e);
                        },
                    };
                    let ghost iv = item@;
                    let ghost before = items@;
                    proof {
                        lemma_views_push(before, item);
                    }
                    items.push(item);
                    proof {
                        assert(pars_spec(cur) == cons(iv, pars_spec(self.rest())));
                        match pars_spec(self.rest()) {
                            Parsed::Done(more, r) => {
                                assert(views(items@) + more =~= views(before) + (seq![iv] + more));
                            },
                            Parsed::Failed(..) => {},
                        }
                    }
                },
                _ => {
                    proof {
                        assert(pars_spec(cur) == Parsed::<Seq<ParV>>::Done(Seq::empty(), self.rest()));
                        assert(views(items@) + Seq::<ParV>::empty() =~= views(items@));
                    }
                    break;
                },
            }
        }
        Ok(items)
    }

    /// A parameter: a name, or a name with its type in parentheses.
    #[verifier::spinoff_prover]
    fn par(&mut self) -> (r: ParseResult<Par>)
        requires
            old(self).wf(),
        ensures
            final(self).wf(),
            parsed(old(self).rest(), final(self).rest(), r),
            outcome(r, final(self).rest()) == par_spec(old(self).rest()),
    {
        proof {
            reveal(par_spec);
        }
        let ghost ts = self.rest();
        proof {
            lemma_skipped(ts);
        }
        let k = self.peek_kind();
        match k {
            Some(TokenKind::IdLower) => {
                let token = self.consume_token().unwrap();
                proof {
                    lemma_last_taken(ts, ts);
                }
                let span = Span::new(token.from.clone(), token.to.clone());
                Ok(Par { id: token.extract_string_value(), type_: None, span })
            },
            Some(TokenKind::LParen) => {
                let token = self.consume_token().unwrap();
                let id = self.expect(TokenKind::IdLower)?.extract_string_value();
                self.expect(TokenKind::Colon)?;
                let type_ = self.type_()?;
                self.expect(TokenKind::RParen)?;
                Ok(Par { id, type_: Some(type_), span: self.span_from(token.from) })
            },
            _ => Err(self.unexpected(vec![TokenKind::IdLower, TokenKind::LParen])),
        }
    }

    /// A type after `:`, if there is a `:`.
    #[verifier::spinoff_prover]
    fn annotation(&mut self) -> (r: ParseResult<Option<TypeAnnotation>>)
        requires
            old(self).wf(),
        ensures
            final(self).wf(),
            advanced(old(self).rest(), final(self).rest()),
            r matches Err(e) ==> reports_next(final(self).rest(), e),
            annotation_spec(old(self).rest()) == match r {
                Ok(t) => Parsed::Done(opt_type_view(t), final(self).rest()),
                Err(ParseErr::UnexpectedToken(_, ks)) => Parsed::Failed(final(self).rest(), ks@),
            },
    {
        proof {
            reveal(annotation_spec);
        }
        if self.accept(TokenKind::Colon).is_some() {
            Ok(Some(self.type_()?))
        } else {
            Ok(None)
        }
    }

    /// The sizes of a mutable array in brackets, if there is a `[`.
    #[verifier::spinoff_prover]
    fn sizes(&mut self) -> (r: ParseResult<Vec<Expr>>)
        requires
            old(self).wf(),
        ensures
            final(self).wf(),
            advanced(old(self).rest(), final(self).rest()),
            r matches Err(e) ==> reports_next(final(self).rest(), e),
            list_outcome(r, final(self).rest()) == sizes_spec(old(self).rest()),
        decreases old(self).rest().len(), 50nat,
    {
        proof {
            reveal(sizes_spec);
        }
        if self.accept(TokenKind::LBracket).is_some() {
            let dims = self.expr_list()?;
            self.expect(TokenKind::RBracket)?;
            Ok(dims)
        } else {
            let dims: Vec<Expr> = Vec::new();
            proof {
                assert(views(dims@) =~= Seq::<ExprV>::empty());
            }
            Ok(dims)
        }
    }

    /// After `type`: type definitions joined by `and`.
    #[verifier::spinoff_prover]
    fn typedef(&mut self) -> (r: ParseResult<Typedef>)
        requires
            old(self).wf(),
        ensures
            final(self).wf(),
            parsed(old(self).rest(), final(self).rest(), r),
            typedef_spec(old(self).rest()) == match r {
                Ok(t) => Parsed::Done(typedef_view(t), final(self).rest()),
                Err(ParseErr::UnexpectedToken(_, ks)) => Parsed::Failed(final(self).rest(), ks@),
            },
    {
        let from = self.consumed_token_span.start.clone();
        let tdefs = self.tdefs()?;
        let t = Typedef { tdefs, span: self.span_from(from) };
        proof {
            lemma_tdef_views_eq(t);
        }
        Ok(t)
    }

    /// One type definition: its name and its constructors, joined by `|`.
    #[verifier::spinoff_prover]
    fn tdef(&mut self) -> (r: ParseResult<TDef>)
        requires
            old(self).wf(),
        ensures
            final(self).wf(),
            parsed(old(self).rest(), final(self).rest(), r),
            outcome(r, final(self).rest()) == tdef_spec(old(self).rest()),
    {
        proof {
            reveal(tdef_spec);
        }
        let id = self.expect(TokenKind::IdLower)?;
        let from = id.from.clone();
        self.expect(TokenKind::Eq)?;
        let constrs = self.constrs()?;
        let t = TDef { id: id.extract_string_value(), constrs, span: self.span_from(from) };
        proof {
            lemma_constr_views_eq(t);
        }
        Ok(t)
    }

    /// A constructor, with the types of its arguments after `of`.
    #[verifier::spinoff_prover]
    fn constr(&mut self) -> (r: ParseResult<Constr>)
        requires
            old(self).wf(),
        ensures
            final(self).wf(),
            parsed(old(self).rest(), final(self).rest(), r),
            outcome(r, final(self).rest()) == constr_spec(old(self).rest()),
    {
        proof {
            reveal(constr_spec);
        }
        let id = self.expect(TokenKind::IdUpper)?.extract_string_value();
        let from = self.consumed_token_span.start.clone();
        let types = if self.accept(TokenKind::Of).is_some() {
            self.constr_types()?
        } else {
            Vec::new()
        };
        Ok(Constr { id, types, span: self.span_from(from) })
    }

    /// The types of a constructor's arguments, up to what ends a
    /// constructor.
    #[verifier::spinoff_prover]
    fn constr_types(&mut self) -> (r: ParseResult<Vec<TypeAnnotation>>)
        requires
            old(self).wf(),
        ensures
            final(self).wf(),
            parsed(old(self).rest(), final(self).rest(), r),
            constr_types_spec(old(self).rest()) == match r {
                Ok(v) => Parsed::Done(annotated_types(v@), final(self).rest()),
                Err(ParseErr::UnexpectedToken(_, ks)) => Parsed::Failed(final(self).rest(), ks@),
            },
    {
        proof {
            reveal(constr_types_spec);
        }
        let ghost r0 = self.rest();
        let mut types: Vec<TypeAnnotation> = Vec::new();
        proof {
            assert(annotated_types(types@) =~= Seq::<TypeV>::empty());
            assert(prepend_all(Seq::<TypeV>::empty(), constr_types_spec(r0)) == constr_types_spec(r0)) by {
                match constr_types_spec(r0) {
                    Parsed::Done(more, r) => assert(Seq::<TypeV>::empty() + more =~= more),
                    Parsed::Failed(..) => {},
                }
            }
        }
        loop
            invariant_except_break
                constr_types_spec(r0) == prepend_all(annotated_types(types@), constr_types_spec(self.rest())),
            invariant
                self.wf(),
                self.rest().len() <= old(self).rest().len(),
                advanced(old(self).rest(), self.rest()),
                r0 == old(self).rest(),
            ensures
                self.wf(),
                self.rest().len() < old(self).rest().len(),
                advanced(old(self).rest(), self.rest()),
                constr_types_spec(r0) == Parsed::Done(annotated_types(types@), self.rest()),
            decreases self.rest().len(),
        {
            let ghost cur = self.rest();
            proof {
                reveal(constr_types_spec);
            }
            let t = match self.type_() {
                Ok(t) => t,
                Err(e) => {
                    proof {
                        let ks = match e {
                            ParseErr::UnexpectedToken(_, ref ks) => ks@,
                        };
                        assert(constr_types_spec(cur) == Parsed::<Seq<TypeV>>::Failed(self.rest(), ks));
                    }
                    return Err(e);
                },
            };
            let ghost r1 = self.rest();
            let ghost tv = t@;
            let ghost before = types@;
            proof {
                lemma_skipped(r1);
                lemma_annotated_types_push(before, t);
            }
            types.push(t);
            let k = self.peek_kind();
            match k {
                Some(TokenKind::Bar) | Some(TokenKind::And) | Some(TokenKind::Let) | Some(TokenKind::Type)
                | Some(TokenKind::EOF) | None => {
                    proof {
                        assert(constr_types_spec(cur) == Parsed::Done(seq![tv], self.rest()));
                        assert(annotated_types(types@) =~= annotated_types(before) + seq![tv]);
                    }
                    break;
                },
                _ => {},
            }
            proof {
                assert(constr_types_spec(cur) == cons(tv, constr_types_spec(self.rest())));
                match constr_types_spec(self.rest()) {
                    Parsed::Done(more, r) => {
                        assert(annotated_types(types@) + more =~= annotated_types(before) + (seq![tv] + more));
                    },
                    Parsed::Failed(..) => {},
                }
            }
        }
        Ok(types)
    }
}

impl Parser {
    /// An expression.
    #[verifier::spinoff_prover]
    pub fn expr(&mut self) -> (r: ParseResult<Expr>)
        requires
            old(self).wf(),
        ensures
            final(self).wf(),
            parsed(old(self).rest(), final(self).rest(), r),
            outcome(r, final(self).rest()) == expr_spec(old(self).rest()),
        decreases old(self).rest().len(), 30nat,
    {
        proof {
            reveal(expr_spec);
        }
        self.expr0()
    }

    /// `let ... in` in front of an expression, any number of times.
    #[verifier::spinoff_prover]
    fn expr0(&mut self) -> (r: ParseResult<Expr>)
        requires
            old(self).wf(),
        ensures
            final(self).wf(),
            parsed(old(self).rest(), final(self).rest(), r),
            outcome(r, final(self).rest()) == expr0_spec(old(self).rest()),
        decreases old(self).rest().len(), 29nat,
    {
        proof {
            reveal(expr0_spec);
        }
        let ghost ts = self.rest();
        proof {
            lemma_skipped(ts);
        }
        if self.accept(TokenKind::Let).is_some() {
            let letdef = self.letdef()?;
            self.expect(TokenKind::In)?;
            let expr = self.expr0()?;
            let span = Span::new(letdef.span.start.clone(), expr.span.end.clone());
            Ok(Expr { span, kind: ExprKind::LetIn(LetIn { letdef, expr: Box::new(expr) }) })
        } else {
            self.expr1()
        }
    }

    /// Expressions in sequence, joined by `;`.
    #[verifier::spinoff_prover]
    fn expr1(&mut self) -> (r: ParseResult<Expr>)
        requires
            old(self).wf(),
        ensures
            final(self).wf(),
            parsed(old(self).rest(), final(self).rest(), r),
            outcome(r, final(self).rest()) == expr1_spec(old(self).rest()),
        decreases old(self).rest().len(), 28nat,
    {
        proof {
            reveal(expr1_spec); reveal(seq_tail_spec);
        }
        let ghost ts = self.rest();
        let mut lhs = self.expr2()?;
        loop
            invariant_except_break
                expr1_spec(ts) == seq_tail_spec(lhs@, self.rest()),
            invariant
                self.wf(),
                self.rest().len() < old(self).rest().len(),
                advanced(old(self).rest(), self.rest()),
                ts == old(self).rest(),
            ensures
                self.wf(),
                self.rest().len() < old(self).rest().len(),
                advanced(old(self).rest(), self.rest()),
                expr1_spec(ts) == Parsed::Done(lhs@, self.rest()),
            decreases self.rest().len(),
        {
            let ghost cur = self.rest();
            proof {
                reveal(expr1_spec); reveal(seq_tail_spec);
            }
            proof {
                lemma_skipped(cur);
            }
            let k = self.peek_kind();
            match k {
                Some(TokenKind::Semicolon) => {
                    let token = self.consume_token().unwrap();
                    let op = BinopKind::Semicolon;
                    let rhs = match self.expr() {
                        Ok(rhs) => rhs,
                        Err(e) => {
                            proof {
                                let ks = match e {
                                    ParseErr::UnexpectedToken(_, ref ks) => ks@,
                                };
                                assert(seq_tail_spec(lhs@, cur) == Parsed::<ExprV>::Failed(self.rest(), ks));
                            }
                            return Err(e);
                        },
                    };
                    lhs = Expr {
                        span: Span::new(lhs.span.start.clone(), rhs.span.end.clone()),
                        kind: ExprKind::Binop(Binop { lhs: Box::new(lhs), op: op, rhs: Box::new(rhs) }),
                    };
                },
                _ => {
                    proof {
                        assert(seq_tail_spec(lhs@, cur) == Parsed::Done(lhs@, self.rest()));
                    }
                    break;
                },
            }
        }
        Ok(lhs)
    }

    /// `if ... then ... else ...`, the `else` part optional.
    #[verifier::spinoff_prover]
    fn expr2(&mut self) -> (r: ParseResult<Expr>)
        requires
            old(self).wf(),
        ensures
            final(self).wf(),
            parsed(old(self).rest(), final(self).rest(), r),
            outcome(r, final(self).rest()) == expr2_spec(old(self).rest()),
        decreases old(self).rest().len(), 27nat,
    {
        proof {
            reveal(expr2_spec);
        }
        let ghost ts = self.rest();
        proof {
            lemma_skipped(ts);
        }
        if let Some(token) = self.accept(TokenKind::If) {
            let cond = Box::new(self.expr()?);
            self.expect(TokenKind::Then)?;
            let then_body = Box::new(self.expr()?);
            let else_body = if self.accept(TokenKind::Else).is_some() {
                Some(Box::new(self.expr()?))
            } else {
                None
            };
            let end = match &else_body {
                Some(e) => e.span.end.clone(),
                None => then_body.span.end.clone(),
            };
            Ok(Expr { span: Span::new(token.from, end), kind: ExprKind::If(If { cond, then_body, else_body }) })
        } else {
            self.expr3()
        }
    }

    /// Assignment with `:=`, associating to the right.
    #[verifier::spinoff_prover]
    fn expr3(&mut self) -> (r: ParseResult<Expr>)
        requires
            old(self).wf(),
        ensures
            final(self).wf(),
            parsed(old(self).rest(), final(self).rest(), r),
            outcome(r, final(self).rest()) == expr3_spec(old(self).rest()),
        decreases old(self).rest().len(), 26nat,
    {
        proof {
            reveal(expr3_spec);
        }
        let lhs = self.expr4()?;
        if self.accept(TokenKind::ColonEq).is_some() {
            let rhs = self.expr3()?;
            Ok(Expr {
                span: Span::new(lhs.span.start.clone(), rhs.span.end.clone()),
                kind: ExprKind::Binop(Binop { lhs: Box::new(lhs), op: BinopKind::Assign, rhs: Box::new(rhs) }),
            })
        } else {
            Ok(lhs)
        }
    }

    /// Disjunction with `||`, associating to the left.
    #[verifier::spinoff_prover]
    fn expr4(&mut self) -> (r: ParseResult<Expr>)
        requires
            old(self).wf(),
        ensures
            final(self).wf(),
            parsed(old(self).rest(), final(self).rest(), r),
            outcome(r, final(self).rest()) == expr4_spec(old(self).rest()),
        decreases old(self).rest().len(), 25nat,
    {
        proof {
            reveal(expr4_spec);
        }
        let exprs = self.or_list()?;
        proof {
            lemma_left_assoc_view(exprs@, BinopKind::Or);
        }
        Ok(Expr::left_assoc_from_vec(exprs, &TokenKind::DblBar))
    }

    /// Conjunction with `&&`, associating to the left.
    #[verifier::spinoff_prover]
    fn expr5(&mut self) -> (r: ParseResult<Expr>)
        requires
            old(self).wf(),
        ensures
            final(self).wf(),
            parsed(old(self).rest(), final(self).rest(), r),
            outcome(r, final(self).rest()) == expr5_spec(old(self).rest()),
        decreases old(self).rest().len(), 23nat,
    {
        proof {
            reveal(expr5_spec);
        }
        let exprs = self.and_list()?;
        proof {
            lemma_left_assoc_view(exprs@, BinopKind::And);
        }
        Ok(Expr::left_assoc_from_vec(exprs, &TokenKind::DblAmpersand))
    }

    /// One comparison, not chained.
    #[verifier::spinoff_prover]
    fn expr6(&mut self) -> (r: ParseResult<Expr>)
        requires
            old(self).wf(),
        ensures
            final(self).wf(),
            parsed(old(self).rest(), final(self).rest(), r),
            outcome(r, final(self).rest()) == expr6_spec(old(self).rest()),
        decreases old(self).rest().len(), 21nat,
    {
        proof {
            reveal(expr6_spec);
        }
        let lhs = self.expr7()?;
        let ghost r1 = self.rest();
        proof {
            lemma_skipped(r1);
        }
        let k = self.peek_kind();
        match k {
            Some(TokenKind::Eq) | Some(TokenKind::LtGt) | Some(TokenKind::Lt) | Some(TokenKind::Gt)
            | Some(TokenKind::LEq) | Some(TokenKind::GEq) | Some(TokenKind::DblEq) | Some(TokenKind::ExclamEq) => {
                let token = self.consume_token().unwrap();
                let op = BinopKind::from_token_kind(&token.kind);
                let rhs = self.expr7()?;
                Ok(Expr {
                    span: Span::new(lhs.span.start.clone(), rhs.span.end.clone()),
                    kind: ExprKind::Binop(Binop { lhs: Box::new(lhs), op: op, rhs: Box::new(rhs) }),
                })
            },
            _ => Ok(lhs),
        }
    }

    /// Addition and subtraction, associating to the left.
    #[verifier::spinoff_prover]
    fn expr7(&mut self) -> (r: ParseResult<Expr>)
        requires
            old(self).wf(),
        ensures
            final(self).wf(),
            parsed(old(self).rest(), final(self).rest(), r),
            outcome(r, final(self).rest()) == expr7_spec(old(self).rest()),
        decreases old(self).rest().len(), 20nat,
    {
        proof {
            reveal(expr7_spec); reveal(add_tail_spec);
        }
        let ghost ts = self.rest();
        let mut lhs = self.expr8()?;
        loop
            invariant_except_break
                expr7_spec(ts) == add_tail_spec(lhs@, self.rest()),
            invariant
                self.wf(),
                self.rest().len() < old(self).rest().len(),
                advanced(old(self).rest(), self.rest()),
                ts == old(self).rest(),
            ensures
                self.wf(),
                self.rest().len() < old(self).rest().len(),
                advanced(old(self).rest(), self.rest()),
                expr7_spec(ts) == Parsed::Done(lhs@, self.rest()),
            decreases self.rest().len(),
        {
            let ghost cur = self.rest();
            proof {
                reveal(expr7_spec); reveal(add_tail_spec);
            }
            proof {
                lemma_skipped(cur);
            }
            let k = self.peek_kind();
            match k {
                Some(TokenKind::Plus) | Some(TokenKind::Minus) => {
                    let token = self.consume_token().unwrap();
                    let op = BinopKind::from_token_kind(&token.kind);
                    let rhs = match self.expr8() {
                        Ok(rhs) => rhs,
                        Err(e) => {
                            proof {
                                let ks = match e {
                                    ParseErr::UnexpectedToken(_, ref ks) => ks@,
                                };
                                assert(add_tail_spec(lhs@, cur) == Parsed::<ExprV>::Failed(self.rest(), ks));
                            }
                            return Err(e);
                        },
                    };
                    lhs = Expr {
                        span: Span::new(lhs.span.start.clone(), rhs.span.end.clone()),
                        kind: ExprKind::Binop(Binop { lhs: Box::new(lhs), op: op, rhs: Box::new(rhs) }),
                    };
                },
                _ => {
                    proof {
                        assert(add_tail_spec(lhs@, cur) == Parsed::Done(lhs@, self.rest()));
                    }
                    break;
                },
            }
        }
        Ok(lhs)
    }

    /// Multiplication, division and `mod`, associating to the left.
    #[verifier::spinoff_prover]
    fn expr8(&mut self) -> (r: ParseResult<Expr>)
        requires
            old(self).wf(),
        ensures
            final(self).wf(),
            parsed(old(self).rest(), final(self).rest(), r),
            outcome(r, final(self).rest()) == expr8_spec(old(self).rest()),
        decreases old(self).rest().len(), 19nat,
    {
        proof {
            reveal(expr8_spec); reveal(mul_tail_spec);
        }
        let ghost ts = self.rest();
        let mut lhs = self.expr9()?;
        loop
            invariant_except_break
                expr8_spec(ts) == mul_tail_spec(lhs@, self.rest()),
            invariant
                self.wf(),
                self.rest().len() < old(self).rest().len(),
                advanced(old(self).rest(), self.rest()),
                ts == old(self).rest(),
            ensures
                self.wf(),
                self.rest().len() < old(self).rest().len(),
                advanced(old(self).rest(), self.rest()),
                expr8_spec(ts) == Parsed::Done(lhs@, self.rest()),
            decreases self.rest().len(),
        {
            let ghost cur = self.rest();
            proof {
                reveal(expr8_spec); reveal(mul_tail_spec);
            }
            proof {
                lemma_skipped(cur);
            }
            let k = self.peek_kind();
            match k {
                Some(TokenKind::Star) | Some(TokenKind::Slash) | Some(TokenKind::Mod) => {
                    let token = self.consume_token().unwrap();
                    let op = BinopKind::from_token_kind(&token.kind);
                    let rhs = match self.expr9() {
                        Ok(rhs) => rhs,
                        Err(e) => {
                            proof {
                                let ks = match e {
                                    ParseErr::UnexpectedToken(_, ref ks) => ks@,
                                };
                                assert(mul_tail_spec(lhs@, cur) == Parsed::<ExprV>::Failed(self.rest(), ks));
                            }
                            return Err(e);
                        },
                    };
                    lhs = Expr {
                        span: Span::new(lhs.span.start.clone(), rhs.span.end.clone()),
                        kind: ExprKind::Binop(Binop { lhs: Box::new(lhs), op: op, rhs: Box::new(rhs) }),
                    };
                },
                _ => {
                    proof {
                        assert(mul_tail_spec(lhs@, cur) == Parsed::Done(lhs@, self.rest()));
                    }
                    break;
                },
            }
        }
        Ok(lhs)
    }

    /// Exponentiation with `**`, associating to the right.
    #[verifier::spinoff_prover]
    fn expr9(&mut self) -> (r: ParseResult<Expr>)
        requires
            old(self).wf(),
        ensures
            final(self).wf(),
            parsed(old(self).rest(), final(self).rest(), r),
            outcome(r, final(self).rest()) == expr9_spec(old(self).rest()),
        decreases old(self).rest().len(), 18nat,
    {
        proof {
            reveal(expr9_spec);
        }
        let lhs = self.expr10()?;
        if self.accept(TokenKind::DblStar).is_some() {
            let rhs = self.expr9()?;
            Ok(Expr {
                span: Span::new(lhs.span.start.clone(), rhs.span.end.clone()),
                kind: ExprKind::Binop(Binop { lhs: Box::new(lhs), op: BinopKind::Pow, rhs: Box::new(rhs) }),
            })
        } else {
            Ok(lhs)
        }
    }

    /// Prefix `+`, `-`, `not` and `delete`, any number of them.
    #[verifier::spinoff_prover]
    fn expr10(&mut self) -> (r: ParseResult<Expr>)
        requires
            old(self).wf(),
        ensures
            final(self).wf(),
            parsed(old(self).rest(), final(self).rest(), r),
            outcome(r, final(self).rest()) == expr10_spec(old(self).rest()),
        decreases old(self).rest().len(), 17nat,
    {
        proof {
            reveal(expr10_spec);
        }
        let ghost ts = self.rest();
        proof {
            lemma_skipped(ts);
        }
        let k = self.peek_kind();
        match k {
            Some(TokenKind::Plus) | Some(TokenKind::Minus) | Some(TokenKind::Not) | Some(TokenKind::Delete) => {
                let token = self.consume_token().unwrap();
                let op = UnopKind::from_token_kind(&token.kind);
                let e = self.expr10()?;
                let span = Span::new(token.from.clone(), e.span.end.clone());
                Ok(Expr { span, kind: ExprKind::Unop(Unop { op, operand: Box::new(e) }) })
            },
            _ => self.expr11(),
        }
    }

    /// Dereferences with `!`, array accesses, calls and constructor calls.
    #[verifier::spinoff_prover]
    fn expr11(&mut self) -> (r: ParseResult<Expr>)
        requires
            old(self).wf(),
        ensures
            final(self).wf(),
            parsed(old(self).rest(), final(self).rest(), r),
            outcome(r, final(self).rest()) == expr11_spec(old(self).rest()),
        decreases old(self).rest().len(), 16nat,
    {
        proof {
            reveal(expr11_spec);
        }
        let ghost ts = self.rest();
        proof {
            lemma_skipped(ts);
        }
        if let Some(token) = self.accept(TokenKind::Exclam) {
            let e = self.deref_tail()?;
            let span = Span::new(token.from.clone(), e.span.end.clone());
            Ok(Expr { span, kind: ExprKind::Unop(Unop { op: UnopKind::Deref, operand: Box::new(e) }) })
        } else if let Some(token) = self.accept(TokenKind::IdLower) {
            let ghost r0 = self.rest();
            proof {
                lemma_skipped(r0);
            }
            if self.accept(TokenKind::LBracket).is_some() {
                self.array_access(token)
            } else {
                let from = token.from.clone();
                let id = token.extract_string_value();
                let args = self.call_args()?;
                proof {
                    lemma_expr_views_eq(args@);
                }
                Ok(Expr { span: self.span_from(from), kind: ExprKind::Call(Call { id, args }) })
            }
        } else if let Some(token) = self.accept(TokenKind::IdUpper) {
            let from = token.from.clone();
            let id = token.extract_string_value();
            let args = self.call_args()?;
            proof {
                lemma_expr_views_eq(args@);
            }
            Ok(Expr { span: self.span_from(from), kind: ExprKind::ConstrCall(Call { id, args }) })
        } else {
            self.expr_primary()
        }
    }

    /// What follows a `!`: more `!`, then their operand.
    #[verifier::spinoff_prover]
    fn deref_tail(&mut self) -> (r: ParseResult<Expr>)
        requires
            old(self).wf(),
        ensures
            final(self).wf(),
            parsed(old(self).rest(), final(self).rest(), r),
            outcome(r, final(self).rest()) == deref_tail_spec(old(self).rest()),
        decreases old(self).rest().len(), 12nat,
    {
        proof {
            reveal(deref_tail_spec);
        }
        let ghost ts = self.rest();
        proof {
            lemma_skipped(ts);
        }
        if let Some(token) = self.accept(TokenKind::Exclam) {
            let e = self.deref_tail()?;
            let span = Span::new(token.from.clone(), e.span.end.clone());
            Ok(Expr { span, kind: ExprKind::Unop(Unop { op: UnopKind::Deref, operand: Box::new(e) }) })
        } else {
            self.deref_operand()
        }
    }

    /// The operand of the last `!`: a name, an array access, or a primary expression.
    #[verifier::spinoff_prover]
    fn deref_operand(&mut self) -> (r: ParseResult<Expr>)
        requires
            old(self).wf(),
        ensures
            final(self).wf(),
            parsed(old(self).rest(), final(self).rest(), r),
            outcome(r, final(self).rest()) == deref_operand_spec(old(self).rest()),
        decreases old(self).rest().len(), 11nat,
    {
        proof {
            reveal(deref_operand_spec);
        }
        let ghost ts = self.rest();
        proof {
            lemma_skipped(ts);
        }
        if let Some(token) = self.accept(TokenKind::IdLower) {
            let ghost r0 = self.rest();
            proof {
                lemma_skipped(r0);
            }
            if self.accept(TokenKind::LBracket).is_some() {
                self.array_access(token)
            } else {
                let span = Span::new(token.from.clone(), token.to.clone());
                let args: Vec<Expr> = Vec::new();
                proof {
                    assert(expr_views(args@) =~= Seq::<ExprV>::empty());
                }
                Ok(Expr { span, kind: ExprKind::Call(Call { id: token.extract_string_value(), args }) })
            }
        } else {
            self.expr_primary()
        }
    }

    /// The indexes of an array access, after the name and `[`, then `]`.
    #[verifier::spinoff_prover]
    fn array_access(&mut self, id: Token) -> (r: ParseResult<Expr>)
        requires
            old(self).wf(),
            id.value is String,
        ensures
            final(self).wf(),
            parsed(old(self).rest(), final(self).rest(), r),
            outcome(r, final(self).rest()) == array_access_spec(token_text(id), old(self).rest()),
        decreases old(self).rest().len(), 41nat,
    {
        proof {
            reveal(array_access_spec);
        }
        let indexes = self.expr_list()?;
        let to = self.expect(TokenKind::RBracket)?.to;
        proof {
            lemma_expr_views_eq(indexes@);
        }
        let span = Span::new(id.from.clone(), to);
        Ok(Expr { span, kind: ExprKind::ArrayAccess(ArrayAccess { id: id.extract_string_value(), indexes }) })
    }

    /// The arguments of a call, after the name: arguments for as long as
    /// the next token can start one.
    #[verifier::spinoff_prover]
    fn call_args(&mut self) -> (r: ParseResult<Vec<Expr>>)
        requires
            old(self).wf(),
        ensures
            final(self).wf(),
            advanced(old(self).rest(), final(self).rest()),
            r matches Err(e) ==> reports_next(final(self).rest(), e),
            list_outcome(r, final(self).rest()) == call_args_spec(old(self).rest()),
        decreases old(self).rest().len(), 31nat,
    {
        proof {
            reveal(call_args_spec);
        }
        let ghost r0 = self.rest();
        let mut items: Vec<Expr> = Vec::new();
        proof {
            assert(views(items@) =~= Seq::<ExprV>::empty());
            assert(prepend_all(Seq::<ExprV>::empty(), call_args_spec(r0)) == call_args_spec(r0)) by {
                match call_args_spec(r0) {
                    Parsed::Done(more, r) => assert(Seq::<ExprV>::empty() + more =~= more),
                    Parsed::Failed(..) => {},
                }
            }
        }
        loop
            invariant_except_break
                call_args_spec(r0) == prepend_all(views(items@), call_args_spec(self.rest())),
            invariant
                self.wf(),
                advanced(old(self).rest(), self.rest()),
                r0 == old(self).rest(),
            ensures
                self.wf(),
                advanced(old(self).rest(), self.rest()),
                call_args_spec(r0) == Parsed::Done(views(items@), self.rest()),
            decreases self.rest().len(),
        {
            let ghost cur = self.rest();
            proof {
                reveal(call_args_spec);
            }
            proof {
                lemma_skipped(cur);
            }
            let k = self.peek_kind();
            match k {
                Some(TokenKind::IdLower) | Some(TokenKind::IdUpper) | Some(TokenKind::Exclam)
                | Some(TokenKind::IntLiteral) | Some(TokenKind::FloatLiteral) | Some(TokenKind::CharLiteral)
                | Some(TokenKind::StringLiteral) | Some(TokenKind::True) | Some(TokenKind::False)
                | Some(TokenKind::LParen) | Some(TokenKind::Dim) | Some(TokenKind::New) | Some(TokenKind::Begin)
                | Some(TokenKind::While) | Some(TokenKind::For) | Some(TokenKind::Match) => {
                    proof {
                        assert(arg_starters().contains(k->0));
                    }
                    let item = match self.expr11() {
                        Ok(item) => item,
                        Err(e) => {
                            proof {
                                let ks = match e {
                                    ParseErr::UnexpectedToken(_, ref ks) => ks@,
                                };
                                assert(call_args_spec(cur) == Parsed::<Seq<ExprV>>::Failed(self.rest(), ks));
                            }
                            return Err(e);
                        },
                    };
                    let ghost iv = item@;
                    let ghost before = items@;
                    proof {
                        lemma_views_push(before, item);
                    }
                    items.push(item);
                    proof {
                        assert(call_args_spec(cur) == cons(iv, call_args_spec(self.rest())));
                        match call_args_spec(self.rest()) {
                            Parsed::Done(more, r) => {
                                assert(views(items@) + more =~= views(before) + (seq![iv] + more));
                            },
                            Parsed::Failed(..) => {},
                        }
                    }
                },
                _ => {
                    proof {
                        assert(call_args_spec(cur) == Parsed::<Seq<ExprV>>::Done(Seq::empty(), self.rest()));
                        assert(views(items@) + Seq::<ExprV>::empty() =~= views(items@));
                    }
                    break;
                },
            }
        }
        Ok(items)
    }

    /// A literal, a parenthesised expression or tuple, `dim`, `new`, `begin ... end`, a loop or a `match`.
    #[verifier::spinoff_prover]
    fn expr_primary(&mut self) -> (r: ParseResult<Expr>)
        requires
            old(self).wf(),
        ensures
            final(self).wf(),
            parsed(old(self).rest(), final(self).rest(), r),
            outcome(r, final(self).rest()) == expr_primary_spec(old(self).rest()),
            r is Ok && next_kind(old(self).rest()) is Some && spans_own_tokens(next_kind(old(self).rest())->0)
                ==> spans_tokens(old(self).rest(), final(self).rest().len(), r->Ok_0.span),
        decreases old(self).rest().len(), 10nat,
    {
        proof {
            reveal(expr_primary_spec);
        }
        let ghost ts = self.rest();
        proof {
            lemma_skipped(ts);
        }
        let k = self.peek_kind();
        match k {
            Some(TokenKind::IntLiteral) | Some(TokenKind::FloatLiteral) | Some(TokenKind::CharLiteral)
            | Some(TokenKind::StringLiteral) | Some(TokenKind::True) | Some(TokenKind::False) => {
                let token = self.consume_token().unwrap();
                let ghost tok = token;
                let e = Expr::from_literal(token);
                proof {
                    assert(e@ == literal_value(tok));
                    lemma_last_taken(ts, ts);
                }
                Ok(e)
            },
            Some(TokenKind::LParen) => {
                let token = self.consume_token().unwrap();
                let ghost r0 = self.rest();
                proof {
                    lemma_skipped(r0);
                }
                proof {
                    lemma_last_taken(ts, ts);
                }
                if let Some(rparen) = self.accept(TokenKind::RParen) {
                    proof {
                        lemma_last_taken(ts, r0);
                    }
                    Ok(Expr { span: Span::new(token.from, rparen.to), kind: ExprKind::UnitLiteral })
                } else {
                    let exprs = self.expr_list()?;
                    let ghost es = exprs@;
                    proof {
                        lemma_expr_views_eq(es);
                        lemma_expr_views(es);
                    }
                    let mut expr = Expr::maybe_tuple(exprs);
                    let ghost mid = self.rest();
                    proof {
                        lemma_advanced_trans(ts, r0, mid);
                        if next_kind(mid) is Some {
                            lemma_last_taken(ts, mid);
                        }
                    }
                    let to = self.expect(TokenKind::RParen)?.to;
                    expr.span = Span::new(token.from, to);
                    Ok(expr)
                }
            },
            Some(TokenKind::Dim) => {
                let token = self.consume_token().unwrap();
                let ghost r0 = self.rest();
                proof {
                    lemma_skipped(r0);
                }
                let dim = match self.accept(TokenKind::IntLiteral) {
                    Some(t) => t.extract_int_value(),
                    None => 1,
                };
                let ghost mid = self.rest();
                proof {
                    lemma_last_taken(ts, ts);
                    lemma_advanced_trans(ts, r0, mid);
                    if next_kind(mid) is Some {
                        lemma_last_taken(ts, mid);
                    }
                }
                let id = self.expect(TokenKind::IdLower)?;
                let span = Span::new(token.from, id.to.clone());
                Ok(Expr { span, kind: ExprKind::Dim(Dim { id: id.extract_string_value(), dim }) })
            },
            Some(TokenKind::New) => {
                let token = self.consume_token().unwrap();
                let t = self.type_()?;
                Ok(Expr { span: self.span_from(token.from), kind: ExprKind::New(t) })
            },
            Some(TokenKind::Begin) => {
                let token = self.consume_token().unwrap();
                let ghost r0 = self.rest();
                proof {
                    lemma_last_taken(ts, ts);
                }
                let mut expr = self.expr()?;
                let ghost mid = self.rest();
                proof {
                    lemma_advanced_trans(ts, r0, mid);
                    if next_kind(mid) is Some {
                        lemma_last_taken(ts, mid);
                    }
                }
                let to = self.expect(TokenKind::End)?.to;
                expr.span = Span::new(token.from, to);
                Ok(expr)
            },
            Some(TokenKind::While) => {
                let token = self.consume_token().unwrap();
                self.while_(token.from)
            },
            Some(TokenKind::For) => {
                let token = self.consume_token().unwrap();
                self.for_(token.from)
            },
            Some(TokenKind::Match) => {
                let token = self.consume_token().unwrap();
                self.match_(token.from)
            },
            _ => Err(self.unexpected(vec![
                TokenKind::IntLiteral, TokenKind::FloatLiteral, TokenKind::CharLiteral, TokenKind::StringLiteral,
                TokenKind::True, TokenKind::False, TokenKind::LParen, TokenKind::Dim, TokenKind::New,
                TokenKind::Begin, TokenKind::While, TokenKind::For, TokenKind::Match,
            ])),
        }
    }

    /// After `while`: the condition, `do`, the body and `done`.
    #[verifier::spinoff_prover]
    fn while_(&mut self, from: Position) -> (r: ParseResult<Expr>)
        requires
            old(self).wf(),
        ensures
            final(self).wf(),
            parsed(old(self).rest(), final(self).rest(), r),
            outcome(r, final(self).rest()) == while_spec(old(self).rest()),
        decreases old(self).rest().len(), 45nat,
    {
        proof {
            reveal(while_spec);
        }
        let cond = Box::new(self.expr()?);
        self.expect(TokenKind::Do)?;
        let body = Box::new(self.expr()?);
        let to = self.expect(TokenKind::Done)?.to;
        Ok(Expr { span: Span::new(from, to), kind: ExprKind::While(While { cond, body }) })
    }

    /// After `for`: the name, `=`, the bounds joined by `to` or `downto`, `do`, the body and `done`.
    #[verifier::spinoff_prover]
    fn for_(&mut self, from: Position) -> (r: ParseResult<Expr>)
        requires
            old(self).wf(),
        ensures
            final(self).wf(),
            parsed(old(self).rest(), final(self).rest(), r),
            outcome(r, final(self).rest()) == for_spec(old(self).rest()),
        decreases old(self).rest().len(), 45nat,
    {
        proof {
            reveal(for_spec);
        }
        let ghost ts = self.rest();
        proof {
            lemma_skipped(ts);
        }
        let id = self.expect(TokenKind::IdLower)?.extract_string_value();
        let ghost r0 = self.rest();
        proof {
            lemma_skipped(r0);
        }
        self.expect(TokenKind::Eq)?;
        let start = Box::new(self.expr()?);
        let ghost r1 = self.rest();
        proof {
            lemma_skipped(r1);
        }
        let k = self.peek_kind();
        let ascending = match k {
            Some(TokenKind::To) => {
                let _ = self.consume_token();
                true
            },
            Some(TokenKind::Downto) => {
                let _ = self.consume_token();
                false
            },
            _ => return Err(self.unexpected(vec![TokenKind::To, TokenKind::Downto])),
        };
        let end = Box::new(self.expr()?);
        self.expect(TokenKind::Do)?;
        let body = Box::new(self.expr()?);
        let span_to = self.expect(TokenKind::Done)?.to;
        Ok(Expr {
            span: Span::new(from, span_to),
            kind: ExprKind::For(For { id, from: start, ascending, to: end, body }),
        })
    }

    /// After `match`: the expression, `with`, the clauses joined by `|`, and `end`.
    #[verifier::spinoff_prover]
    fn match_(&mut self, from: Position) -> (r: ParseResult<Expr>)
        requires
            old(self).wf(),
        ensures
            final(self).wf(),
            parsed(old(self).rest(), final(self).rest(), r),
            outcome(r, final(self).rest()) == match_spec(old(self).rest()),
        decreases old(self).rest().len(), 45nat,
    {
        proof {
            reveal(match_spec);
        }
        let to_match = Box::new(self.expr()?);
        self.expect(TokenKind::With)?;
        let clauses = self.clauses()?;
        let to = self.expect(TokenKind::End)?.to;
        proof {
            lemma_clause_views_eq(clauses@);
        }
        Ok(Expr { span: Span::new(from, to), kind: ExprKind::Match(Match { to_match, clauses }) })
    }

    /// A clause of a `match`: a pattern, `->` and an expression.
    #[verifier::spinoff_prover]
    fn clause(&mut self) -> (r: ParseResult<Clause>)
        requires
            old(self).wf(),
        ensures
            final(self).wf(),
            parsed(old(self).rest(), final(self).rest(), r),
            outcome(r, final(self).rest()) == clause_spec(old(self).rest()),
        decreases old(self).rest().len(), 2nat,
    {
        proof {
            reveal(clause_spec);
        }
        let pattern = self.pattern()?;
        self.expect(TokenKind::Arrow)?;
        let expr = self.expr()?;
        Ok(Clause { pattern, expr })
    }

}

/// What can be turned into a parser.
pub trait IntoParser: Sized {
    /// Whether the parser can be made.
    spec fn parsable(&self) -> bool;

    fn into_parser(self) -> (r: Parser)
        requires
            self.parsable(),
    ;
}

impl IntoParser for Vec<Token> {
    open spec fn parsable(&self) -> bool {
        tokens_ok(self@) && self@.len() < u32::MAX
    }

    /// The parser over these tokens, in order.
    fn into_parser(self) -> (r: Parser)
        ensures
            r.wf(),
            r.rest() == self@.reverse(),
    {
        Parser::new(self)
    }
}

} // verus!
