use vstd::prelude::*;
use crate::lex::token::{Position, Token, TokenKind, TokenValue, spelling};
use super::annotation::TypeAnnotation;
use super::def::Letdef;
use super::Span;

verus! {

/// The unary operators.
#[derive(Debug, Clone, Copy, PartialEq, Eq, Structural)]
pub enum UnopKind {
    Plus,
    Minus,
    Deref,
    Not,
    Delete,
}

/// The binary operators.
#[derive(Debug, Clone, Copy, PartialEq, Eq, Structural)]
pub enum BinopKind {
    Add,
    Sub,
    Mul,
    Div,
    Mod,
    Pow,
    StrEq,
    StrNotEq,
    NatEq,
    NatNotEq,
    Lt,
    Gt,
    LEq,
    GEq,
    And,
    Or,
    Semicolon,
    Assign,
}

/// `dim` of an array: which dimension's size is asked for.
#[derive(Debug)]
pub struct Dim {
    pub id: String,
    pub dim: i32,
}

/// The unary operator a token stands for, if any.
pub open spec fn unop_of(k: TokenKind) -> Option<UnopKind> {
    match k {
        TokenKind::Plus => Some(UnopKind::Plus),
        TokenKind::Minus => Some(UnopKind::Minus),
        TokenKind::Exclam => Some(UnopKind::Deref),
        TokenKind::Not => Some(UnopKind::Not),
        TokenKind::Delete => Some(UnopKind::Delete),
        _ => None,
    }
}

/// The binary operator a token stands for, if any.
pub open spec fn binop_of(k: TokenKind) -> Option<BinopKind> {
    match k {
        TokenKind::Plus => Some(BinopKind::Add),
        TokenKind::Minus => Some(BinopKind::Sub),
        TokenKind::Star => Some(BinopKind::Mul),
        TokenKind::Slash => Some(BinopKind::Div),
        TokenKind::Mod => Some(BinopKind::Mod),
        TokenKind::DblStar => Some(BinopKind::Pow),
        TokenKind::Eq => Some(BinopKind::StrEq),
        TokenKind::LtGt => Some(BinopKind::StrNotEq),
        TokenKind::DblEq => Some(BinopKind::NatEq),
        TokenKind::ExclamEq => Some(BinopKind::NatNotEq),
        TokenKind::Lt => Some(BinopKind::Lt),
        TokenKind::Gt => Some(BinopKind::Gt),
        TokenKind::LEq => Some(BinopKind::LEq),
        TokenKind::GEq => Some(BinopKind::GEq),
        TokenKind::DblAmpersand => Some(BinopKind::And),
        TokenKind::DblBar => Some(BinopKind::Or),
        TokenKind::Semicolon => Some(BinopKind::Semicolon),
        TokenKind::ColonEq => Some(BinopKind::Assign),
        _ => None,
    }
}

impl UnopKind {
    /// The unary operator a token stands for.
    pub fn from_token_kind(token_kind: &TokenKind) -> (r: Self)
        requires
            unop_of(*token_kind) is Some,
        ensures
            unop_of(*token_kind) == Some(r),
    {
        match token_kind {
            TokenKind::Plus => UnopKind::Plus,
            TokenKind::Minus => UnopKind::Minus,
            TokenKind::Exclam => UnopKind::Deref,
            TokenKind::Not => UnopKind::Not,
            _ => UnopKind::Delete,
        }
    }
}

impl BinopKind {
    /// The binary operator a token stands for.
    pub fn from_token_kind(token_kind: &TokenKind) -> (r: Self)
        requires
            binop_of(*token_kind) is Some,
        ensures
            binop_of(*token_kind) == Some(r),
    {
        match token_kind {
            TokenKind::Plus => BinopKind::Add,
            TokenKind::Minus => BinopKind::Sub,
            TokenKind::Star => BinopKind::Mul,
            TokenKind::Slash => BinopKind::Div,
            TokenKind::Mod => BinopKind::Mod,
            TokenKind::DblStar => BinopKind::Pow,
            TokenKind::Eq => BinopKind::StrEq,
            TokenKind::LtGt => BinopKind::StrNotEq,
            TokenKind::DblEq => BinopKind::NatEq,
            TokenKind::ExclamEq => BinopKind::NatNotEq,
            TokenKind::Lt => BinopKind::Lt,
            TokenKind::Gt => BinopKind::Gt,
            TokenKind::LEq => BinopKind::LEq,
            TokenKind::GEq => BinopKind::GEq,
            TokenKind::DblAmpersand => BinopKind::And,
            TokenKind::DblBar => BinopKind::Or,
            TokenKind::Semicolon => BinopKind::Semicolon,
            _ => BinopKind::Assign,
        }
    }
}

/// The kinds of expressions. A float literal keeps its decimal text.
#[derive(Debug)]
pub enum ExprKind {
    UnitLiteral,
    IntLiteral(i32),
    FloatLiteral(String),
    CharLiteral(u8),
    StringLiteral(String),
    BoolLiteral(bool),
    Tuple(Vec<Expr>),
    Unop(Unop),
    Binop(Binop),
    Call(Call),
    ConstrCall(Call),
    ArrayAccess(ArrayAccess),
    Dim(Dim),
    New(TypeAnnotation),
    LetIn(LetIn),
    If(If),
    While(While),
    For(For),
    Match(Match),
}

/// An expression and where it was written.
#[derive(Debug)]
pub struct Expr {
    pub kind: ExprKind,
    pub span: Span,
}

#[derive(Debug)]
pub struct Unop {
    pub op: UnopKind,
    pub operand: Box<Expr>,
}

#[derive(Debug)]
pub struct Binop {
    pub lhs: Box<Expr>,
    pub op: BinopKind,
    pub rhs: Box<Expr>,
}

#[derive(Debug)]
pub struct Call {
    pub id: String,
    pub args: Vec<Expr>,
}

#[derive(Debug)]
pub struct ArrayAccess {
    pub id: String,
    pub indexes: Vec<Expr>,
}

#[derive(Debug)]
pub struct LetIn {
    pub letdef: Letdef,
    pub expr: Box<Expr>,
}

#[derive(Debug)]
pub struct If {
    pub cond: Box<Expr>,
    pub then_body: Box<Expr>,
    pub else_body: Option<Box<Expr>>,
}

#[derive(Debug)]
pub struct While {
    pub cond: Box<Expr>,
    pub body: Box<Expr>,
}

#[derive(Debug)]
pub struct For {
    pub id: String,
    pub from: Box<Expr>,
    pub ascending: bool,
    pub to: Box<Expr>,
    pub body: Box<Expr>,
}

#[derive(Debug)]
pub struct Match {
    pub to_match: Box<Expr>,
    pub clauses: Vec<Clause>,
}

#[derive(Debug)]
pub struct Clause {
    pub pattern: Pattern,
    pub expr: Expr,
}

/// A pattern and where it was written. A float literal keeps its decimal
/// text.
#[derive(Debug)]
pub struct Pattern {
    pub kind: PatternKind,
    pub span: Span,
}

#[derive(Debug)]
pub enum PatternKind {
    IntLiteral(i32),
    FloatLiteral(String),
    CharLiteral(u8),
    StringLiteral(String),
    BoolLiteral(bool),
    IdLower(String),
    Tuple(Vec<Pattern>),
    IdUpper { id: String, args: Vec<Pattern> },
}


/// A pattern as a value, without where it was written.
pub enum PatternV {
    Int(int),
    Float(Seq<char>),
    Char(u8),
    Str(Seq<char>),
    Bool(bool),
    Name(Seq<char>),
    Tuple(Seq<PatternV>),
    Constr(Seq<char>, Seq<PatternV>),
}

pub open spec fn pattern_view(p: Pattern) -> PatternV
    decreases p,
{
    match p.kind {
        PatternKind::IntLiteral(i) => PatternV::Int(i as int),
        PatternKind::FloatLiteral(f) => PatternV::Float(f@),
        PatternKind::CharLiteral(c) => PatternV::Char(c),
        PatternKind::StringLiteral(s) => PatternV::Str(s@),
        PatternKind::BoolLiteral(b) => PatternV::Bool(b),
        PatternKind::IdLower(id) => PatternV::Name(id@),
        PatternKind::Tuple(ps) => PatternV::Tuple(pattern_views(ps@)),
        PatternKind::IdUpper { id, args } => PatternV::Constr(id@, pattern_views(args@)),
    }
}

pub open spec fn pattern_views(ps: Seq<Pattern>) -> Seq<PatternV>
    decreases ps,
{
    if ps.len() == 0 {
        Seq::empty()
    } else {
        proof {
            assert(decreases_to!(ps => ps.subrange(0, ps.len() - 1)));
        }
        pattern_views(ps.drop_last()).push(pattern_view(ps[ps.len() - 1]))
    }
}

impl View for Pattern {
    type V = PatternV;

    open spec fn view(&self) -> PatternV {
        pattern_view(*self)
    }
}

pub proof fn lemma_pattern_views(ps: Seq<Pattern>)
    ensures
        pattern_views(ps).len() == ps.len(),
        forall|i: int| 0 <= i < ps.len() ==> #[trigger] pattern_views(ps)[i] == pattern_view(ps[i]),
    decreases ps.len(),
{
    if ps.len() > 0 {
        lemma_pattern_views(ps.drop_last());
        assert forall|i: int| 0 <= i < ps.len() implies #[trigger] pattern_views(ps)[i] == pattern_view(ps[i]) by {
            if i < ps.len() - 1 {
                assert(ps.drop_last()[i] == ps[i]);
            }
        }
    }
}

pub proof fn lemma_pattern_views_push(ps: Seq<Pattern>, p: Pattern)
    ensures
        pattern_views(ps.push(p)) == pattern_views(ps).push(p@),
{
    assert(ps.push(p).drop_last() =~= ps);
}

/// The span that reaches from the start of `a` to the end of `b`.
pub open spec fn joined(a: Span, b: Span) -> Span {
    Span { start: a.start, end: b.end }
}

/// The expressions joined from the left by the operator:
/// `((e0 op e1) op e2) ...`, each node spanning its operands.
pub open spec fn left_assoc(exprs: Seq<Expr>, op: BinopKind) -> Expr
    decreases exprs.len(),
{
    if exprs.len() <= 1 {
        exprs[0]
    } else {
        let acc = left_assoc(exprs.drop_last(), op);
        let e = exprs.last();
        Expr {
            span: joined(acc.span, e.span),
            kind: ExprKind::Binop(Binop { lhs: Box::new(acc), op, rhs: Box::new(e) }),
        }
    }
}

/// The token is a literal carrying the value of its kind.
pub open spec fn is_literal_token(t: Token) -> bool {
    ||| t.kind == TokenKind::IntLiteral && t.value is Int
    ||| t.kind == TokenKind::FloatLiteral && t.value is Float
    ||| t.kind == TokenKind::CharLiteral && t.value is Char
    ||| t.kind == TokenKind::StringLiteral && t.value is String
    ||| t.kind == TokenKind::True
    ||| t.kind == TokenKind::False
}

/// The literal expression a literal token stands for.
pub open spec fn literal_kind(t: Token) -> ExprKind {
    match t.value {
        TokenValue::Int(i) if t.kind == TokenKind::IntLiteral => ExprKind::IntLiteral(i),
        TokenValue::Float(f) if t.kind == TokenKind::FloatLiteral => ExprKind::FloatLiteral(f),
        TokenValue::Char(c) if t.kind == TokenKind::CharLiteral => ExprKind::CharLiteral(c),
        TokenValue::String(s) if t.kind == TokenKind::StringLiteral => ExprKind::StringLiteral(s),
        _ => ExprKind::BoolLiteral(t.kind == TokenKind::True),
    }
}

impl Expr {
    /// The one expression of a one-element list, else the tuple of the list
    /// (with an empty span, for the caller to set).
    pub fn maybe_tuple(exprs: Vec<Expr>) -> (r: Self)
        ensures
            exprs@.len() == 1 ==> r == exprs@[0],
            exprs@.len() != 1 ==> r.kind == ExprKind::Tuple(exprs),
            exprs@.len() != 1 ==> r.span.start.line == 0 && r.span.start.column == 0 && r.span.end.line == 0
                && r.span.end.column == 0,
    {
        if exprs.len() == 1 {
            let mut exprs = exprs;
            exprs.pop().unwrap()
        } else {
            Expr { kind: ExprKind::Tuple(exprs), span: Span::default() }
        }
    }

    /// Joins the expressions from the left with the binary operator of the
    /// token.
    pub fn left_assoc_from_vec(exprs: Vec<Expr>, token_kind: &TokenKind) -> (r: Self)
        requires
            exprs@.len() > 0,
            binop_of(*token_kind) is Some,
        ensures
            r == left_assoc(exprs@, binop_of(*token_kind)->0),
    {
        let binop = BinopKind::from_token_kind(token_kind);
        let ghost all = exprs@;
        let n = exprs.len();
        let mut rest = exprs;
        let mut acc = rest.remove(0);
        let mut k: usize = 1;
        proof {
            assert(all.take(1).drop_last().len() == 0);
            assert(left_assoc(all.take(1), binop) == all.take(1)[0]);
        }
        while rest.len() > 0
            invariant
                1 <= k <= all.len(),
                all.len() == n,
                rest@ == all.skip(k as int),
                acc == left_assoc(all.take(k as int), binop),
            decreases rest.len(),
        {
            let e = rest.remove(0);
            let span = Span::new(acc.span.start.clone(), e.span.end.clone());
            proof {
                assert(e == all[k as int]);
                assert(all.take(k + 1).drop_last() =~= all.take(k as int));
                assert(all.take(k + 1).last() == e);
                assert(rest@ =~= all.skip(k + 1));
            }
            acc = Expr { span, kind: ExprKind::Binop(Binop { lhs: Box::new(acc), op: binop, rhs: Box::new(e) }) };
            k += 1;
        }
        proof {
            assert(all.take(k as int) =~= all);
        }
        acc
    }

    /// The literal expression a literal token stands for, spanning the token.
    pub fn from_literal(token: Token) -> (r: Self)
        requires
            is_literal_token(token),
        ensures
            r.kind == literal_kind(token),
            r.span == (Span { start: token.from, end: token.to }),
    {
        let Token { kind, original: _, value, from, to } = token;
        let span = Span::new(from, to);
        let kind = match (kind, value) {
            (TokenKind::IntLiteral, TokenValue::Int(i)) => ExprKind::IntLiteral(i),
            (TokenKind::FloatLiteral, TokenValue::Float(f)) => ExprKind::FloatLiteral(f),
            (TokenKind::CharLiteral, TokenValue::Char(c)) => ExprKind::CharLiteral(c),
            (TokenKind::StringLiteral, TokenValue::String(s)) => ExprKind::StringLiteral(s),
            (k, _) => ExprKind::BoolLiteral(k == TokenKind::True),
        };
        Expr { kind, span }
    }
}

impl Pattern {
    /// The one pattern of a one-element list, else the tuple of the list
    /// (with an empty span).
    pub fn maybe_tuple(patterns: Vec<Pattern>) -> (r: Self)
        ensures
            patterns@.len() == 1 ==> r == patterns@[0],
            patterns@.len() != 1 ==> r.kind == PatternKind::Tuple(patterns),
    {
        if patterns.len() == 1 {
            let mut patterns = patterns;
            patterns.pop().unwrap()
        } else {
            Pattern { span: Span::default(), kind: PatternKind::Tuple(patterns) }
        }
    }
}

} // verus!

verus! {

/// How binary operators are read off tokens: no two tokens stand for one
/// operator; an order comparison agrees with how its symbol is written: it
/// is strict exactly when the symbol is one character (`<`, `>`, not `<=`,
/// `>=`), and it asks for "less" exactly when the symbol starts with `<`;
/// an equality test is negated exactly when its symbol does not start with
/// `=` (`<>`, `!=`), and compares physically exactly when its symbol is two
/// characters ending in `=` (`==`, `!=`).
pub proof fn law_binop_tokens(k1: TokenKind, k2: TokenKind)
    ensures
        binop_of(k1) is Some && binop_of(k1) == binop_of(k2) ==> k1 == k2,
        binop_of(k1) matches Some(op) ==> ((op is Lt || op is Gt || op is LEq || op is GEq) ==> {
            &&& ((op is Lt || op is Gt) <==> spelling(k1).len() == 1)
            &&& ((op is Lt || op is LEq) <==> spelling(k1)[0] == 60u8)
        }),
        binop_of(k1) matches Some(op) ==> ((op is StrEq || op is StrNotEq || op is NatEq || op is NatNotEq) ==> {
            &&& ((op is StrNotEq || op is NatNotEq) <==> spelling(k1)[0] != 61u8)
            &&& ((op is NatEq || op is NatNotEq) <==> (spelling(k1).len() == 2 && spelling(k1)[1] == 61u8))
        }),
{
}

} // verus!

verus! {

/// No two tokens stand for one unary operator.
pub proof fn law_unop_tokens(k1: TokenKind, k2: TokenKind)
    ensures
        unop_of(k1) is Some && unop_of(k1) == unop_of(k2) ==> k1 == k2,
{
}

} // verus!
