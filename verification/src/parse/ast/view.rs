use vstd::prelude::*;
use crate::pass::sem::types::TypeV;
use super::annotation::{TypeAnnotation, annotated_type, annotated_types};
use super::def::{Definition, Letdef, Def, DefKind, Par, Typedef, TDef, Constr};
use super::expr::{Expr, ExprKind, UnopKind, BinopKind, Clause, PatternV, pattern_view};
use super::Program;

verus! {

/// An expression as a value, without where its parts were written.
pub enum ExprV {
    Unit,
    Int(int),
    Float(Seq<char>),
    Char(u8),
    Str(Seq<char>),
    Bool(bool),
    Tuple(Seq<ExprV>),
    Unop(UnopKind, Box<ExprV>),
    Binop(Box<ExprV>, BinopKind, Box<ExprV>),
    Call(Seq<char>, Seq<ExprV>),
    ConstrCall(Seq<char>, Seq<ExprV>),
    ArrayAccess(Seq<char>, Seq<ExprV>),
    Dim(Seq<char>, int),
    New(TypeV),
    LetIn(LetdefV, Box<ExprV>),
    If(Box<ExprV>, Box<ExprV>, Option<Box<ExprV>>),
    While(Box<ExprV>, Box<ExprV>),
    For(Seq<char>, Box<ExprV>, bool, Box<ExprV>, Box<ExprV>),
    Match(Box<ExprV>, Seq<ClauseV>),
}

/// A clause of a `match` as a value.
pub struct ClauseV {
    pub pattern: PatternV,
    pub expr: ExprV,
}

/// A group of value definitions as a value.
pub struct LetdefV {
    pub rec: bool,
    pub defs: Seq<DefV>,
}

/// What a value definition defines, as a value.
pub enum DefKindV {
    Const(ExprV),
    Variable,
    Array(Seq<ExprV>),
    Function(Seq<ParV>, ExprV),
}

/// A value definition as a value.
pub struct DefV {
    pub id: Seq<char>,
    pub type_: Option<TypeV>,
    pub kind: DefKindV,
}

/// A parameter as a value.
pub struct ParV {
    pub id: Seq<char>,
    pub type_: Option<TypeV>,
}

/// A constructor as a value: its name and the types of its arguments.
pub struct ConstrV {
    pub id: Seq<char>,
    pub types: Seq<TypeV>,
}

/// A type definition as a value.
pub struct TDefV {
    pub id: Seq<char>,
    pub constrs: Seq<ConstrV>,
}

/// A definition at the top of a program, as a value.
pub enum DefinitionV {
    Let(LetdefV),
    Type(Seq<TDefV>),
}

pub open spec fn opt_type_view(t: Option<TypeAnnotation>) -> Option<TypeV> {
    match t {
        Some(t) => Some(annotated_type(t)),
        None => None,
    }
}

pub open spec fn expr_view(e: Expr) -> ExprV
    decreases e, 0nat,
{
    match e.kind {
        ExprKind::UnitLiteral => ExprV::Unit,
        ExprKind::IntLiteral(i) => ExprV::Int(i as int),
        ExprKind::FloatLiteral(f) => ExprV::Float(f@),
        ExprKind::CharLiteral(c) => ExprV::Char(c),
        ExprKind::StringLiteral(s) => ExprV::Str(s@),
        ExprKind::BoolLiteral(b) => ExprV::Bool(b),
        ExprKind::Tuple(es) => ExprV::Tuple(expr_views(es@)),
        ExprKind::Unop(u) => ExprV::Unop(u.op, Box::new(expr_view(*u.operand))),
        ExprKind::Binop(b) => ExprV::Binop(Box::new(expr_view(*b.lhs)), b.op, Box::new(expr_view(*b.rhs))),
        ExprKind::Call(c) => ExprV::Call(c.id@, expr_views(c.args@)),
        ExprKind::ConstrCall(c) => ExprV::ConstrCall(c.id@, expr_views(c.args@)),
        ExprKind::ArrayAccess(a) => ExprV::ArrayAccess(a.id@, expr_views(a.indexes@)),
        ExprKind::Dim(d) => ExprV::Dim(d.id@, d.dim as int),
        ExprKind::New(t) => ExprV::New(annotated_type(t)),
        ExprKind::LetIn(l) => ExprV::LetIn(letdef_view(l.letdef), Box::new(expr_view(*l.expr))),
        ExprKind::If(i) => ExprV::If(
            Box::new(expr_view(*i.cond)),
            Box::new(expr_view(*i.then_body)),
            match i.else_body {
                Some(e) => Some(Box::new(expr_view(*e))),
                None => None,
            },
        ),
        ExprKind::While(w) => ExprV::While(Box::new(expr_view(*w.cond)), Box::new(expr_view(*w.body))),
        ExprKind::For(f) => ExprV::For(
            f.id@,
            Box::new(expr_view(*f.from)),
            f.ascending,
            Box::new(expr_view(*f.to)),
            Box::new(expr_view(*f.body)),
        ),
        ExprKind::Match(m) => ExprV::Match(Box::new(expr_view(*m.to_match)), clause_views(m.clauses@)),
    }
}

pub open spec fn expr_views(es: Seq<Expr>) -> Seq<ExprV>
    decreases es, 0nat,
{
    if es.len() == 0 {
        Seq::empty()
    } else {
        proof {
            assert(decreases_to!(es => es.subrange(0, es.len() - 1)));
        }
        expr_views(es.drop_last()).push(expr_view(es[es.len() - 1]))
    }
}

pub open spec fn clause_views(cs: Seq<Clause>) -> Seq<ClauseV>
    decreases cs, 0nat,
{
    if cs.len() == 0 {
        Seq::empty()
    } else {
        proof {
            assert(decreases_to!(cs => cs.subrange(0, cs.len() - 1)));
        }
        let c = cs[cs.len() - 1];
        clause_views(cs.drop_last()).push(ClauseV { pattern: pattern_view(c.pattern), expr: expr_view(c.expr) })
    }
}

pub open spec fn letdef_view(l: Letdef) -> LetdefV
    decreases l, 0nat,
{
    LetdefV { rec: l.rec, defs: def_views(l.defs@) }
}

pub open spec fn def_views(ds: Seq<Def>) -> Seq<DefV>
    decreases ds, 0nat,
{
    if ds.len() == 0 {
        Seq::empty()
    } else {
        proof {
            assert(decreases_to!(ds => ds.subrange(0, ds.len() - 1)));
        }
        def_views(ds.drop_last()).push(def_view(ds[ds.len() - 1]))
    }
}

pub open spec fn def_view(d: Def) -> DefV
    decreases d, 0nat,
{
    DefV {
        id: d.id@,
        type_: opt_type_view(d.type_),
        kind: match d.kind {
            DefKind::Const { expr } => DefKindV::Const(expr_view(expr)),
            DefKind::Variable => DefKindV::Variable,
            DefKind::Array { dims } => DefKindV::Array(expr_views(dims@)),
            DefKind::Function { pars, expr } => DefKindV::Function(par_views(pars@), expr_view(expr)),
        },
    }
}

pub open spec fn par_view(p: Par) -> ParV {
    ParV { id: p.id@, type_: opt_type_view(p.type_) }
}

pub open spec fn par_views(ps: Seq<Par>) -> Seq<ParV> {
    Seq::new(ps.len(), |i: int| par_view(ps[i]))
}

pub open spec fn constr_view(c: Constr) -> ConstrV {
    ConstrV { id: c.id@, types: annotated_types(c.types@) }
}

pub open spec fn tdef_view(t: TDef) -> TDefV {
    TDefV { id: t.id@, constrs: Seq::new(t.constrs@.len(), |i: int| constr_view(t.constrs@[i])) }
}

pub open spec fn typedef_view(t: Typedef) -> Seq<TDefV> {
    Seq::new(t.tdefs@.len(), |i: int| tdef_view(t.tdefs@[i]))
}

pub open spec fn definition_view(d: Definition) -> DefinitionV {
    match d {
        Definition::Let(l) => DefinitionV::Let(letdef_view(l)),
        Definition::Type(t) => DefinitionV::Type(typedef_view(t)),
    }
}

impl View for Expr {
    type V = ExprV;

    open spec fn view(&self) -> ExprV {
        expr_view(*self)
    }
}

impl View for Def {
    type V = DefV;

    open spec fn view(&self) -> DefV {
        def_view(*self)
    }
}

impl View for Letdef {
    type V = LetdefV;

    open spec fn view(&self) -> LetdefV {
        letdef_view(*self)
    }
}

impl View for Par {
    type V = ParV;

    open spec fn view(&self) -> ParV {
        par_view(*self)
    }
}

pub proof fn lemma_expr_views(es: Seq<Expr>)
    ensures
        expr_views(es).len() == es.len(),
        forall|i: int| 0 <= i < es.len() ==> #[trigger] expr_views(es)[i] == expr_view(es[i]),
    decreases es.len(),
{
    if es.len() > 0 {
        lemma_expr_views(es.drop_last());
        assert forall|i: int| 0 <= i < es.len() implies #[trigger] expr_views(es)[i] == expr_view(es[i]) by {
            if i < es.len() - 1 {
                assert(es.drop_last()[i] == es[i]);
            }
        }
    }
}


/// The values of a sequence of items, in order.
pub open spec fn views<T: View>(s: Seq<T>) -> Seq<T::V> {
    s.map_values(|t: T| t@)
}

pub proof fn lemma_views_push<T: View>(s: Seq<T>, t: T)
    ensures
        views(s.push(t)) == views(s).push(t@),
{
    assert(views(s.push(t)) =~= views(s).push(t@));
}

impl View for Clause {
    type V = ClauseV;

    open spec fn view(&self) -> ClauseV {
        ClauseV { pattern: pattern_view(self.pattern), expr: expr_view(self.expr) }
    }
}

impl View for Constr {
    type V = ConstrV;

    open spec fn view(&self) -> ConstrV {
        constr_view(*self)
    }
}

impl View for TDef {
    type V = TDefV;

    open spec fn view(&self) -> TDefV {
        tdef_view(*self)
    }
}

impl View for Definition {
    type V = DefinitionV;

    open spec fn view(&self) -> DefinitionV {
        definition_view(*self)
    }
}

impl View for Program {
    type V = Seq<DefinitionV>;

    open spec fn view(&self) -> Seq<DefinitionV> {
        views(self.definitions@)
    }
}

pub proof fn lemma_expr_views_eq(es: Seq<Expr>)
    ensures
        expr_views(es) == views(es),
{
    lemma_expr_views(es);
    assert(expr_views(es) =~= views(es));
}

pub proof fn lemma_def_views_eq(ds: Seq<Def>)
    ensures
        def_views(ds) == views(ds),
    decreases ds.len(),
{
    if ds.len() > 0 {
        lemma_def_views_eq(ds.drop_last());
        assert(views(ds) =~= views(ds.drop_last()).push(ds.last()@));
    } else {
        assert(views(ds) =~= Seq::<DefV>::empty());
    }
}

pub proof fn lemma_clause_views_eq(cs: Seq<Clause>)
    ensures
        clause_views(cs) == views(cs),
    decreases cs.len(),
{
    if cs.len() > 0 {
        lemma_clause_views_eq(cs.drop_last());
        assert(views(cs) =~= views(cs.drop_last()).push(cs.last()@));
    } else {
        assert(views(cs) =~= Seq::<ClauseV>::empty());
    }
}

pub proof fn lemma_par_views_eq(ps: Seq<Par>)
    ensures
        par_views(ps) == views(ps),
{
    assert(par_views(ps) =~= views(ps));
}

pub proof fn lemma_tdef_views_eq(t: Typedef)
    ensures
        typedef_view(t) == views(t.tdefs@),
{
    assert(typedef_view(t) =~= views(t.tdefs@));
}

pub proof fn lemma_constr_views_eq(t: TDef)
    ensures
        t@.constrs == views(t.constrs@),
{
    assert(t@.constrs =~= views(t.constrs@));
}

} // verus!
