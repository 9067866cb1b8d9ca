use vstd::prelude::*;
use crate::parse::ast::Span;
use crate::parse::ast::expr::{ArrayAccess, Binop, Unop, Call, Clause, Dim, Expr, ExprKind, For, If, Match, Pattern, While, BinopKind, UnopKind};
use super::pattern::{GenState, GenErr, UnifV, unif_view, Outcome, pattern_gen, pattern_unknowns};
use super::expr::{binop_gen, unop_gen, binop_unknown, unop_unknown, no_constraints};
use super::sem_table::{SemTable, lookup_in};
use super::types::{TypeV, curried};
use super::types::inference::{ArrayDims, ConstraintsV, InferenceGroup, Unification};
use super::types::subst::{meaning, wf};
use super::types::type_map::{TypeMap, lemma_meaning_extends};
use super::expr::made_unknown;
use super::types::type_map::instance_spec;
use crate::parse::ast::annotation::TypeAnnotation;
use crate::parse::ast::def::{Def, DefKind, Par};

verus! {

/// The state of the analysis as values: the scopes, the type of each node,
/// the generic marks and instances of the nodes, what the bindings make of
/// each unknown type made so far, their constraints, and the unifications
/// gathered so far.
pub struct GState {
    pub scopes: Seq<Map<Seq<char>, usize>>,
    pub nodes: Seq<TypeV>,
    pub generic: Seq<Option<Seq<TypeV>>>,
    pub mean: Seq<TypeV>,
    pub cs: Seq<ConstraintsV>,
    pub group: Seq<UnifV>,
}

/// The state of a table, with no unifications.
pub open spec fn tabs(t: SemTable) -> GState {
    GState {
        scopes: t.scopes_view(),
        nodes: t.tmap().node_types(),
        generic: t.tmap().generic_nodes(),
        mean: meaning(t.tmap().subst()),
        cs: t.tmap().constraints_view(),
        group: Seq::empty(),
    }
}

/// The unifications of a group, as values.
pub open spec fn gview(g: InferenceGroup) -> Seq<UnifV> {
    g.items().map_values(|u: Unification| unif_view(u))
}

/// The state of a table and a group of unifications.
pub open spec fn abs(t: SemTable, g: InferenceGroup) -> GState {
    GState { group: gview(g), ..tabs(t) }
}

/// The same for an analysis that gives a list of types.
pub open spec fn gen_holds_seq(g: Gen<(GState, Seq<TypeV>)>, r: crate::pass::sem::SemResult<Vec<crate::pass::sem::types::Type>>, after: GState) -> bool {
    match g {
        Gen::Done((st, ts)) => r matches Ok(x) && super::types::view_types(x@) == ts && after == st,
        Gen::Failed(e) => r matches Err(x) && super::pattern::error_matches(x, e),
        Gen::Open => true,
    }
}

/// What an analysis that gives a type promises: where the spec gives a
/// type, that type and the state after; where it gives an error, that error.
pub open spec fn gen_holds(g: Gen<(GState, TypeV)>, r: crate::pass::sem::SemResult<crate::pass::sem::types::Type>, after: GState) -> bool {
    match g {
        Gen::Done((st, t)) => r matches Ok(x) && x@ == t && after == st,
        Gen::Failed(e) => r matches Err(x) && super::pattern::error_matches(x, e),
        Gen::Open => true,
    }
}

/// How analysing a part of a program ends: with a value, with an error, or
/// `Open` where the part holds a `let ... in`, whose definitions are solved
/// on the way and which these functions leave unspecified.
pub enum Gen<T> {
    Done(T),
    Failed(GenErr),
    Open,
}

/// The error given when more unknown types would be needed than can be
/// numbered.
pub open spec fn too_many_message() -> Seq<char> {
    "too many unknown types"@
}

pub open spec fn too_many(span: Span) -> GenErr {
    GenErr::General(too_many_message(), span)
}

/// `k` more unknown types can be numbered.
pub open spec fn room(st: GState, k: nat) -> bool {
    st.mean.len() + k < u32::MAX
}

/// A new unknown type under `c`.
pub open spec fn gen_fresh(st: GState, c: ConstraintsV) -> (GState, TypeV) {
    let u = TypeV::Unknown(st.mean.len() as u32);
    (GState { mean: st.mean.push(u), cs: st.cs.push(c), ..st }, u)
}

/// A new node of type `t`.
pub open spec fn gen_record(st: GState, t: TypeV) -> GState {
    GState { nodes: st.nodes.push(t), generic: st.generic.push(None), ..st }
}

/// A new node of type `t`, bound to `name` in the innermost scope.
pub open spec fn gen_bind(st: GState, name: Seq<char>, t: TypeV) -> GState {
    GState {
        scopes: st.scopes.update(st.scopes.len() - 1, st.scopes.last().insert(name, st.nodes.len() as usize)),
        ..gen_record(st, t)
    }
}

/// One more unification.
pub open spec fn gen_unif(st: GState, lhs: TypeV, rhs: TypeV, span: Span, msg: Seq<char>) -> GState {
    GState { group: st.group.push(UnifV { lhs, rhs, span, msg }), ..st }
}

pub open spec fn gen_push(st: GState) -> GState {
    GState { scopes: st.scopes.push(Map::empty()), ..st }
}

pub open spec fn gen_pop(st: GState) -> GState {
    GState { scopes: st.scopes.drop_last(), ..st }
}

/// One more use of node `n`: its type, or a fresh instance of it where it
/// is generic.
pub open spec fn gen_instance(st: GState, n: int, span: Span) -> Gen<(GState, TypeV)> {
    match instance_spec(st.nodes, st.generic, st.mean, st.cs, n) {
        Some((mean, cs, generic, t)) => Gen::Done((GState { mean, cs, generic, ..st }, t)),
        None => Gen::Failed(too_many(span)),
    }
}

pub open spec fn gs_of(st: GState) -> GenState {
    GenState { scopes: st.scopes, nodes: st.nodes, next: st.mean.len(), group: st.group }
}

/// The state after an operator's analysis, given by `gs` and the unknown
/// type it made, if any.
pub open spec fn after_op(st: GState, gs: GenState, c: Option<ConstraintsV>) -> GState {
    match c {
        Some(cv) => GState {
            group: gs.group,
            mean: st.mean.push(TypeV::Unknown(st.mean.len() as u32)),
            cs: st.cs.push(cv),
            ..st
        },
        None => GState { group: gs.group, ..st },
    }
}

pub open spec fn gen_unop(op: UnopKind, t: TypeV, span: Span, st: GState) -> (GState, TypeV) {
    let (gs, r) = unop_gen(op, t, span, gs_of(st));
    (after_op(st, gs, unop_unknown(op)), r)
}

pub open spec fn gen_binop(op: BinopKind, l: TypeV, rt: TypeV, span: Span, st: GState) -> (GState, TypeV) {
    let (gs, r) = binop_gen(op, l, rt, span, gs_of(st));
    (after_op(st, gs, binop_unknown(op)), r)
}

/// The state after a pattern's analysis that ended in `gs`: the nodes it
/// made are not generic, and the unknown types it made are unbound and
/// unconstrained.
pub open spec fn after_pattern(st: GState, gs: GenState) -> GState {
    GState {
        scopes: gs.scopes,
        nodes: gs.nodes,
        generic: st.generic + Seq::new((gs.nodes.len() - st.nodes.len()) as nat, |i: int| None::<Seq<TypeV>>),
        mean: st.mean + Seq::new((gs.next - st.mean.len()) as nat, |i: int| TypeV::Unknown((st.mean.len() + i) as u32)),
        cs: st.cs + Seq::new((gs.next - st.mean.len()) as nat, |i: int| no_constraints()),
        group: gs.group,
    }
}

/// Analysing pattern `p` against type `t`: `pattern_gen`, with the nodes
/// and the plain unknown types it makes.
pub open spec fn gen_pattern(p: Pattern, t: TypeV, st: GState) -> Gen<GState> {
    match pattern_gen(p, t, gs_of(st)) {
        Outcome::Done(gs) => Gen::Done(after_pattern(st, gs)),
        Outcome::Failed(e) => Gen::Failed(e),
    }
}

/// The type of a literal expression; `None` for the other expressions.
pub open spec fn literal_type(k: ExprKind) -> Option<TypeV> {
    match k {
        ExprKind::UnitLiteral => Some(TypeV::Unit),
        ExprKind::IntLiteral(_) => Some(TypeV::Int),
        ExprKind::FloatLiteral(_) => Some(TypeV::Float),
        ExprKind::CharLiteral(_) => Some(TypeV::Char),
        ExprKind::StringLiteral(_) => Some(TypeV::Array(Box::new(TypeV::Char), ArrayDims::Known(1))),
        ExprKind::BoolLiteral(_) => Some(TypeV::Bool),
        _ => None,
    }
}

/// What analysing expression `e` from state `st` gives: its type and the
/// state after, where a node of that type has been recorded for `e`; or the
/// error that stops it.
pub open spec fn expr_gen(e: Expr, st: GState) -> Gen<(GState, TypeV)>
    decreases e, 1nat,
{
    let r: Gen<(GState, TypeV)> = match e.kind {
        ExprKind::Tuple(es) => match exprs_gen(es@, st) {
            Gen::Done((s1, ts)) => Gen::Done((s1, TypeV::Tuple(ts))),
            Gen::Failed(x) => Gen::Failed(x),
            Gen::Open => Gen::Open,
        },
        ExprKind::Unop(u) => unop_expr_gen(u, e.span, st),
        ExprKind::Binop(b) => binop_expr_gen(b, e.span, st),
        ExprKind::Call(c) => if c.args.len() == 0 { constant_call_gen(c, e.span, st) } else { func_call_gen(c, e.span, st) },
        ExprKind::ConstrCall(c) => constructor_call_gen(c, e.span, st),
        ExprKind::ArrayAccess(a) => array_access_gen(a, e.span, st),
        ExprKind::Dim(d) => dim_gen(d, e.span, st),
        ExprKind::New(a) => Gen::Done((st, TypeV::Ref(Box::new(a@)))),
        ExprKind::LetIn(_) => Gen::Open,
        ExprKind::If(i) => if_gen(i, e.span, st),
        ExprKind::While(w) => while_gen(w, e.span, st),
        ExprKind::For(f) => for_gen(f, e.span, st),
        ExprKind::Match(m) => match_gen(m, e.span, st),
        _ => Gen::Done((st, literal_type(e.kind)->0)),
    };
    match r {
        Gen::Done((s1, t)) => Gen::Done((gen_record(s1, t), t)),
        other => other,
    }
}

/// A unary operation: the operand, then what the operator asks of it.
pub open spec fn unop_expr_gen(u: Unop, span: Span, st: GState) -> Gen<(GState, TypeV)>
    decreases u, 0nat,
{
    match expr_gen(*u.operand, st) {
        Gen::Done((s1, t)) => if room(s1, 1) { Gen::Done(gen_unop(u.op, t, span, s1)) } else { Gen::Failed(too_many(span)) },
        Gen::Failed(x) => Gen::Failed(x),
        Gen::Open => Gen::Open,
    }
}

/// A binary operation: the left operand, the right one, then what the
/// operator asks of them.
pub open spec fn binop_expr_gen(b: Binop, span: Span, st: GState) -> Gen<(GState, TypeV)>
    decreases b, 0nat,
{
    match expr_gen(*b.lhs, st) {
        Gen::Done((s1, l)) => match expr_gen(*b.rhs, s1) {
            Gen::Done((s2, rt)) => if room(s2, 1) { Gen::Done(gen_binop(b.op, l, rt, span, s2)) } else { Gen::Failed(too_many(span)) },
            Gen::Failed(x) => Gen::Failed(x),
            Gen::Open => Gen::Open,
        },
        Gen::Failed(x) => Gen::Failed(x),
        Gen::Open => Gen::Open,
    }
}

/// Analysing the expressions of `es` in order: their types.
pub open spec fn exprs_gen(es: Seq<Expr>, st: GState) -> Gen<(GState, Seq<TypeV>)>
    decreases es, 0nat,
{
    if es.len() == 0 {
        Gen::Done((st, Seq::empty()))
    } else {
        proof {
            assert(decreases_to!(es => es.subrange(0, es.len() - 1)));
            assert(decreases_to!(es => es[es.len() - 1]));
        }
        match exprs_gen(es.drop_last(), st) {
            Gen::Done((s1, ts)) => match expr_gen(es[es.len() - 1], s1) {
                Gen::Done((s2, t)) => Gen::Done((s2, ts.push(t))),
                Gen::Failed(x) => Gen::Failed(x),
                Gen::Open => Gen::Open,
            },
            Gen::Failed(x) => Gen::Failed(x),
            Gen::Open => Gen::Open,
        }
    }
}

/// A name used with no arguments: the type of what it names, a fresh
/// instance of it where that is generic.
pub open spec fn constant_call_gen(c: Call, span: Span, st: GState) -> Gen<(GState, TypeV)> {
    match lookup_in(st.scopes, c.id@) {
        None => Gen::Failed(GenErr::Lookup(c.id@, span)),
        Some(n) => gen_instance(st, n as int, span),
    }
}

/// A call with arguments: the called type must be the function from the
/// argument types to a new unknown type, the type of the call.
pub open spec fn func_call_gen(c: Call, span: Span, st: GState) -> Gen<(GState, TypeV)>
    decreases c, 0nat,
{
    match lookup_in(st.scopes, c.id@) {
        None => Gen::Failed(GenErr::Lookup(c.id@, span)),
        Some(n) => match gen_instance(st, n as int, span) {
            Gen::Done((s1, f)) => match exprs_gen(c.args@, s1) {
                Gen::Done((s2, ts)) => if room(s2, 1) {
                    let (s3, u) = gen_fresh(s2, no_constraints());
                    Gen::Done((gen_unif(s3, f, curried(ts, u), span, "function call must match function signature"@), u))
                } else {
                    Gen::Failed(too_many(span))
                },
                Gen::Failed(x) => Gen::Failed(x),
                Gen::Open => Gen::Open,
            },
            other => other,
        },
    }
}

/// A constructor call: the constructor's type must be the function from the
/// argument types to a new unknown type, the type of the call.
pub open spec fn constructor_call_gen(c: Call, span: Span, st: GState) -> Gen<(GState, TypeV)>
    decreases c, 0nat,
{
    match lookup_in(st.scopes, c.id@) {
        None => Gen::Failed(GenErr::Lookup(c.id@, span)),
        Some(n) => match exprs_gen(c.args@, st) {
            Gen::Done((s2, ts)) => if room(s2, 1) {
                let (s3, u) = gen_fresh(s2, no_constraints());
                Gen::Done((gen_unif(s3, st.nodes[n as int], curried(ts, u), span, "constructor call must match constructor signature"@), u))
            } else {
                Gen::Failed(too_many(span))
            },
            Gen::Failed(x) => Gen::Failed(x),
            Gen::Open => Gen::Open,
        },
    }
}

/// An array access: the array's type must be an array of as many
/// dimensions as there are indexes, of a new unknown element type; the
/// access is a reference to an element.
pub open spec fn array_access_gen(a: ArrayAccess, span: Span, st: GState) -> Gen<(GState, TypeV)>
    decreases a, 0nat,
{
    match lookup_in(st.scopes, a.id@) {
        None => Gen::Failed(GenErr::Lookup(a.id@, span)),
        Some(n) => match exprs_gen(a.indexes@, st) {
            Gen::Done((s2, ts)) => if room(s2, 1) {
                let (s3, u) = gen_fresh(s2, no_constraints());
                Gen::Done((
                    gen_unif(s3, st.nodes[n as int], TypeV::Array(Box::new(u), ArrayDims::Known(ts.len() as u32)),
                        span, "array access must match array signature"@),
                    TypeV::Ref(Box::new(u)),
                ))
            } else {
                Gen::Failed(too_many(span))
            },
            Gen::Failed(x) => Gen::Failed(x),
            Gen::Open => Gen::Open,
        },
    }
}

/// `dim`: the array's type must be an array of at least the dimension
/// asked for; the result is an integer.
pub open spec fn dim_gen(d: Dim, span: Span, st: GState) -> Gen<(GState, TypeV)> {
    match lookup_in(st.scopes, d.id@) {
        None => Gen::Failed(GenErr::Lookup(d.id@, span)),
        Some(n) => if room(st, 1) {
            let (s3, u) = gen_fresh(st, no_constraints());
            Gen::Done((
                gen_unif(s3, st.nodes[n as int], TypeV::Array(Box::new(u), ArrayDims::LowerBounded(d.dim as u32)), span,
                    "dim call must be on an array that has at least as meany dimensions as the call"@),
                TypeV::Int,
            ))
        } else {
            Gen::Failed(too_many(span))
        },
    }
}

/// `if`: the condition is a boolean, and the branches (the unit type where
/// there is no `else`) have the type of the `else` branch.
pub open spec fn if_gen(i: If, span: Span, st: GState) -> Gen<(GState, TypeV)>
    decreases i, 0nat,
{
    match expr_gen(*i.cond, st) {
        Gen::Done((s1, c)) => {
            let s2 = gen_unif(s1, c, TypeV::Bool, span, "if expression condition must be a boolean"@);
            match expr_gen(*i.then_body, s2) {
                Gen::Done((s3, t)) => {
                    let e: Gen<(GState, TypeV)> = match i.else_body {
                        Some(b) => expr_gen(*b, s3),
                        None => Gen::Done((s3, TypeV::Unit)),
                    };
                    match e {
                        Gen::Done((s4, et)) => Gen::Done((gen_unif(s4, t, et, span, "if expression branches must be of the same type"@), et)),
                        other => other,
                    }
                },
                other => other,
            }
        },
        other => other,
    }
}

/// `while`: the condition is a boolean, the body and the loop of the unit
/// type.
pub open spec fn while_gen(w: While, span: Span, st: GState) -> Gen<(GState, TypeV)>
    decreases w, 0nat,
{
    match expr_gen(*w.cond, st) {
        Gen::Done((s1, c)) => {
            let s2 = gen_unif(s1, c, TypeV::Bool, span, "while expression condition must be a boolean"@);
            match expr_gen(*w.body, s2) {
                Gen::Done((s3, b)) => Gen::Done((gen_unif(s3, b, TypeV::Unit, span, "while expression body must be of unit type"@), TypeV::Unit)),
                other => other,
            }
        },
        other => other,
    }
}

/// `for`: the bounds are integers, the counter an integer node bound in a
/// scope of its own, the body and the loop of the unit type.
pub open spec fn for_gen(f: For, span: Span, st: GState) -> Gen<(GState, TypeV)>
    decreases f, 0nat,
{
    match expr_gen(*f.from, st) {
        Gen::Done((s1, a)) => match expr_gen(*f.to, s1) {
            Gen::Done((s2, b)) => {
                let s3 = gen_unif(s2, a, TypeV::Int, span, "for expression init and end bounds must be integers"@);
                let s4 = gen_unif(s3, b, TypeV::Int, span, "for expression init and end bounds must be integers"@);
                let s5 = gen_bind(gen_push(s4), f.id@, TypeV::Int);
                match expr_gen(*f.body, s5) {
                    Gen::Done((s6, t)) => Gen::Done((
                        gen_pop(gen_unif(s6, t, TypeV::Unit, span, "for expression body must be of unit type"@)),
                        TypeV::Unit,
                    )),
                    other => other,
                }
            },
            other => other,
        },
        other => other,
    }
}

/// `match`: a new unknown type for the result; each clause's pattern is
/// analysed against the matched type in a scope of its own, and its
/// expression's type is unified with the result.
pub open spec fn match_gen(m: Match, span: Span, st: GState) -> Gen<(GState, TypeV)>
    decreases m, 0nat,
{
    match expr_gen(*m.to_match, st) {
        Gen::Done((s1, t)) => if room(s1, 1) {
            let (s2, u) = gen_fresh(s1, no_constraints());
            match clauses_gen(m.clauses@, t, u, span, s2) {
                Gen::Done(s3) => Gen::Done((s3, u)),
                Gen::Failed(x) => Gen::Failed(x),
                Gen::Open => Gen::Open,
            }
        } else {
            Gen::Failed(too_many(span))
        },
        other => other,
    }
}

/// The clauses of a `match` on type `t` whose result has type `u`.
pub open spec fn clauses_gen(cs: Seq<Clause>, t: TypeV, u: TypeV, span: Span, st: GState) -> Gen<GState>
    decreases cs, 0nat,
{
    if cs.len() == 0 {
        Gen::Done(st)
    } else {
        proof {
            assert(decreases_to!(cs => cs.subrange(0, cs.len() - 1)));
            assert(decreases_to!(cs => cs[cs.len() - 1]));
        }
        match clauses_gen(cs.drop_last(), t, u, span, st) {
            Gen::Done(s1) => {
                let c = cs[cs.len() - 1];
                let s2 = gen_push(s1);
                if room(s2, pattern_unknowns(c.pattern)) {
                    match gen_pattern(c.pattern, t, s2) {
                        Gen::Done(s3) => match expr_gen(c.expr, s3) {
                            Gen::Done((s4, ct)) => Gen::Done(gen_pop(gen_unif(s4, ct, u, span, "match expression clauses must all have the same type"@))),
                            Gen::Failed(x) => Gen::Failed(x),
                            Gen::Open => Gen::Open,
                        },
                        other => other,
                    }
                } else {
                    Gen::Failed(too_many(c.pattern.span))
                }
            },
            other => other,
        }
    }
}

/// The dimensions of an array definition, in order: each an integer.
pub open spec fn array_def_gen(dims: Seq<Expr>, st: GState) -> Gen<GState>
    decreases dims.len(),
{
    if dims.len() == 0 {
        Gen::Done(st)
    } else {
        match array_def_gen(dims.drop_last(), st) {
            Gen::Done(s1) => match expr_gen(dims.last(), s1) {
                Gen::Done((s2, t)) => Gen::Done(gen_unif(s2, TypeV::Int, t, dims.last().span, "array definition dimensions must be integers"@)),
                Gen::Failed(x) => Gen::Failed(x),
                Gen::Open => Gen::Open,
            },
            other => other,
        }
    }
}

/// The written type, or a new unknown type where none is written.
pub open spec fn written_or_fresh(a: Option<TypeAnnotation>, span: Span, st: GState) -> Gen<(GState, TypeV)> {
    match a {
        Some(a) => Gen::Done((st, a@)),
        None => if room(st, 1) { Gen::Done(gen_fresh(st, no_constraints())) } else { Gen::Failed(too_many(span)) },
    }
}

/// The parameters of a function, in order, each bound to its written type
/// or to a new unknown type: their types.
pub open spec fn pars_gen(pars: Seq<Par>, st: GState) -> Gen<(GState, Seq<TypeV>)>
    decreases pars.len(),
{
    if pars.len() == 0 {
        Gen::Done((st, Seq::empty()))
    } else {
        match pars_gen(pars.drop_last(), st) {
            Gen::Done((s1, ts)) => match written_or_fresh(pars.last().type_, pars.last().span, s1) {
                Gen::Done((s2, t)) => Gen::Done((gen_bind(s2, pars.last().id@, t), ts.push(t))),
                Gen::Failed(x) => Gen::Failed(x),
                Gen::Open => Gen::Open,
            },
            other => other,
        }
    }
}

/// A function definition: the parameters in a scope of their own, then the
/// body there; the function type and the type of the body.
pub open spec fn func_def_gen(pars: Seq<Par>, body: Expr, st: GState) -> Gen<(GState, TypeV, TypeV)> {
    match pars_gen(pars, gen_push(st)) {
        Gen::Done((s1, ts)) => match expr_gen(body, s1) {
            Gen::Done((s2, b)) => Gen::Done((gen_pop(s2), curried(ts, b), b)),
            Gen::Failed(x) => Gen::Failed(x),
            Gen::Open => Gen::Open,
        },
        Gen::Failed(x) => Gen::Failed(x),
        Gen::Open => Gen::Open,
    }
}

/// What a function definition's analysis promises.
pub open spec fn gen_holds_func(g: Gen<(GState, TypeV, TypeV)>, r: crate::pass::sem::SemResult<(crate::pass::sem::types::Type, crate::pass::sem::types::Type)>, after: GState) -> bool {
    match g {
        Gen::Done((st, f, b)) => r matches Ok(x) && x.0@ == f && x.1@ == b && after == st,
        Gen::Failed(e) => r matches Err(x) && super::pattern::error_matches(x, e),
        Gen::Open => true,
    }
}

/// What an analysis that gives nothing promises.
pub open spec fn gen_holds_unit(g: Gen<GState>, r: crate::pass::sem::SemResult<()>, after: GState) -> bool {
    match g {
        Gen::Done(st) => r is Ok && after == st,
        Gen::Failed(e) => r matches Err(x) && super::pattern::error_matches(x, e),
        Gen::Open => true,
    }
}

/// The type a definition gives its name, before its group of unifications
/// is solved, and the state then.
pub open spec fn def_type_gen(d: Def, st: GState) -> Gen<(GState, TypeV)> {
    match d.kind {
        DefKind::Array { dims } => match array_def_gen(dims@, st) {
            Gen::Done(s1) => written_or_fresh(d.type_, d.span, s1),
            Gen::Failed(x) => Gen::Failed(x),
            Gen::Open => Gen::Open,
        },
        DefKind::Const { expr } => match expr_gen(expr, st) {
            Gen::Done((s1, t)) => match d.type_ {
                Some(a) => Gen::Done((gen_unif(s1, a@, t, d.span, "expression type and annotation must match"@), a@)),
                None => Gen::Done((s1, t)),
            },
            other => other,
        },
        DefKind::Function { pars, expr } => match func_def_gen(pars@, expr, st) {
            Gen::Done((s1, f, b)) => match d.type_ {
                Some(a) => Gen::Done((gen_unif(s1, a@, b, d.span, "function expression type and annotation must match"@), f)),
                None => Gen::Done((s1, f)),
            },
            Gen::Failed(x) => Gen::Failed(x),
            Gen::Open => Gen::Open,
        },
        DefKind::Variable => written_or_fresh(d.type_, d.span, st),
    }
}

/// A definition up to the solving of its group: its type, then its node,
/// either the one `node` given (a recursive group), whose type must match,
/// or a new one. The state then and the node.
pub open spec fn def_gen(d: Def, node: Option<usize>, st: GState) -> Gen<(GState, usize)> {
    match def_type_gen(d, st) {
        Gen::Done((s1, t)) => match node {
            Some(n) => Gen::Done((gen_unif(s1, s1.nodes[n as int], t, d.span, "recursive definition's type"@), n)),
            None => Gen::Done((gen_record(s1, t), s1.nodes.len() as usize)),
        },
        Gen::Failed(x) => Gen::Failed(x),
        Gen::Open => Gen::Open,
    }
}


/// Making one unbound unknown type adds it, as itself, to what the bindings
/// make of the unknown types.
pub proof fn lemma_made_unknown(a: TypeMap, b: TypeMap, c: Option<ConstraintsV>)
    requires
        a.wf(),
        b.wf(),
        made_unknown(a, b, c),
    ensures
        meaning(b.subst()) == match c {
            Some(_) => meaning(a.subst()).push(TypeV::Unknown(a.next_id() as u32)),
            None => meaning(a.subst()),
        },
{
    a.lemma_wf();
    b.lemma_wf();
    if c is Some {
        let s1 = a.subst();
        let s2 = b.subst();
        assert(s2.bind.take(s1.bind.len() as int) =~= s1.bind);
        lemma_meaning_extends(s1, s2);
        assert(Seq::new((s2.bind.len() - s1.bind.len()) as nat, |i: int| TypeV::Unknown((s1.bind.len() + i) as u32))
            =~= seq![TypeV::Unknown(a.next_id() as u32)]);
        assert(meaning(s1) + seq![TypeV::Unknown(a.next_id() as u32)] =~= meaning(s1).push(TypeV::Unknown(a.next_id() as u32)));
    }
}


/// Once a prefix of the expressions stops the analysis, the whole list
/// stops in the same way.
pub proof fn lemma_exprs_stop(es: Seq<Expr>, st: GState, k: int)
    requires
        0 <= k <= es.len(),
        !(exprs_gen(es.take(k), st) is Done),
    ensures
        exprs_gen(es, st) == exprs_gen(es.take(k), st),
    decreases es.len(),
{
    if k == es.len() {
        assert(es.take(k) =~= es);
    } else {
        assert(es.drop_last().take(k) =~= es.take(k));
        lemma_exprs_stop(es.drop_last(), st, k);
    }
}

/// The same for the clauses of a `match`.
pub proof fn lemma_clauses_stop(cs: Seq<Clause>, t: TypeV, u: TypeV, span: Span, st: GState, k: int)
    requires
        0 <= k <= cs.len(),
        !(clauses_gen(cs.take(k), t, u, span, st) is Done),
    ensures
        clauses_gen(cs, t, u, span, st) == clauses_gen(cs.take(k), t, u, span, st),
    decreases cs.len(),
{
    if k == cs.len() {
        assert(cs.take(k) =~= cs);
    } else {
        assert(cs.drop_last().take(k) =~= cs.take(k));
        lemma_clauses_stop(cs.drop_last(), t, u, span, st, k);
    }
}

/// Once a prefix of the dimensions stops the analysis, all of them stop in
/// the same way.
pub proof fn lemma_dims_stop(dims: Seq<Expr>, st: GState, k: int)
    requires
        0 <= k <= dims.len(),
        !(array_def_gen(dims.take(k), st) is Done),
    ensures
        array_def_gen(dims, st) == array_def_gen(dims.take(k), st),
    decreases dims.len(),
{
    if k == dims.len() {
        assert(dims.take(k) =~= dims);
    } else {
        assert(dims.drop_last().take(k) =~= dims.take(k));
        lemma_dims_stop(dims.drop_last(), st, k);
    }
}

/// The same for the parameters of a function.
pub proof fn lemma_pars_stop(pars: Seq<Par>, st: GState, k: int)
    requires
        0 <= k <= pars.len(),
        !(pars_gen(pars.take(k), st) is Done),
    ensures
        pars_gen(pars, st) == pars_gen(pars.take(k), st),
    decreases pars.len(),
{
    if k == pars.len() {
        assert(pars.take(k) =~= pars);
    } else {
        assert(pars.drop_last().take(k) =~= pars.take(k));
        lemma_pars_stop(pars.drop_last(), st, k);
    }
}

/// The names of a recursive group, in order, each bound to a new node of a
/// new unknown type: the state then and the nodes.
pub open spec fn rec_prelude(defs: Seq<Def>, st: GState) -> Gen<(GState, Seq<usize>)>
    decreases defs.len(),
{
    if defs.len() == 0 {
        Gen::Done((st, Seq::empty()))
    } else {
        match rec_prelude(defs.drop_last(), st) {
            Gen::Done((s1, ns)) => if room(s1, 1) {
                let (s2, u) = gen_fresh(s1, no_constraints());
                Gen::Done((gen_bind(s2, defs.last().id@, u), ns.push(s2.nodes.len() as usize)))
            } else {
                Gen::Failed(too_many(defs.last().span))
            },
            other => other,
        }
    }
}

/// Once a prefix of a recursive group fails to get its nodes, so does the
/// whole group.
pub proof fn lemma_prelude_stop(defs: Seq<Def>, st: GState, k: int)
    requires
        0 <= k <= defs.len(),
        !(rec_prelude(defs.take(k), st) is Done),
    ensures
        rec_prelude(defs, st) == rec_prelude(defs.take(k), st),
    decreases defs.len(),
{
    if k == defs.len() {
        assert(defs.take(k) =~= defs);
    } else {
        assert(defs.drop_last().take(k) =~= defs.take(k));
        lemma_prelude_stop(defs.drop_last(), st, k);
    }
}

} // verus!
