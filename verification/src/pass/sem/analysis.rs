use vstd::prelude::*;
use crate::parse::ast::Span;
use crate::parse::ast::Program;
use crate::parse::ast::annotation::TypeAnnotation;
use crate::parse::ast::def::{Def, DefKind, Definition, Letdef, Par};
use crate::parse::ast::expr::{ArrayAccess, Binop, Unop, Call, Clause, Dim, Expr, ExprKind, For, If, LetIn, Match, Pattern, PatternKind, While};
use super::{SemanticError, SemResult, lemma_annotated_no_unknowns, lemma_curried_ids};
use super::sem_table::{SemTable, lookup_in};
use super::pattern::{pattern_unknowns, patterns_unknowns, lemma_lookup_found, group_within, lemma_group_grows, lemma_group_push};
use super::types::inference::{extends, lemma_extends_trans, lemma_extends_refl, lemma_extends_push};
use super::types::{Type, TypeV, view_types, lemma_view_types, curried, fully_known};
use super::types::inference::{InferenceGroup, Inferer, Unification, group_ok, solve_post};
use super::types::type_map::TypeMap;
use super::types::subst::meaning;
use super::pattern::unif_view;
use super::types::subst::{ids_below, occurs, lemma_occurs_seq, apply, same_meaning, lemma_same_meaning_trans};
use super::types::type_map::type_text;
use crate::text::string_push_str;
use super::gen::{GState, Gen, too_many_message, after_op, after_pattern, array_def_gen, pars_gen, func_def_gen, written_or_fresh, def_type_gen, def_gen, gen_holds_func, gen_holds_unit, unop_expr_gen, binop_expr_gen, tabs, abs, gview, gen_holds, gen_holds_seq, room, too_many, gen_fresh, gen_record, gen_bind, gen_unif, gen_push, gen_pop, gen_instance, gen_unop, gen_binop, gen_pattern, lemma_made_unknown, expr_gen, exprs_gen, constant_call_gen, func_call_gen, constructor_call_gen, array_access_gen, dim_gen, if_gen, while_gen, for_gen, match_gen, clauses_gen};
use super::expr::{made_unknown, no_constraints, lemma_push_view, unop_unknown, binop_unknown};
use super::pattern::{gen_state, plain_unknowns_added};
use super::types::type_map::lemma_meaning_extends;
use super::pattern::error_matches;

verus! {

broadcast use lemma_extends_trans, lemma_extends_refl, lemma_extends_push;

/// The table is in order and has a scope to bind names in.
pub open spec fn ready(t: SemTable) -> bool {
    &&& t.wf()
    &&& t.scopes_view().len() > 0
}

/// `b` comes after `a` in the analysis: unknown types and nodes are only
/// ever added.
pub open spec fn grown(a: SemTable, b: SemTable) -> bool {
    &&& a.tmap().next_id() <= b.tmap().next_id()
    &&& a.tmap().node_types().len() <= b.tmap().node_types().len()
}

/// What each step of the analysis keeps, from table `a` to table `b` with
/// result `r`: the table stays in order and only grows, and on success the
/// scopes are as many as before and the type found names only unknown types
/// made so far.
pub open spec fn step_ok<T>(a: SemTable, b: SemTable, r: SemResult<T>) -> bool {
    &&& ready(b)
    &&& grown(a, b)
    &&& (r is Ok ==> b.scopes_view().len() == a.scopes_view().len())
}

/// On success, the scopes are as they were.
pub open spec fn same_scopes<T>(a: SemTable, b: SemTable, r: SemResult<T>) -> bool {
    r is Ok ==> b.scopes_view() == a.scopes_view()
}

/// On success, the type found names only unknown types made so far.
pub open spec fn typed_ok(b: SemTable, r: SemResult<Type>) -> bool {
    r matches Ok(t) ==> ids_below(t@, b.tmap().next_id())
}

pub open spec fn lookup_error(e: SemanticError, id: Seq<char>, span: Span) -> bool {
    e matches SemanticError::LookupError { id: i, span: s } && i@ == id && s == span
}

/// Every group below `n` is below any `m >= n`.
proof fn lemma_all_groups_grow(n: nat, m: nat)
    requires
        n <= m,
    ensures
        forall|g: Seq<Unification>| group_ok(g, n) ==> #[trigger] group_ok(g, m),
{
    assert forall|g: Seq<Unification>| group_ok(g, n) implies #[trigger] group_ok(g, m) by {
        lemma_group_grows(g, n, m);
    }
}

proof fn lemma_below_grows(t: TypeV, n: nat, m: nat)
    requires
        ids_below(t, n),
        n <= m,
    ensures
        ids_below(t, m),
{
}

proof fn lemma_below_ref(t: TypeV, n: nat)
    requires
        ids_below(t, n),
    ensures
        ids_below(TypeV::Ref(Box::new(t)), n),
{
    assert forall|u: u32| #[trigger] occurs(u, TypeV::Ref(Box::new(t))) implies u < n by {
        assert(occurs(u, t));
    }
}

proof fn lemma_below_array(t: TypeV, d: super::types::inference::ArrayDims, n: nat)
    requires
        ids_below(t, n),
    ensures
        ids_below(TypeV::Array(Box::new(t), d), n),
{
    assert forall|u: u32| #[trigger] occurs(u, TypeV::Array(Box::new(t), d)) implies u < n by {
        assert(occurs(u, t));
    }
}

proof fn lemma_below_tuple(ts: Seq<TypeV>, n: nat)
    requires
        forall|i: int| 0 <= i < ts.len() ==> ids_below(#[trigger] ts[i], n),
    ensures
        ids_below(TypeV::Tuple(ts), n),
{
    assert forall|u: u32| #[trigger] occurs(u, TypeV::Tuple(ts)) implies u < n by {
        lemma_occurs_seq(u, ts);
        let i = choose|i: int| 0 <= i < ts.len() && #[trigger] occurs(u, ts[i]);
        assert(ids_below(ts[i], n));
    }
}

proof fn lemma_below_plain(t: TypeV, n: nat)
    requires
        t is Unit || t is Int || t is Char || t is Bool || t is Float || t is Custom,
    ensures
        ids_below(t, n),
{
    assert forall|u: u32| #[trigger] occurs(u, t) implies u < n by {}
}

proof fn lemma_below_annotation(a: TypeAnnotation, n: nat)
    ensures
        ids_below(a@, n),
{
    assert forall|u: u32| #[trigger] occurs(u, a@) implies u < n by {
        lemma_annotated_no_unknowns(a, u);
    }
}

/// How many unknown types analysing a pattern makes at most, counted up to
/// `u32::MAX`.
fn count_pattern_unknowns(p: &Pattern) -> (r: u64)
    ensures
        r == if pattern_unknowns(*p) < u32::MAX { pattern_unknowns(*p) } else { u32::MAX as nat },
    decreases p,
{
    match &p.kind {
        PatternKind::IdUpper { args, .. } => count_patterns_unknowns(p, args),
        PatternKind::Tuple(elems) => {
            let c = count_patterns_unknowns(p, elems);
            if elems.len() < 4294967295usize && (elems.len() as u64) + c < 4294967295u64 {
                (elems.len() as u64) + c
            } else {
                4294967295u64
            }
        },
        _ => 0,
    }
}

/// The same count for the patterns of `ps`, from the first.
fn count_patterns_unknowns(p: &Pattern, ps: &Vec<Pattern>) -> (r: u64)
    requires
        (p.kind matches PatternKind::IdUpper { args, .. } && args == *ps) || p.kind == PatternKind::Tuple(*ps),
    ensures
        r == if patterns_unknowns(ps@) < u32::MAX { patterns_unknowns(ps@) } else { u32::MAX as nat },
    decreases p, 0nat,
{
    let mut total: u64 = 0;
    let mut i: usize = 0;
    while i < ps.len()
        invariant
            (p.kind matches PatternKind::IdUpper { args, .. } && args == *ps) || p.kind == PatternKind::Tuple(*ps),
            i <= ps.len(),
            total == if patterns_unknowns(ps@.take(i as int)) < u32::MAX { patterns_unknowns(ps@.take(i as int)) } else { u32::MAX as nat },
        decreases ps.len() - i,
    {
        proof {
            assert(ps@.take(i + 1).drop_last() =~= ps@.take(i as int));
            assert(decreases_to!(*ps => ps@[i as int]));
            assert(decreases_to!(*p => p.kind));
            if p.kind is IdUpper {
                assert(decreases_to!(p.kind => p.kind->args));
            } else {
                assert(decreases_to!(p.kind => p.kind->Tuple_0));
            }
        }
        let c = count_pattern_unknowns(&ps[i]);
        total = if total + c < 4294967295u64 { total + c } else { 4294967295u64 };
        i += 1;
    }
    proof {
        assert(ps@.take(ps.len() as int) =~= ps@);
    }
    total
}

impl SemTable {
    fn too_many(span: &Span) -> (e: SemanticError)
        ensures
            e matches SemanticError::GeneralError { msg, span: s } && msg@ == too_many_message() && s == *span,
    {
        SemanticError::GeneralError { msg: "too many unknown types".to_owned(), span: span.clone() }
    }

    /// A new unknown type, where one more can be numbered.
    fn unknown_at(&mut self, span: &Span) -> (r: SemResult<Type>)
        requires
            ready(*old(self)),
        ensures
            step_ok(*old(self), *final(self), r),
            typed_ok(*final(self), r),
            final(self).scopes_view() == old(self).scopes_view(),
            forall|g: Seq<Unification>| group_ok(g, old(self).tmap().next_id()) ==> #[trigger] group_ok(g, final(self).tmap().next_id()),
            room(tabs(*old(self)), 1) ==> (r matches Ok(u) && (tabs(*final(self)), u@) == gen_fresh(tabs(*old(self)), no_constraints())),
            !room(tabs(*old(self)), 1) ==> (r matches Err(e) && error_matches(e, too_many(*span)) && *final(self) == *old(self)),
    {
        proof {
            self.types.lemma_wf();
        }
        if !self.types.has_room(1) {
            return Err(Self::too_many(span));
        }
        let ghost t0 = self.tmap();
        let t = self.types.new_unknown();
        proof {
            lemma_all_groups_grow(old(self).tmap().next_id(), self.tmap().next_id());
            assert(self.tmap().constraints_view() =~= t0.constraints_view().push(no_constraints()));
            assert(made_unknown(t0, self.tmap(), Some(no_constraints())));
            lemma_made_unknown(t0, self.tmap(), Some(no_constraints()));
        }
        Ok(t)
    }

    /// The type of a node for one more use of it, as
    /// `node_type_or_instance` gives it.
    fn instance_of(&mut self, node: usize, span: &Span) -> (r: SemResult<Type>)
        requires
            ready(*old(self)),
            node < old(self).tmap().node_types().len(),
        ensures
            step_ok(*old(self), *final(self), r),
            typed_ok(*final(self), r),
            final(self).scopes_view() == old(self).scopes_view(),
            forall|g: Seq<Unification>| group_ok(g, old(self).tmap().next_id()) ==> #[trigger] group_ok(g, final(self).tmap().next_id()),
            match gen_instance(tabs(*old(self)), node as int, *span) {
                Gen::Done((st, t)) => r matches Ok(x) && x@ == t && tabs(*final(self)) == st,
                Gen::Failed(e) => r matches Err(x) && error_matches(x, e),
                Gen::Open => false,
            },
    {
        let r = match self.types.node_type_or_instance(node) {
            Some(t) => Ok(t),
            None => Err(Self::too_many(span)),
        };
        proof {
            lemma_all_groups_grow(old(self).tmap().next_id(), self.tmap().next_id());
        }
        r
    }

    /// Adds a unification of two types that name only unknown types made so
    /// far.
    fn unify_later(&self, inf_group: &mut InferenceGroup, lhs: Type, rhs: Type, msg: &'static str, span: &Span)
        requires
            group_within(*old(inf_group), *self),
            ids_below(lhs@, self.tmap().next_id()),
            ids_below(rhs@, self.tmap().next_id()),
        ensures
            final(inf_group).items() == old(inf_group).items().push(Unification { lhs, rhs, span: *span, msg }),
            group_within(*final(inf_group), *self),
            extends(old(inf_group).items(), final(inf_group).items()),
            abs(*self, *final(inf_group)) == gen_unif(abs(*self, *old(inf_group)), lhs@, rhs@, *span, msg@),
    {
        let ghost u = Unification { lhs, rhs, span: *span, msg };
        inf_group.insert_unification(lhs, rhs, msg, span);
        proof {
            lemma_group_push(old(inf_group).items(), u, self.tmap().next_id());
            lemma_push_view(old(inf_group).items(), u);
        }
    }

    /// Records a new node of type `t` and gives its number.
    fn record(&mut self, t: Type) -> (node: usize)
        requires
            ready(*old(self)),
            ids_below(t@, old(self).tmap().next_id()),
        ensures
            ready(*final(self)),
            node == old(self).tmap().node_types().len(),
            final(self).tmap().node_types() == old(self).tmap().node_types().push(t@),
            final(self).tmap().next_id() == old(self).tmap().next_id(),
            final(self).scopes_view() == old(self).scopes_view(),
            tabs(*final(self)) == gen_record(tabs(*old(self)), t@),
    {
        self.types.insert(t)
    }

    /// Records a new node of type `t` and binds `name` to it.
    fn bind(&mut self, name: &String, t: Type) -> (node: usize)
        requires
            ready(*old(self)),
            ids_below(t@, old(self).tmap().next_id()),
        ensures
            ready(*final(self)),
            node == old(self).tmap().node_types().len(),
            final(self).tmap().node_types() == old(self).tmap().node_types().push(t@),
            final(self).tmap().next_id() == old(self).tmap().next_id(),
            final(self).scopes_view().len() == old(self).scopes_view().len(),
            final(self).scopes_view().drop_last() == old(self).scopes_view().drop_last(),
            final(self).scopes_view().last() == old(self).scopes_view().last().insert(name@, node),
            tabs(*final(self)) == gen_bind(tabs(*old(self)), name@, t@),
    {
        let node = self.record(t);
        self.insert_scope_binding(name.as_str(), node);
        proof {
            assert(self.scopes_view().drop_last() =~= old(self).scopes_view().drop_last());
        }
        node
    }

    /// The node `id` is bound to.
    fn lookup_node(&self, id: &String, span: &Span) -> (r: SemResult<usize>)
        requires
            self.wf(),
        ensures
            r matches Ok(n) ==> n < self.tmap().node_types().len() && lookup_in(self.scopes_view(), id@) == Some(n),
            r matches Err(e) ==> lookup_in(self.scopes_view(), id@) is None && lookup_error(e, id@, *span),
            r is Err <==> lookup_in(self.scopes_view(), id@) is None,
    {
        match self.lookup(id.as_str()) {
            Some(n) => {
                proof {
                    lemma_lookup_found(self.scopes_view(), id@);
                }
                Ok(n)
            },
            None => Err(SemanticError::LookupError { id: id.clone(), span: span.clone() }),
        }
    }

    /// The type of a node.
    fn type_of_node(&self, node: usize) -> (r: Type)
        requires
            self.wf(),
            node < self.tmap().node_types().len(),
        ensures
            r@ == self.tmap().node_types()[node as int],
            ids_below(r@, self.tmap().next_id()),
    {
        proof {
            self.types.lemma_node_ids(node as int);
        }
        match self.types.get_node_type(node) {
            Some(t) => t,
            None => Type::Unit,
        }
    }
}


/// The type of a literal expression; `None` for the other expressions.
pub open spec fn literal_type(k: ExprKind) -> Option<TypeV> {
    match k {
        ExprKind::UnitLiteral => Some(TypeV::Unit),
        ExprKind::IntLiteral(_) => Some(TypeV::Int),
        ExprKind::FloatLiteral(_) => Some(TypeV::Float),
        ExprKind::CharLiteral(_) => Some(TypeV::Char),
        ExprKind::StringLiteral(_) => Some(TypeV::Array(Box::new(TypeV::Char), super::types::inference::ArrayDims::Known(1))),
        ExprKind::BoolLiteral(_) => Some(TypeV::Bool),
        _ => None,
    }
}

/// The name an expression looks up first, for calls, constructor calls,
/// array accesses and `dim`; `None` for the other expressions.
pub open spec fn called_name(k: ExprKind) -> Option<Seq<char>> {
    match k {
        ExprKind::Call(c) => Some(c.id@),
        ExprKind::ConstrCall(c) => Some(c.id@),
        ExprKind::ArrayAccess(a) => Some(a.id@),
        ExprKind::Dim(d) => Some(d.id@),
        _ => None,
    }
}

/// The parameter types read off a function type built from `pars`:
/// its argument types, as many as there are parameters.
pub open spec fn params_of(pars: Seq<Par>, f: TypeV) -> Seq<TypeV> {
    Seq::new(pars.len(), |i: int| arg_at(f, i))
}

/// The `i`-th argument type of a curried function type.
pub open spec fn arg_at(f: TypeV, i: int) -> TypeV
    decreases i,
{
    match f {
        TypeV::Func(a, b) => if i <= 0 { *a } else { arg_at(*b, i - 1) },
        _ => f,
    }
}

/// A function type built from `pars` takes, for each parameter with a
/// written type, that type.
pub open spec fn params_fit(pars: Seq<Par>, f: TypeV) -> bool {
    forall|i: int| 0 <= i < pars.len() ==> ((#[trigger] pars[i]).type_ matches Some(a) ==> arg_at(f, i) == a@)
}

/// A curried function type takes its first argument first.
proof fn lemma_curried_front(args: Seq<TypeV>, ret: TypeV)
    requires
        args.len() > 0,
    ensures
        curried(args, ret) == TypeV::Func(Box::new(args[0]), Box::new(curried(args.subrange(1, args.len() as int), ret))),
    decreases args.len(),
{
    if args.len() == 1 {
        let f = TypeV::Func(Box::new(args.last()), Box::new(ret));
        assert(args.drop_last().len() == 0);
        assert(curried(args, ret) == curried(args.drop_last(), f));
        assert(curried(args.drop_last(), f) == f);
        assert(args.subrange(1, 1).len() == 0);
        assert(curried(args.subrange(1, 1), ret) == ret);
        assert(args.last() == args[0]);
    } else {
        let d = args.drop_last();
        let f = TypeV::Func(Box::new(args.last()), Box::new(ret));
        assert(curried(args, ret) == curried(d, f));
        lemma_curried_front(d, f);
        let rest = args.subrange(1, args.len() as int);
        assert(rest.len() > 0);
        assert(curried(rest, ret) == curried(rest.drop_last(), TypeV::Func(Box::new(rest.last()), Box::new(ret))));
        assert(rest.drop_last() =~= d.subrange(1, d.len() as int));
        assert(rest.last() == args.last());
        assert(d[0] == args[0]);
    }
}

/// The `i`-th argument of a curried function type is the `i`-th of the
/// types it was built from.
proof fn lemma_arg_at_curried(ps: Seq<TypeV>, ret: TypeV, i: int)
    requires
        0 <= i < ps.len(),
    ensures
        arg_at(curried(ps, ret), i) == ps[i],
    decreases i,
{
    lemma_curried_front(ps, ret);
    if i > 0 {
        let rest = ps.subrange(1, ps.len() as int);
        lemma_arg_at_curried(rest, ret, i - 1);
        assert(rest[i - 1] == ps[i]);
    }
}

/// Every type of `ts` names only unknown types below `n`.
pub open spec fn all_below(ts: Seq<Type>, n: nat) -> bool {
    forall|k: int| 0 <= k < ts.len() ==> ids_below(#[trigger] ts[k]@, n)
}

proof fn lemma_all_below_grows(ts: Seq<Type>, n: nat, m: nat)
    requires
        all_below(ts, n),
        n <= m,
    ensures
        all_below(ts, m),
{
    assert forall|k: int| 0 <= k < ts.len() implies ids_below(#[trigger] ts[k]@, m) by {
        lemma_below_grows(ts[k]@, n, m);
    }
}

proof fn lemma_all_below_views(ts: Seq<Type>, n: nat)
    requires
        all_below(ts, n),
    ensures
        forall|k: int| 0 <= k < view_types(ts).len() ==> ids_below(#[trigger] view_types(ts)[k], n),
{
    lemma_view_types(ts);
    assert forall|k: int| 0 <= k < view_types(ts).len() implies ids_below(#[trigger] view_types(ts)[k], n) by {
        assert(view_types(ts)[k] == ts[k]@);
        assert(ids_below(ts[k]@, n));
    }
}

/// The result of a definition's analysis without its node.
pub open spec fn unit_of(r: SemResult<usize>) -> SemResult<()> {
    match r {
        Ok(_) => Ok(()),
        Err(e) => Err(e),
    }
}

/// How a definition whose analysis reached state `st` and node `n` ends in
/// table `t` with result `r`: its group of unifications, `st.group`, is
/// solved from the map of state `st`, which leaves the scopes and the nodes
/// as they are; on success the result is the node.
pub open spec fn def_solved(st: GState, n: usize, t: SemTable, r: SemResult<usize>) -> bool {
    &&& (r matches Ok(m) ==> m == n)
    &&& t.scopes_view() == st.scopes
    &&& t.tmap().node_types() == st.nodes
    &&& t.tmap().generic_nodes() == st.generic
    &&& exists|m: TypeMap, items: Seq<Unification>| {
        &&& #[trigger] solve_post(m, items, t.tmap(), unit_of(r))
        &&& m.node_types() == st.nodes
        &&& m.generic_nodes() == st.generic
        &&& meaning(m.subst()) == st.mean
        &&& m.constraints_view() == st.cs
        &&& items.map_values(|u: Unification| unif_view(u)) == st.group
    }
}

/// The result of analysing definition `d` with node `node` from table `a`:
/// its analysis as `def_gen` gives it, then the solving of its group.
pub open spec fn def_post(d: Def, node: Option<usize>, a: SemTable, b: SemTable, r: SemResult<usize>) -> bool {
    match def_gen(d, node, tabs(a)) {
        Gen::Done((st, n)) => def_solved(st, n, b, r),
        Gen::Failed(e) => r matches Err(x) && error_matches(x, e),
        Gen::Open => true,
    }
}

/// The node given to definition `j` of a group: that of a recursive group.
pub open spec fn given_at(given: Option<Seq<usize>>, j: int) -> Option<usize> {
    match given {
        Some(g) => Some(g[j]),
        None => None,
    }
}

/// Tables `ts` and nodes `ns`: for each `j < k`, analysing `defs[j]` from
/// `ts[j]`, with the node `given` for it where the group is recursive,
/// succeeded with node `ns[j]` and gave `ts[j + 1]`.
pub open spec fn defs_in_order(defs: Seq<Def>, given: Option<Seq<usize>>, ts: Seq<SemTable>, ns: Seq<usize>, k: int) -> bool {
    &&& 0 <= k <= defs.len()
    &&& ts.len() == k + 1
    &&& ns.len() == k
    &&& forall|j: int| 0 <= j < k ==> #[trigger] def_post(defs[j], given_at(given, j), ts[j], ts[j + 1], Ok(ns[j]))
    &&& forall|j: int| 0 <= j <= k ==> ready(#[trigger] ts[j])
}

/// What the bindings of table `t` make of the type of node `n`.
pub open spec fn resolved(t: SemTable, n: usize) -> TypeV {
    apply(t.tmap().subst(), t.tmap().node_types()[n as int])
}

/// The types of the first `k` nodes of `ns` are fully known in table `t`.
pub open spec fn all_known(t: SemTable, ns: Seq<usize>, k: int) -> bool {
    forall|j: int| 0 <= j < k ==> fully_known(#[trigger] resolved(t, ns[j]))
}

/// The scopes after binding the names of `defs`, in order, to the nodes
/// `ns` in the innermost scope.
pub open spec fn bind_all(scopes: Seq<Map<Seq<char>, usize>>, defs: Seq<Def>, ns: Seq<usize>) -> Seq<Map<Seq<char>, usize>>
    decreases defs.len(),
{
    if defs.len() == 0 {
        scopes
    } else {
        let s = bind_all(scopes, defs.drop_last(), ns.drop_last());
        s.update(s.len() - 1, s.last().insert(defs.last().id@, ns.last()))
    }
}

pub open spec fn rec_generic_prefix() -> Seq<char> {
    "Recursive generic def is not (yet) supported (of type "@
}

/// The error for a recursive definition `d` whose type, `t` as table `b`
/// writes it, is not fully known.
pub open spec fn rec_generic_error(e: SemanticError, d: Def, t: TypeV, b: SemTable) -> bool {
    e matches SemanticError::GeneralError { msg, span }
        && span == d.span
        && msg@ == rec_generic_prefix() + type_text(t, b.tmap().constraints_seq()) + ")"@
}

/// How a group of definitions that were analysed in order, as far as
/// `defs_in_order` says, ends in table `b` with result `r`: with the error
/// of the definition that failed; in a recursive group, with the error for
/// the first definition whose type is not fully known; else with success,
/// where the names of a group that is not recursive are then bound to their
/// nodes, in order, and no type is changed.
pub open spec fn letdef_end(l: Letdef, given: Option<Seq<usize>>, ts: Seq<SemTable>, ns: Seq<usize>, k: int, b: SemTable, r: SemResult<()>) -> bool {
    let defs = l.defs@;
    let last = ts[k];
    &&& defs_in_order(defs, given, ts, ns, k)
    &&& (k < defs.len() ==> (r matches Err(e) && def_post(defs[k], given_at(given, k), ts[k], b, Err(e))))
    &&& (k == defs.len() ==> (r is Ok <==> (!l.rec || all_known(last, ns, k))))
    &&& (k == defs.len() && l.rec && !all_known(last, ns, k) ==> (r matches Err(e) && exists|j: int| 0 <= j < k
            && all_known(last, ns, j) && !fully_known(#[trigger] resolved(last, ns[j])) && rec_generic_error(e, defs[j], resolved(last, ns[j]), b)))
    &&& (r is Ok ==> b.scopes_view() == if l.rec { last.scopes_view() } else { bind_all(last.scopes_view(), defs, ns) })
    &&& (r is Ok ==> b.tmap().node_types() == last.tmap().node_types() && same_meaning(last.tmap().subst(), b.tmap().subst()))
}

/// What analysing a group of definitions from state `st` gives, table `b`
/// and result `r`. The names of a recursive group are first bound to new
/// nodes as `rec_prelude` makes them; then the definitions are analysed in
/// order, and the group ends as `letdef_end` says.
pub open spec fn letdef_post(l: Letdef, st: GState, b: SemTable, r: SemResult<()>) -> bool {
    if l.rec {
        match super::gen::rec_prelude(l.defs@, st) {
            Gen::Done((s0, nodes)) => exists|ts: Seq<SemTable>, ns: Seq<usize>, k: int|
                #[trigger] letdef_end(l, Some(nodes), ts, ns, k, b, r) && tabs(ts[0]) == s0,
            Gen::Failed(e) => r matches Err(x) && error_matches(x, e),
            Gen::Open => true,
        }
    } else {
        exists|ts: Seq<SemTable>, ns: Seq<usize>, k: int| #[trigger] letdef_end(l, None, ts, ns, k, b, r) && tabs(ts[0]) == st
    }
}

/// The state after the type definitions `tdefs` from state `st`: their
/// names bound as `typedef_bound` says, the nodes they make not generic.
pub open spec fn typedef_state(tdefs: Seq<crate::parse::ast::def::TDef>, st: GState) -> GState {
    let n = super::typedef_bound(tdefs, super::Names { scopes: st.scopes, nodes: st.nodes });
    GState {
        scopes: n.scopes,
        nodes: n.nodes,
        generic: st.generic + Seq::new((n.nodes.len() - st.nodes.len()) as nat, |i: int| None::<Seq<TypeV>>),
        ..st
    }
}

/// What analysing a definition of a program from state `st` gives, table
/// `b` and result `r`.
pub open spec fn definition_post(d: Definition, st: GState, b: SemTable, r: SemResult<()>) -> bool {
    match d {
        Definition::Let(l) => letdef_post(l, st, b, r),
        Definition::Type(t) => r is Ok && tabs(b) == typedef_state(t.tdefs@, st),
    }
}

/// Tables `ts`: for each `j < k`, analysing `defs[j]` from `ts[j]`
/// succeeded and gave `ts[j + 1]`.
pub open spec fn program_in_order(defs: Seq<Definition>, ts: Seq<SemTable>, k: int) -> bool {
    &&& 0 <= k <= defs.len()
    &&& ts.len() == k + 1
    &&& forall|j: int| 0 <= j < k ==> #[trigger] definition_post(defs[j], tabs(ts[j]), ts[j + 1], Ok(()))
}

/// The state a program's analysis starts from: one empty scope, no nodes,
/// no unknown types.
pub open spec fn start_state() -> GState {
    GState {
        scopes: seq![Map::<Seq<char>, usize>::empty()],
        nodes: Seq::empty(),
        generic: Seq::empty(),
        mean: Seq::empty(),
        cs: Seq::empty(),
        group: Seq::empty(),
    }
}

/// What analysing the definitions `defs` of a program gives: they are
/// analysed in order from the start state; the first that fails gives the
/// error, and where none fails the table after the last is the result.
pub open spec fn program_post(defs: Seq<Definition>, r: SemResult<SemTable>) -> bool {
    exists|ts: Seq<SemTable>, k: int| {
        &&& #[trigger] program_in_order(defs, ts, k)
        &&& tabs(ts[0]) == start_state()
        &&& (k < defs.len() ==> (r matches Err(e) && exists|b: SemTable| #[trigger] definition_post(defs[k], tabs(ts[k]), b, Err(e))))
        &&& (k == defs.len() ==> r == Ok::<SemTable, SemanticError>(ts[k]))
    }
}

/// An analysis `g` with the scope it was made in closed again.
pub open spec fn popped(g: Gen<(GState, TypeV)>) -> Gen<(GState, TypeV)> {
    match g {
        Gen::Done((st, t)) => Gen::Done((gen_pop(st), t)),
        other => other,
    }
}

/// What `let ... in e` gives from table `a` and group `ga`, table `b`,
/// group `gb` and result `r`: its definitions are analysed in a new
/// innermost scope, as `letdef_post` says, giving table `t1`; their error
/// is the result, or else `e` is analysed there, after which that scope is
/// closed.
pub open spec fn letin_post(l: LetIn, a: SemTable, ga: InferenceGroup, b: SemTable, gb: InferenceGroup, r: SemResult<Type>) -> bool {
    exists|t1: SemTable, r1: SemResult<()>| {
        &&& #[trigger] letdef_post(l.letdef, gen_push(tabs(a)), t1, r1)
        &&& (r1 matches Err(e) ==> r == Err::<Type, SemanticError>(e))
        &&& (r1 is Ok ==> gen_holds(popped(expr_gen(*l.expr, abs(t1, ga))), r, abs(b, gb)))
    }
}

/// A recursive group that got its nodes and ended as `letdef_end` says
/// meets `letdef_post`.
proof fn lemma_letdef_post_rec(l: Letdef, a: SemTable, b: SemTable, r: SemResult<()>, ts: Seq<SemTable>, ns: Seq<usize>, k: int, nodes: Seq<usize>)
    requires
        l.rec,
        super::gen::rec_prelude(l.defs@, tabs(a)) == Gen::Done((tabs(ts[0]), nodes)),
        letdef_end(l, Some(nodes), ts, ns, k, b, r),
    ensures
        letdef_post(l, tabs(a), b, r),
{
    let g = super::gen::rec_prelude(l.defs@, tabs(a));
    assert(g->Done_0.0 == tabs(ts[0]));
    assert(g->Done_0.1 == nodes);
}

/// The state after a pattern's analysis, read off the tables.
proof fn lemma_after_pattern(a: SemTable, ga: InferenceGroup, b: SemTable, gb: InferenceGroup)
    requires
        ready(a),
        ready(b),
        plain_unknowns_added(a.tmap(), b.tmap()),
        a.tmap().node_types().len() <= b.tmap().node_types().len(),
    ensures
        abs(b, gb) == after_pattern(abs(a, ga), gen_state(b, gb)),
{
    let ta = a.tmap();
    let tb = b.tmap();
    ta.lemma_wf();
    tb.lemma_wf();
    ta.lemma_generic_len();
    tb.lemma_generic_len();
    assert(tb.subst().bind.take(ta.subst().bind.len() as int) == ta.subst().bind);
    lemma_meaning_extends(ta.subst(), tb.subst());
    let na = ta.node_types().len();
    let nb = tb.node_types().len();
    assert(tb.generic_nodes() =~= ta.generic_nodes() + Seq::new((nb - na) as nat, |i: int| None::<Seq<TypeV>>));
    let k = ta.next_id() as int;
    assert forall|i: int| 0 <= i < k implies #[trigger] tb.constraints_view()[i] == ta.constraints_view()[i] by {
        assert(tb.constraints_view().take(k)[i] == tb.constraints_view()[i]);
    }
    assert(tb.constraints_view() =~= ta.constraints_view() + Seq::new((tb.next_id() - ta.next_id()) as nat, |i: int| no_constraints()));
}

/// The state after an operator's analysis, read off the tables.
proof fn lemma_after_op(a: SemTable, ga: InferenceGroup, b: SemTable, gb: InferenceGroup, c: Option<super::types::inference::ConstraintsV>)
    requires
        ready(a),
        ready(b),
        gen_state(b, gb).scopes == a.scopes_view(),
        gen_state(b, gb).nodes == a.tmap().node_types(),
        made_unknown(a.tmap(), b.tmap(), c),
        b.tmap().generic_nodes() == a.tmap().generic_nodes(),
    ensures
        abs(b, gb) == after_op(abs(a, ga), gen_state(b, gb), c),
{
    a.tmap().lemma_wf();
    b.tmap().lemma_wf();
    lemma_made_unknown(a.tmap(), b.tmap(), c);
}

impl SemTable {
    /// Analyses an expression: gives its type, records it as the type of a
    /// new node, and adds to `inf_group` what must hold of the types of its
    /// parts.
    #[verifier::spinoff_prover]
    #[verifier::rlimit(100)]
    pub fn sem_expr(&mut self, inf_group: &mut InferenceGroup, expr: &Expr) -> (r: SemResult<Type>)
        requires
            ready(*old(self)),
            group_within(*old(inf_group), *old(self)),
        ensures
            gen_holds(expr_gen(*expr, abs(*old(self), *old(inf_group))), r, abs(*final(self), *final(inf_group))),
            step_ok(*old(self), *final(self), r),
            group_within(*final(inf_group), *final(self)),
            extends(old(inf_group).items(), final(inf_group).items()),
            same_scopes(*old(self), *final(self), r),
            typed_ok(*final(self), r),
            r is Ok ==> old(self).tmap().node_types().len() < final(self).tmap().node_types().len(),
            r matches Ok(t) ==> final(self).tmap().node_types().last() == t@,
            literal_type(expr.kind) matches Some(lt) ==> (r matches Ok(t) && t@ == lt),
            expr.kind matches ExprKind::New(a) ==> (r matches Ok(t) && t@ == TypeV::Ref(Box::new(a@))),
            called_name(expr.kind) matches Some(id) ==> (lookup_in(old(self).scopes_view(), id) is None
                ==> (r matches Err(e) && lookup_error(e, id, expr.span))),
            (expr.kind is While || expr.kind is For) ==> (r matches Ok(t) ==> t@ == TypeV::Unit),
            expr.kind is Dim ==> (r matches Ok(t) ==> t@ == TypeV::Int),
            expr.kind matches ExprKind::LetIn(l) ==> exists|t2: SemTable| {
                &&& #[trigger] letin_post(l, *old(self), *old(inf_group), t2, *final(inf_group), r)
                &&& tabs(*final(self)) == if r is Ok { gen_record(tabs(t2), r->Ok_0@) } else { tabs(t2) }
            },
        decreases expr, 1nat,
    {
        proof {
            self.types.lemma_wf();
        }
        let ghost mut t_letin = *self;
        let expr_type = match &expr.kind {
            ExprKind::UnitLiteral => self.types.get_unit(),
            ExprKind::IntLiteral(_) => self.types.get_int(),
            ExprKind::FloatLiteral(_) => self.types.get_float(),
            ExprKind::CharLiteral(_) => self.types.get_char(),
            ExprKind::StringLiteral(_) => Type::new_known_array(self.types.get_char(), 1),
            ExprKind::BoolLiteral(_) => self.types.get_bool(),
            ExprKind::Tuple(exprs) => {
                proof {
                    assert(decreases_to!(*expr => expr.kind));
                    assert(decreases_to!(expr.kind => *exprs));
                }
                let ts = self.sem_exprs(inf_group, exprs)?;
                proof {
                    lemma_all_below_views(ts@, self.tmap().next_id());
                    lemma_below_tuple(view_types(ts@), self.tmap().next_id());
                }
                Type::new_tuple(ts)
            },
            ExprKind::Unop(unop) => {
                proof {
                    assert(decreases_to!(*expr => expr.kind));
                    assert(decreases_to!(expr.kind => *unop));
                }
                self.sem_unop_expr(inf_group, unop, &expr.span)?
            },
            ExprKind::Binop(binop) => {
                proof {
                    assert(decreases_to!(*expr => expr.kind));
                    assert(decreases_to!(expr.kind => *binop));
                }
                self.sem_binop_expr(inf_group, binop, &expr.span)?
            },
            ExprKind::Call(call) => {
                proof {
                    assert(decreases_to!(*expr => expr.kind));
                    assert(decreases_to!(expr.kind => *call));
                }
                if call.args.len() == 0 {
                    self.sem_constant_call(call, &expr.span)?
                } else {
                    self.sem_func_call(inf_group, call, &expr.span)?
                }
            },
            ExprKind::ConstrCall(call) => {
                proof {
                    assert(decreases_to!(*expr => expr.kind));
                    assert(decreases_to!(expr.kind => *call));
                }
                self.sem_constructor_call(inf_group, call, &expr.span)?
            },
            ExprKind::ArrayAccess(access) => {
                proof {
                    assert(decreases_to!(*expr => expr.kind));
                    assert(decreases_to!(expr.kind => *access));
                }
                self.sem_array_access(inf_group, access, &expr.span)?
            },
            ExprKind::Dim(dim) => self.sem_dim(inf_group, dim, &expr.span)?,
            ExprKind::New(annotation) => {
                proof {
                    lemma_below_annotation(*annotation, self.tmap().next_id());
                    lemma_below_ref(annotation@, self.tmap().next_id());
                }
                Type::new_ref(Type::from_annotation(annotation))
            },
            ExprKind::LetIn(letin) => {
                proof {
                    assert(decreases_to!(*expr => expr.kind));
                    assert(decreases_to!(expr.kind => *letin));
                }
                let res = self.sem_letin(inf_group, letin);
                proof {
                    t_letin = *self;
                }
                match res {
                    Err(e) => {
                        proof {
                            assert(letin_post(*letin, *old(self), *old(inf_group), t_letin, *inf_group, Err(e)));
                        }
                        return Err(e);
                    },
                    Ok(t) => t,
                }
            },
            ExprKind::If(if_expr) => {
                proof {
                    assert(decreases_to!(*expr => expr.kind));
                    assert(decreases_to!(expr.kind => *if_expr));
                }
                self.sem_if(inf_group, if_expr, &expr.span)?
            },
            ExprKind::While(while_expr) => {
                proof {
                    assert(decreases_to!(*expr => expr.kind));
                    assert(decreases_to!(expr.kind => *while_expr));
                }
                self.sem_while(inf_group, while_expr, &expr.span)?
            },
            ExprKind::For(for_expr) => {
                proof {
                    assert(decreases_to!(*expr => expr.kind));
                    assert(decreases_to!(expr.kind => *for_expr));
                }
                self.sem_for(inf_group, for_expr, &expr.span)?
            },
            ExprKind::Match(match_expr) => {
                proof {
                    assert(decreases_to!(*expr => expr.kind));
                    assert(decreases_to!(expr.kind => *match_expr));
                }
                self.sem_match(inf_group, match_expr, &expr.span)?
            },
        };
        proof {
            let t = expr_type@;
            if t is Unit || t is Int || t is Char || t is Bool || t is Float {
                lemma_below_plain(t, self.tmap().next_id());
            }
            if expr.kind is StringLiteral {
                lemma_below_plain(TypeV::Char, self.tmap().next_id());
                lemma_below_array(TypeV::Char, super::types::inference::ArrayDims::Known(1), self.tmap().next_id());
            }
        }
        let ghost before_record = *self;
        self.record(expr_type.clone());
        proof {
            if expr.kind is LetIn {
                assert(before_record == t_letin);
                assert(letin_post(expr.kind->LetIn_0, *old(self), *old(inf_group), t_letin, *inf_group, Ok(expr_type)));
            }
        }
        Ok(expr_type)
    }

    /// A unary operation: the operand, then what the operator asks of it.
    fn sem_unop_expr(&mut self, inf_group: &mut InferenceGroup, unop: &Unop, span: &Span) -> (r: SemResult<Type>)
        requires
            ready(*old(self)),
            group_within(*old(inf_group), *old(self)),
        ensures
            gen_holds(unop_expr_gen(*unop, *span, abs(*old(self), *old(inf_group))), r, abs(*final(self), *final(inf_group))),
            step_ok(*old(self), *final(self), r),
            group_within(*final(inf_group), *final(self)),
            extends(old(inf_group).items(), final(inf_group).items()),
            same_scopes(*old(self), *final(self), r),
            typed_ok(*final(self), r),
        decreases unop, 0nat,
    {
        proof {
            assert(decreases_to!(*unop => *unop.operand));
        }
        let op_type = self.sem_expr(inf_group, &unop.operand)?;
        proof {
            self.types.lemma_wf();
        }
        if !self.types.has_room(1) {
            return Err(Self::too_many(span));
        }
        let ghost n = self.tmap().next_id();
        let ghost a = *self;
        let ghost ga = *inf_group;
        let t = self.sem_unop(inf_group, unop, span, op_type)?;
        proof {
            lemma_below_grows(op_type@, n, n + 1);
            if unop.op is Deref {
                assert(t@ == TypeV::Unknown(n as u32));
                assert forall|u: u32| #[trigger] occurs(u, t@) implies u < n + 1 by {}
            } else if unop.op is Not || unop.op is Delete {
                lemma_below_plain(t@, n + 1);
            }
            lemma_after_op(a, ga, *self, *inf_group, unop_unknown(unop.op));
        }
        Ok(t)
    }

    /// A binary operation: the left operand, the right one, then what the
    /// operator asks of them.
    fn sem_binop_expr(&mut self, inf_group: &mut InferenceGroup, binop: &Binop, span: &Span) -> (r: SemResult<Type>)
        requires
            ready(*old(self)),
            group_within(*old(inf_group), *old(self)),
        ensures
            gen_holds(binop_expr_gen(*binop, *span, abs(*old(self), *old(inf_group))), r, abs(*final(self), *final(inf_group))),
            step_ok(*old(self), *final(self), r),
            group_within(*final(inf_group), *final(self)),
            extends(old(inf_group).items(), final(inf_group).items()),
            same_scopes(*old(self), *final(self), r),
            typed_ok(*final(self), r),
        decreases binop, 0nat,
    {
        proof {
            assert(decreases_to!(*binop => *binop.lhs));
            assert(decreases_to!(*binop => *binop.rhs));
        }
        let lhs_type = self.sem_expr(inf_group, &binop.lhs)?;
        let ghost nl = self.tmap().next_id();
        let rhs_type = self.sem_expr(inf_group, &binop.rhs)?;
        proof {
            lemma_below_grows(lhs_type@, nl, self.tmap().next_id());
            self.types.lemma_wf();
        }
        if !self.types.has_room(1) {
            return Err(Self::too_many(span));
        }
        let ghost n = self.tmap().next_id();
        let ghost rt = rhs_type@;
        let ghost a = *self;
        let ghost ga = *inf_group;
        let t = self.sem_binop(inf_group, binop, span, lhs_type, rhs_type)?;
        proof {
            lemma_below_grows(rt, n, self.tmap().next_id());
            if !(t@ == rt) {
                lemma_below_plain(t@, self.tmap().next_id());
            }
            lemma_after_op(a, ga, *self, *inf_group, binop_unknown(binop.op));
        }
        Ok(t)
    }

    /// Analyses the expressions of `exprs` in order and gives their types.
    fn sem_exprs(&mut self, inf_group: &mut InferenceGroup, exprs: &Vec<Expr>) -> (r: SemResult<Vec<Type>>)
        requires
            ready(*old(self)),
            group_within(*old(inf_group), *old(self)),
        ensures
            gen_holds_seq(exprs_gen(exprs@, abs(*old(self), *old(inf_group))), r, abs(*final(self), *final(inf_group))),
            step_ok(*old(self), *final(self), r),
            group_within(*final(inf_group), *final(self)),
            extends(old(inf_group).items(), final(inf_group).items()),
            same_scopes(*old(self), *final(self), r),
            r matches Ok(ts) ==> ts.len() == exprs.len() && all_below(ts@, final(self).tmap().next_id()),
        decreases exprs, 0nat,
    {
        let ghost st0 = abs(*self, *inf_group);
        let mut ts: Vec<Type> = Vec::new();
        let mut i: usize = 0;
        proof {
            assert(exprs@.take(0) =~= Seq::<Expr>::empty());
            assert(ts@ =~= Seq::<Type>::empty());
        }
        while i < exprs.len()
            invariant
                i <= exprs.len(),
                st0 == abs(*old(self), *old(inf_group)),
                ready(*self),
                grown(*old(self), *self),
                self.scopes_view() == old(self).scopes_view(),
                ts.len() == i,
                all_below(ts@, self.tmap().next_id()),
                group_within(*inf_group, *self),
                extends(old(inf_group).items(), inf_group.items()),
                exprs_gen(exprs@.take(i as int), st0) is Open
                    || exprs_gen(exprs@.take(i as int), st0) == Gen::Done((abs(*self, *inf_group), view_types(ts@))),
            decreases exprs.len() - i,
        {
            proof {
                assert(decreases_to!(*exprs => exprs@[i as int]));
                assert(exprs@.take(i + 1).drop_last() =~= exprs@.take(i as int));
                assert(exprs@.take(i + 1)[i as int] == exprs@[i as int]);
            }
            let ghost n = self.tmap().next_id();
            let res = self.sem_expr(inf_group, &exprs[i]);
            match res {
                Err(e) => {
                    proof {
                        if exprs_gen(exprs@.take(i as int), st0) is Open {
                            super::gen::lemma_exprs_stop(exprs@, st0, i as int);
                        } else {
                            super::gen::lemma_exprs_stop(exprs@, st0, i + 1);
                        }
                    }
                    return Err(e);
                },
                Ok(t) => {
                    proof {
                        lemma_all_below_grows(ts@, n, self.tmap().next_id());
                    }
                    let ghost ts0 = ts@;
                    ts.push(t);
                    proof {
                        assert(ts@.drop_last() =~= ts0);
                    }
                    i += 1;
                },
            }
        }
        proof {
            assert(exprs@.take(exprs@.len() as int) =~= exprs@);
        }
        Ok(ts)
    }
}


impl SemTable {
    /// A call of a name with no arguments: the type of what it names, a
    /// fresh instance of it where that is generic.
    pub fn sem_constant_call(&mut self, call: &Call, span: &Span) -> (r: SemResult<Type>)
        requires
            ready(*old(self)),
        ensures
            gen_holds(constant_call_gen(*call, *span, tabs(*old(self))), r, tabs(*final(self))),
            step_ok(*old(self), *final(self), r),
            same_scopes(*old(self), *final(self), r),
            typed_ok(*final(self), r),
            forall|g: Seq<Unification>| group_ok(g, old(self).tmap().next_id()) ==> #[trigger] group_ok(g, final(self).tmap().next_id()),
            lookup_in(old(self).scopes_view(), call.id@) is None ==> (r matches Err(e) && lookup_error(e, call.id@, *span)),
    {
        let node = self.lookup_node(&call.id, span)?;
        self.instance_of(node, span)
    }

    /// A call of a function with arguments: the called type must be a
    /// function from the argument types to the type of the call.
    pub fn sem_func_call(&mut self, inf_group: &mut InferenceGroup, call: &Call, span: &Span) -> (r: SemResult<Type>)
        requires
            ready(*old(self)),
            group_within(*old(inf_group), *old(self)),
        ensures
            gen_holds(func_call_gen(*call, *span, abs(*old(self), *old(inf_group))), r, abs(*final(self), *final(inf_group))),
            step_ok(*old(self), *final(self), r),
            group_within(*final(inf_group), *final(self)),
            extends(old(inf_group).items(), final(inf_group).items()),
            same_scopes(*old(self), *final(self), r),
            typed_ok(*final(self), r),
            lookup_in(old(self).scopes_view(), call.id@) is None ==> (r matches Err(e) && lookup_error(e, call.id@, *span)),
        decreases call, 0nat,
    {
        let node = self.lookup_node(&call.id, span)?;
        let called_type = self.instance_of(node, span)?;
        proof {
            assert(decreases_to!(*call => call.args));
        }
        let ghost n0 = self.tmap().next_id();
        let arg_types = self.sem_exprs(inf_group, &call.args)?;
        let ghost n1 = self.tmap().next_id();
        let expr_type = self.unknown_at(span)?;
        proof {
            lemma_below_grows(called_type@, n0, self.tmap().next_id());
            lemma_all_below_grows(arg_types@, n1, self.tmap().next_id());
            lemma_all_below_views(arg_types@, self.tmap().next_id());
            lemma_curried_ids(view_types(arg_types@), expr_type@, self.tmap().next_id());
        }
        let f = Type::new_multi_arg_func(arg_types, expr_type.clone());
        self.unify_later(inf_group, called_type, f, "function call must match function signature", span);
        Ok(expr_type)
    }

    /// A call of a constructor: its type must be a function from the
    /// argument types to the type of the call.
    pub fn sem_constructor_call(&mut self, inf_group: &mut InferenceGroup, call: &Call, span: &Span) -> (r: SemResult<Type>)
        requires
            ready(*old(self)),
            group_within(*old(inf_group), *old(self)),
        ensures
            gen_holds(constructor_call_gen(*call, *span, abs(*old(self), *old(inf_group))), r, abs(*final(self), *final(inf_group))),
            step_ok(*old(self), *final(self), r),
            group_within(*final(inf_group), *final(self)),
            extends(old(inf_group).items(), final(inf_group).items()),
            same_scopes(*old(self), *final(self), r),
            typed_ok(*final(self), r),
            lookup_in(old(self).scopes_view(), call.id@) is None ==> (r matches Err(e) && lookup_error(e, call.id@, *span)),
        decreases call, 0nat,
    {
        let node = self.lookup_node(&call.id, span)?;
        let constructor_type = self.type_of_node(node);
        proof {
            assert(decreases_to!(*call => call.args));
        }
        let ghost n0 = self.tmap().next_id();
        let arg_types = self.sem_exprs(inf_group, &call.args)?;
        let ghost n1 = self.tmap().next_id();
        let expr_type = self.unknown_at(span)?;
        proof {
            lemma_below_grows(constructor_type@, n0, self.tmap().next_id());
            lemma_all_below_grows(arg_types@, n1, self.tmap().next_id());
            lemma_all_below_views(arg_types@, self.tmap().next_id());
            lemma_curried_ids(view_types(arg_types@), expr_type@, self.tmap().next_id());
        }
        let f = Type::new_multi_arg_func(arg_types, expr_type.clone());
        self.unify_later(inf_group, constructor_type, f, "constructor call must match constructor signature", span);
        Ok(expr_type)
    }

    /// An access to an array: the array must have as many dimensions as
    /// there are indexes, and the access is a reference to an element.
    #[verifier::spinoff_prover]
    pub fn sem_array_access(&mut self, inf_group: &mut InferenceGroup, access: &ArrayAccess, span: &Span) -> (r: SemResult<Type>)
        requires
            ready(*old(self)),
            group_within(*old(inf_group), *old(self)),
        ensures
            gen_holds(array_access_gen(*access, *span, abs(*old(self), *old(inf_group))), r, abs(*final(self), *final(inf_group))),
            step_ok(*old(self), *final(self), r),
            group_within(*final(inf_group), *final(self)),
            extends(old(inf_group).items(), final(inf_group).items()),
            same_scopes(*old(self), *final(self), r),
            typed_ok(*final(self), r),
            lookup_in(old(self).scopes_view(), access.id@) is None ==> (r matches Err(e) && lookup_error(e, access.id@, *span)),
            r matches Ok(t) ==> t@ is Ref,
        decreases access, 0nat,
    {
        let node = self.lookup_node(&access.id, span)?;
        let array_type = self.type_of_node(node);
        proof {
            assert(decreases_to!(*access => access.indexes));
        }
        let ghost n0 = self.tmap().next_id();
        let index_types = self.sem_exprs(inf_group, &access.indexes)?;
        let ghost s2 = abs(*self, *inf_group);
        let contained = self.unknown_at(span)?;
        proof {
            lemma_view_types(index_types@);
            assert((abs(*self, *inf_group), contained@) == gen_fresh(s2, no_constraints()));
        }
        let count = #[verifier::truncate] (index_types.len() as u32);
        proof {
            lemma_below_grows(array_type@, n0, self.tmap().next_id());
            lemma_below_array(contained@, super::types::inference::ArrayDims::Known(count), self.tmap().next_id());
        }
        self.unify_later(inf_group, 
            array_type,
            Type::new_known_array(contained.clone(), count),
            "array access must match array signature",
            span,
        );
        proof {
            lemma_below_ref(contained@, self.tmap().next_id());
        }
        Ok(Type::new_ref(contained))
    }

    /// `dim`: the array must have at least the dimension asked for, and the
    /// result is an integer.
    pub fn sem_dim(&mut self, inf_group: &mut InferenceGroup, dim: &Dim, span: &Span) -> (r: SemResult<Type>)
        requires
            ready(*old(self)),
            group_within(*old(inf_group), *old(self)),
        ensures
            gen_holds(dim_gen(*dim, *span, abs(*old(self), *old(inf_group))), r, abs(*final(self), *final(inf_group))),
            step_ok(*old(self), *final(self), r),
            group_within(*final(inf_group), *final(self)),
            extends(old(inf_group).items(), final(inf_group).items()),
            same_scopes(*old(self), *final(self), r),
            typed_ok(*final(self), r),
            lookup_in(old(self).scopes_view(), dim.id@) is None ==> (r matches Err(e) && lookup_error(e, dim.id@, *span)),
            r matches Ok(t) ==> t@ == TypeV::Int,
    {
        let node = self.lookup_node(&dim.id, span)?;
        let array_type = self.type_of_node(node);
        let ghost n0 = self.tmap().next_id();
        let inner = self.unknown_at(span)?;
        let bound = dim.dim as u32;
        proof {
            lemma_below_grows(array_type@, n0, self.tmap().next_id());
            lemma_below_array(inner@, super::types::inference::ArrayDims::LowerBounded(bound), self.tmap().next_id());
        }
        self.unify_later(inf_group, 
            array_type,
            Type::new_bounded_array(inner, bound),
            "dim call must be on an array that has at least as meany dimensions as the call",
            span,
        );
        proof {
            lemma_below_plain(TypeV::Int, self.tmap().next_id());
        }
        Ok(self.types.get_int())
    }

    /// `let ... in e`: the definitions are made in a scope of their own,
    /// and the type is that of `e`.
    pub fn sem_letin(&mut self, inf_group: &mut InferenceGroup, letin: &LetIn) -> (r: SemResult<Type>)
        requires
            ready(*old(self)),
            group_within(*old(inf_group), *old(self)),
        ensures
            letin_post(*letin, *old(self), *old(inf_group), *final(self), *final(inf_group), r),
            step_ok(*old(self), *final(self), r),
            group_within(*final(inf_group), *final(self)),
            extends(old(inf_group).items(), final(inf_group).items()),
            same_scopes(*old(self), *final(self), r),
            typed_ok(*final(self), r),
        decreases letin, 0nat,
    {
        self.push_scope();
        proof {
            assert(self.scopes_view().drop_last() =~= old(self).scopes_view());
            assert(decreases_to!(*letin => letin.letdef));
            assert(decreases_to!(*letin => *letin.expr));
            assert(tabs(*self) == gen_push(tabs(*old(self))));
        }
        let ghost n = self.tmap().next_id();
        let defined = self.sem_letdef(&letin.letdef);
        let ghost t1 = *self;
        proof {
            lemma_all_groups_grow(n, self.tmap().next_id());
            if defined is Ok {
                assert(defined->Ok_0 == ());
                assert(defined == Ok::<(), SemanticError>(()));
            }
        }
        match defined {
            Err(e) => {
                proof {
                    assert(letdef_post(letin.letdef, gen_push(tabs(*old(self))), t1, Err(e)));
                }
                return Err(e);
            },
            Ok(()) => {},
        }
        proof {
            assert(letdef_post(letin.letdef, gen_push(tabs(*old(self))), t1, Ok(())));
        }
        let t = self.sem_expr(inf_group, &letin.expr)?;
        self.pop_scope();
        Ok(t)
    }

    /// `if`: the condition is a boolean and both branches have one type,
    /// the unit type where there is no `else`.
    pub fn sem_if(&mut self, inf_group: &mut InferenceGroup, if_expr: &If, span: &Span) -> (r: SemResult<Type>)
        requires
            ready(*old(self)),
            group_within(*old(inf_group), *old(self)),
        ensures
            gen_holds(if_gen(*if_expr, *span, abs(*old(self), *old(inf_group))), r, abs(*final(self), *final(inf_group))),
            step_ok(*old(self), *final(self), r),
            group_within(*final(inf_group), *final(self)),
            extends(old(inf_group).items(), final(inf_group).items()),
            same_scopes(*old(self), *final(self), r),
            typed_ok(*final(self), r),
        decreases if_expr, 0nat,
    {
        proof {
            assert(decreases_to!(*if_expr => *if_expr.cond));
            assert(decreases_to!(*if_expr => *if_expr.then_body));
        }
        let cond_type = self.sem_expr(inf_group, &if_expr.cond)?;
        self.unify_later(inf_group, cond_type, self.types.get_bool(), "if expression condition must be a boolean", span);
        let then_type = self.sem_expr(inf_group, &if_expr.then_body)?;
        let else_type = match &if_expr.else_body {
            Some(else_body) => {
                proof {
                    assert(decreases_to!(*if_expr => if_expr.else_body));
                    assert(decreases_to!(if_expr.else_body => if_expr.else_body->0));
                }
                self.sem_expr(inf_group, else_body)?
            },
            None => {
                proof {
                    lemma_below_plain(TypeV::Unit, self.tmap().next_id());
                }
                self.types.get_unit()
            },
        };
        self.unify_later(inf_group, then_type, else_type.clone(), "if expression branches must be of the same type", span);
        Ok(else_type)
    }

    /// `while`: the condition is a boolean, the body of the unit type, and
    /// so is the loop.
    pub fn sem_while(&mut self, inf_group: &mut InferenceGroup, while_expr: &While, span: &Span) -> (r: SemResult<Type>)
        requires
            ready(*old(self)),
            group_within(*old(inf_group), *old(self)),
        ensures
            gen_holds(while_gen(*while_expr, *span, abs(*old(self), *old(inf_group))), r, abs(*final(self), *final(inf_group))),
            step_ok(*old(self), *final(self), r),
            group_within(*final(inf_group), *final(self)),
            extends(old(inf_group).items(), final(inf_group).items()),
            same_scopes(*old(self), *final(self), r),
            typed_ok(*final(self), r),
            r matches Ok(t) ==> t@ == TypeV::Unit,
        decreases while_expr, 0nat,
    {
        proof {
            assert(decreases_to!(*while_expr => *while_expr.cond));
            assert(decreases_to!(*while_expr => *while_expr.body));
        }
        let cond_type = self.sem_expr(inf_group, &while_expr.cond)?;
        self.unify_later(inf_group, cond_type, self.types.get_bool(), "while expression condition must be a boolean", span);
        let body_type = self.sem_expr(inf_group, &while_expr.body)?;
        self.unify_later(inf_group, body_type, self.types.get_unit(), "while expression body must be of unit type", span);
        proof {
            lemma_below_plain(TypeV::Unit, self.tmap().next_id());
        }
        Ok(self.types.get_unit())
    }

    /// `for`: the bounds are integers, the counter is an integer bound in a
    /// scope of its own, the body and the loop are of the unit type.
    pub fn sem_for(&mut self, inf_group: &mut InferenceGroup, for_expr: &For, span: &Span) -> (r: SemResult<Type>)
        requires
            ready(*old(self)),
            group_within(*old(inf_group), *old(self)),
        ensures
            gen_holds(for_gen(*for_expr, *span, abs(*old(self), *old(inf_group))), r, abs(*final(self), *final(inf_group))),
            step_ok(*old(self), *final(self), r),
            group_within(*final(inf_group), *final(self)),
            extends(old(inf_group).items(), final(inf_group).items()),
            same_scopes(*old(self), *final(self), r),
            typed_ok(*final(self), r),
            r matches Ok(t) ==> t@ == TypeV::Unit,
        decreases for_expr, 0nat,
    {
        proof {
            assert(decreases_to!(*for_expr => *for_expr.from));
            assert(decreases_to!(*for_expr => *for_expr.to));
            assert(decreases_to!(*for_expr => *for_expr.body));
        }
        let init_type = self.sem_expr(inf_group, &for_expr.from)?;
        let end_type = self.sem_expr(inf_group, &for_expr.to)?;
        self.unify_later(inf_group, init_type, self.types.get_int(), "for expression init and end bounds must be integers", span);
        self.unify_later(inf_group, end_type, self.types.get_int(), "for expression init and end bounds must be integers", span);
        self.push_scope();
        proof {
            assert(self.scopes_view().drop_last() =~= old(self).scopes_view());
            lemma_below_plain(TypeV::Int, self.tmap().next_id());
        }
        self.bind(&for_expr.id, self.types.get_int());
        let body_type = self.sem_expr(inf_group, &for_expr.body)?;
        self.unify_later(inf_group, body_type, self.types.get_unit(), "for expression body must be of unit type", span);
        self.pop_scope();
        proof {
            lemma_below_plain(TypeV::Unit, self.tmap().next_id());
        }
        Ok(self.types.get_unit())
    }

    /// `match`: each clause's pattern is analysed against the matched type,
    /// in a scope of its own, and all clauses have one type, that of the
    /// match.
    pub fn sem_match(&mut self, inf_group: &mut InferenceGroup, match_expr: &Match, span: &Span) -> (r: SemResult<Type>)
        requires
            ready(*old(self)),
            group_within(*old(inf_group), *old(self)),
        ensures
            gen_holds(match_gen(*match_expr, *span, abs(*old(self), *old(inf_group))), r, abs(*final(self), *final(inf_group))),
            step_ok(*old(self), *final(self), r),
            group_within(*final(inf_group), *final(self)),
            extends(old(inf_group).items(), final(inf_group).items()),
            same_scopes(*old(self), *final(self), r),
            typed_ok(*final(self), r),
        decreases match_expr, 0nat,
    {
        proof {
            assert(decreases_to!(*match_expr => *match_expr.to_match));
        }
        let to_match_type = self.sem_expr(inf_group, &match_expr.to_match)?;
        let ghost s1 = abs(*self, *inf_group);
        let return_type = self.unknown_at(span)?;
        let ghost st2 = abs(*self, *inf_group);
        proof {
            assert((st2, return_type@) == gen_fresh(s1, no_constraints()));
            if !(expr_gen(*match_expr.to_match, abs(*old(self), *old(inf_group))) is Open) {
                assert(expr_gen(*match_expr.to_match, abs(*old(self), *old(inf_group))) == Gen::Done((s1, to_match_type@)));
                assert(room(s1, 1));
            }
        }
        let clauses = &match_expr.clauses;
        let mut i: usize = 0;
        proof {
            assert(clauses@.take(0) =~= Seq::<Clause>::empty());
        }
        while i < clauses.len()
            invariant
                !(match_gen(*match_expr, *span, abs(*old(self), *old(inf_group))) is Open) ==> match_gen(*match_expr, *span, abs(*old(self), *old(inf_group))) == match clauses_gen(clauses@, to_match_type@, return_type@, *span, st2) {
                    Gen::Done(s3) => Gen::Done((s3, return_type@)),
                    Gen::Failed(x) => Gen::Failed(x),
                    Gen::Open => Gen::Open,
                },
                i <= clauses.len(),
                *clauses == match_expr.clauses,
                ready(*self),
                grown(*old(self), *self),
                self.scopes_view() == old(self).scopes_view(),
                ids_below(to_match_type@, self.tmap().next_id()),
                ids_below(return_type@, self.tmap().next_id()),
                group_within(*inf_group, *self),
                extends(old(inf_group).items(), inf_group.items()),
                clauses_gen(clauses@.take(i as int), to_match_type@, return_type@, *span, st2) is Open
                    || clauses_gen(clauses@.take(i as int), to_match_type@, return_type@, *span, st2) == Gen::Done(abs(*self, *inf_group)),
            decreases clauses.len() - i,
        {
            let clause = &clauses[i];
            let ghost ct0 = to_match_type@;
            let ghost rt0 = return_type@;
            proof {
                assert(decreases_to!(*match_expr => match_expr.clauses));
                assert(decreases_to!(match_expr.clauses => match_expr.clauses@[i as int]));
                assert(decreases_to!(match_expr.clauses@[i as int] => clause.expr));
                assert(clauses@.take(i + 1).drop_last() =~= clauses@.take(i as int));
                assert(clauses@.take(i + 1)[i as int] == clauses@[i as int]);
            }
            let ghost prefix_open = clauses_gen(clauses@.take(i as int), ct0, rt0, *span, st2) is Open;
            let ghost at_start = self.scopes_view();
            self.push_scope();
            proof {
                assert(self.scopes_view().drop_last() =~= at_start);
                self.types.lemma_wf();
            }
            let c = count_pattern_unknowns(&clause.pattern);
            if !self.types.has_room(c) {
                proof {
                    if prefix_open {
                        super::gen::lemma_clauses_stop(clauses@, ct0, rt0, *span, st2, i as int);
                    } else {
                        super::gen::lemma_clauses_stop(clauses@, ct0, rt0, *span, st2, i + 1);
                    }
                }
                return Err(Self::too_many(&clause.pattern.span));
            }
            let ghost n = self.tmap().next_id();
            let ghost a = *self;
            let ghost ga = *inf_group;
            let pres = self.sem_pattern(inf_group, &clause.pattern, to_match_type.clone());
            match pres {
                Err(e) => {
                    proof {
                        if prefix_open {
                            super::gen::lemma_clauses_stop(clauses@, ct0, rt0, *span, st2, i as int);
                        } else {
                            super::gen::lemma_clauses_stop(clauses@, ct0, rt0, *span, st2, i + 1);
                        }
                    }
                    return Err(e);
                },
                Ok(()) => {},
            }
            proof {
                lemma_after_pattern(a, ga, *self, *inf_group);
                lemma_below_grows(to_match_type@, n, self.tmap().next_id());
                lemma_below_grows(return_type@, n, self.tmap().next_id());
            }
            let ghost n2 = self.tmap().next_id();
            let cres = self.sem_expr(inf_group, &clause.expr);
            let clause_type = match cres {
                Err(e) => {
                    proof {
                        if prefix_open {
                            super::gen::lemma_clauses_stop(clauses@, ct0, rt0, *span, st2, i as int);
                        } else {
                            super::gen::lemma_clauses_stop(clauses@, ct0, rt0, *span, st2, i + 1);
                        }
                    }
                    return Err(e);
                },
                Ok(t) => t,
            };
            proof {
                lemma_below_grows(return_type@, n2, self.tmap().next_id());
            }
            self.unify_later(inf_group, clause_type, return_type.clone(), "match expression clauses must all have the same type", span);
            self.pop_scope();
            i += 1;
        }
        proof {
            assert(clauses@.take(clauses@.len() as int) =~= clauses@);
        }
        Ok(return_type)
    }
}


/// The names of the value definitions among the first `n` definitions of a
/// program are bound in the innermost scope.
pub open spec fn top_names_bound(scopes: Seq<Map<Seq<char>, usize>>, defs: Seq<Definition>, n: int) -> bool {
    forall|j: int, k: int| 0 <= j < n && defs[j] is Let && 0 <= k < defs[j]->Let_0.defs.len()
        ==> scopes.last().contains_key(#[trigger] defs[j]->Let_0.defs@[k].id@)
}

/// What the bindings make of the type of the node each name of `defs` is
/// bound to in the innermost scope is fully known.
pub open spec fn group_known(scopes: Seq<Map<Seq<char>, usize>>, defs: Seq<Def>, t: super::types::type_map::TypeMap) -> bool {
    forall|k: int| 0 <= k < defs.len() ==> fully_known(apply(t.subst(), t.node_types()[scopes.last()[(#[trigger] defs[k]).id@] as int]))
}

/// Every name bound in the innermost scope of `a` is bound in that of `b`.
pub open spec fn keeps_names(a: Seq<Map<Seq<char>, usize>>, b: Seq<Map<Seq<char>, usize>>) -> bool {
    forall|name: Seq<char>| #[trigger] a.last().contains_key(name) ==> b.last().contains_key(name)
}

/// The names of the first `n` definitions of `defs` are bound in the
/// innermost scope.
pub open spec fn names_bound(scopes: Seq<Map<Seq<char>, usize>>, defs: Seq<Def>, n: int) -> bool {
    forall|k: int| 0 <= k < n ==> scopes.last().contains_key(#[trigger] defs[k].id@)
}

/// Analyses a whole program: its definitions in order, each type
/// definition binding its types and constructors, each value definition its
/// values, in one outermost scope.
pub fn sem(ast: &Program) -> (r: SemResult<SemTable>)
    ensures
        program_post(ast.definitions@, r),
        r matches Ok(t) ==> ready(t) && t.scopes_view().len() == 1,
        r matches Ok(t) ==> top_names_bound(t.scopes_view(), ast.definitions@, ast.definitions.len() as int),
{
    let mut table = SemTable::new();
    proof {
        table.types.lemma_wf();
        table.types.lemma_generic_len();
        assert(meaning(table.tmap().subst()) =~= Seq::<TypeV>::empty());
        assert(table.tmap().constraints_view() =~= Seq::<super::types::inference::ConstraintsV>::empty());
        assert(table.tmap().generic_nodes() =~= Seq::<Option<Seq<TypeV>>>::empty());
        assert(tabs(table) == start_state());
    }
    let defs = &ast.definitions;
    let ghost mut ts: Seq<SemTable> = seq![table];
    let mut i: usize = 0;
    while i < defs.len()
        invariant
            i <= defs.len(),
            *defs == ast.definitions,
            ready(table),
            table.scopes_view().len() == 1,
            top_names_bound(table.scopes_view(), defs@, i as int),
            program_in_order(defs@, ts, i as int),
            tabs(ts[0]) == start_state(),
            ts[i as int] == table,
        decreases defs.len() - i,
    {
        let ghost before = table.scopes_view();
        let ghost t_before = table;
        match &defs[i] {
            Definition::Let(letdef) => {
                let res = table.sem_letdef(letdef);
                match res {
                    Err(e) => {
                        proof {
                            assert(definition_post(defs@[i as int], tabs(ts[i as int]), table, Err(e)));
                            assert(program_in_order(defs@, ts, i as int));
                        }
                        return Err(e);
                    },
                    Ok(()) => {
                        proof {
                            assert(res->Ok_0 == ());
                            assert(res == Ok::<(), SemanticError>(()));
                        }
                    },
                }
            },
            Definition::Type(typedef) => {
                let res = table.sem_typedef(typedef);
                proof {
                    assert(res->Ok_0 == ());
                    t_before.types.lemma_generic_len();
                    assert(tabs(table) == typedef_state(typedef.tdefs@, tabs(t_before)));
                }
                res?;
            },
        }
        proof {
            assert(definition_post(defs@[i as int], tabs(ts[i as int]), table, Ok(())));
            let ts0 = ts;
            ts = ts.push(table);
            assert forall|j: int| 0 <= j < i + 1 implies #[trigger] definition_post(defs@[j], tabs(ts[j]), ts[j + 1], Ok(())) by {
                if j < i {
                    assert(ts[j] == ts0[j] && ts[j + 1] == ts0[j + 1]);
                }
            }
            assert(keeps_names(before, table.scopes_view()));
            assert forall|j: int, k: int| 0 <= j < i + 1 && defs@[j] is Let && 0 <= k < defs@[j]->Let_0.defs.len()
                implies table.scopes_view().last().contains_key(#[trigger] defs@[j]->Let_0.defs@[k].id@) by {
                if j < i {
                    assert(before.last().contains_key(defs@[j]->Let_0.defs@[k].id@));
                }
            }
        }
        i += 1;
    }
    Ok(table)
}

impl SemTable {
    /// Analyses a group of value definitions. The names of a recursive
    /// group are bound before their definitions are analysed, to new
    /// unknown types; those of other groups after. A recursive definition
    /// whose type is not fully known after its analysis is refused. Every
    /// definition that is not a variable or an array and whose type is not
    /// fully known becomes generic.
    pub fn sem_letdef(&mut self, letdef: &Letdef) -> (r: SemResult<()>)
        requires
            ready(*old(self)),
        ensures
            step_ok(*old(self), *final(self), r),
            r is Ok ==> final(self).scopes_view().drop_last() == old(self).scopes_view().drop_last(),
            r is Ok ==> names_bound(final(self).scopes_view(), letdef.defs@, letdef.defs.len() as int),
            r is Ok ==> keeps_names(old(self).scopes_view(), final(self).scopes_view()),
            letdef.rec && r is Ok ==> group_known(final(self).scopes_view(), letdef.defs@, final(self).tmap()),
            letdef_post(*letdef, tabs(*old(self)), *final(self), r),
        decreases letdef, 1nat,
    {
        let defs = &letdef.defs;
        let mut nodes: Vec<usize> = Vec::new();
        let ghost st_start = tabs(*self);
        if letdef.rec {
            let mut i: usize = 0;
            proof {
                assert(defs@.take(0) =~= Seq::<Def>::empty());
                assert(nodes@ =~= Seq::<usize>::empty());
            }
            while i < defs.len()
                invariant
                    i <= defs.len(),
                    ready(*self),
                    grown(*old(self), *self),
                    self.scopes_view().len() == old(self).scopes_view().len(),
                    self.scopes_view().drop_last() == old(self).scopes_view().drop_last(),
                    names_bound(self.scopes_view(), defs@, i as int),
                    keeps_names(old(self).scopes_view(), self.scopes_view()),
                    nodes.len() == i,
                    forall|k: int| 0 <= k < nodes.len() ==> #[trigger] nodes@[k] < self.tmap().node_types().len(),
                    forall|k: int| 0 <= k < i ==> nodes@.contains(self.scopes_view().last()[(#[trigger] defs@[k]).id@]),
                    st_start == tabs(*old(self)),
                    super::gen::rec_prelude(defs@.take(i as int), st_start) == Gen::Done((tabs(*self), nodes@)),
                    letdef.rec,
                    *defs == letdef.defs,
                decreases defs.len() - i,
            {
                proof {
                    assert(defs@.take(i + 1).drop_last() =~= defs@.take(i as int));
                    assert(defs@.take(i + 1).last() == defs@[i as int]);
                }
                let ghost s1 = tabs(*self);
                let t = match self.unknown_at(&defs[i].span) {
                    Err(e) => {
                        proof {
                            super::gen::lemma_prelude_stop(defs@, st_start, i + 1);
                        }
                        return Err(e);
                    },
                    Ok(t) => t,
                };
                let ghost before = self.scopes_view();
                let ghost nodes0 = nodes@;
                let ghost s2 = tabs(*self);
                let node = self.bind(&defs[i].id, t);
                nodes.push(node);
                proof {
                    assert(nodes@[i as int] == node);
                    assert(node == s2.nodes.len());
                    assert(nodes@ == nodes0.push(node));
                    assert forall|k: int| 0 <= k < i + 1 implies nodes@.contains(self.scopes_view().last()[(#[trigger] defs@[k]).id@]) by {
                        if defs@[k].id@ == defs@[i as int].id@ {
                            assert(self.scopes_view().last()[defs@[k].id@] == node);
                        } else {
                            let m = before.last()[defs@[k].id@];
                            assert(self.scopes_view().last()[defs@[k].id@] == m);
                            assert(nodes0.contains(m));
                            let j = choose|j: int| 0 <= j < nodes0.len() && nodes0[j] == m;
                            assert(nodes@[j] == m);
                        }
                    }
                }
                i += 1;
            }
            proof {
                assert(defs@.take(defs@.len() as int) =~= defs@);
            }
        }
        let ghost s1 = self.scopes_view();
        let ghost t0 = *self;
        let ghost given: Option<Seq<usize>> = if letdef.rec { Some(nodes@) } else { None };
        proof {
            if letdef.rec {
                assert(super::gen::rec_prelude(defs@, tabs(*old(self))) == Gen::Done((tabs(t0), nodes@)));
            }
        }
        let ghost mut ts: Seq<SemTable> = seq![*self];
        let ghost mut ns: Seq<usize> = Seq::empty();
        let mut i: usize = 0;
        while i < defs.len()
            invariant
                i <= defs.len(),
                *defs == letdef.defs,
                ready(*self),
                grown(*old(self), *self),
                self.scopes_view().len() == old(self).scopes_view().len(),
                self.scopes_view().drop_last() == old(self).scopes_view().drop_last(),
                names_bound(self.scopes_view(), defs@, if letdef.rec { defs.len() as int } else { 0 }),
                keeps_names(old(self).scopes_view(), self.scopes_view()),
                letdef.rec ==> nodes.len() == defs.len(),
                !letdef.rec ==> nodes.len() == i,
                letdef.rec ==> self.scopes_view() == s1,
                letdef.rec ==> forall|k: int| 0 <= k < defs.len() ==> nodes@.contains(s1.last()[(#[trigger] defs@[k]).id@]),
                forall|k: int| 0 <= k < nodes.len() ==> #[trigger] nodes@[k] < self.tmap().node_types().len(),
                defs_in_order(defs@, given, ts, ns, i as int),
                ts[i as int] == *self,
                ts[0] == t0,
                letdef.rec ==> super::gen::rec_prelude(defs@, tabs(*old(self))) == Gen::Done((tabs(t0), nodes@)) && given == Some(nodes@),
                !letdef.rec ==> t0 == *old(self) && given is None,
                !letdef.rec ==> nodes@ == ns,
                letdef.rec ==> forall|j: int| 0 <= j < i ==> #[trigger] ns[j] == nodes@[j],
            decreases defs.len() - i,
        {
            proof {
                assert(decreases_to!(*letdef => letdef.defs));
                assert(decreases_to!(letdef.defs => letdef.defs@[i as int]));
            }
            let given_node = if letdef.rec { Some(nodes[i]) } else { None };
            let res = self.sem_def(&defs[i], given_node);
            let node = match res {
                Err(e) => {
                    proof {
                        assert(given_node == given_at(given, i as int));
                        assert(letdef_end(*letdef, given, ts, ns, i as int, *self, Err(e)));
                        if letdef.rec {
                            assert(letdef.defs@ == defs@);
                            assert(super::gen::rec_prelude(letdef.defs@, tabs(*old(self))) == Gen::Done((tabs(ts[0]), nodes@)));
                            assert(letdef_end(*letdef, Some(nodes@), ts, ns, i as int, *self, Err(e)));
                            lemma_letdef_post_rec(*letdef, *old(self), *self, Err(e), ts, ns, i as int, nodes@);
                        } else {
                            assert(letdef_end(*letdef, None, ts, ns, i as int, *self, Err(e)));
                            assert(letdef_post(*letdef, tabs(*old(self)), *self, Err(e)));
                        }
                    }
                    return Err(e);
                },
                Ok(n) => n,
            };
            if !letdef.rec {
                nodes.push(node);
            }
            proof {
                assert(given_node == given_at(given, i as int));
                let ts0 = ts;
                let ns0 = ns;
                ts = ts.push(*self);
                ns = ns.push(node);
                assert forall|j: int| 0 <= j < i + 1 implies #[trigger] def_post(defs@[j], given_at(given, j), ts[j], ts[j + 1], Ok(ns[j])) by {
                    if j < i {
                        assert(ts[j] == ts0[j] && ts[j + 1] == ts0[j + 1] && ns[j] == ns0[j]);
                    }
                }
                assert forall|j: int| 0 <= j <= i + 1 implies ready(#[trigger] ts[j]) by {
                    if j <= i {
                        assert(ts[j] == ts0[j]);
                    }
                }
                if letdef.rec {
                    assert forall|j: int| 0 <= j < i + 1 implies #[trigger] ns[j] == nodes@[j] by {
                        if j < i {
                            assert(ns[j] == ns0[j]);
                        }
                    }
                }
            }
            i += 1;
        }
        let ghost last = *self;
        if !letdef.rec {
            let mut i: usize = 0;
            proof {
                assert(defs@.take(0) =~= Seq::<Def>::empty());
                assert(ns.take(0) =~= Seq::<usize>::empty());
            }
            while i < defs.len()
                invariant
                    i <= defs.len(),
                    ready(*self),
                    grown(*old(self), *self),
                    self.scopes_view().len() == old(self).scopes_view().len(),
                    self.scopes_view().drop_last() == old(self).scopes_view().drop_last(),
                    names_bound(self.scopes_view(), defs@, i as int),
                    keeps_names(old(self).scopes_view(), self.scopes_view()),
                    nodes.len() == defs.len(),
                    forall|k: int| 0 <= k < nodes.len() ==> #[trigger] nodes@[k] < self.tmap().node_types().len(),
                    nodes@ == ns,
                    self.tmap() == last.tmap(),
                    self.scopes_view() == bind_all(last.scopes_view(), defs@.take(i as int), ns.take(i as int)),
                    defs_in_order(defs@, given, ts, ns, defs@.len() as int),
                    ts[defs@.len() as int] == last,
                    ts[0] == t0,
                    letdef.rec ==> super::gen::rec_prelude(defs@, tabs(*old(self))) == Gen::Done((tabs(t0), nodes@)) && given == Some(nodes@),
                    !letdef.rec ==> t0 == *old(self) && given is None,
                    !letdef.rec,
                    *defs == letdef.defs,
                decreases defs.len() - i,
            {
                let ghost before = self.scopes_view();
                self.insert_scope_binding(defs[i].id.as_str(), nodes[i]);
                proof {
                    assert(self.scopes_view().drop_last() =~= before.drop_last());
                    assert(self.scopes_view().last() == before.last().insert(defs@[i as int].id@, nodes@[i as int]));
                    assert(defs@.take(i + 1).drop_last() =~= defs@.take(i as int));
                    assert(ns.take(i + 1).drop_last() =~= ns.take(i as int));
                }
                i += 1;
            }
            proof {
                assert(defs@.take(defs@.len() as int) =~= defs@);
                assert(ns.take(ns.len() as int) =~= ns);
            }
        }
        if letdef.rec {
            let mut i: usize = 0;
            while i < defs.len()
                invariant
                    i <= defs.len(),
                    ready(*self),
                    grown(*old(self), *self),
                    self.scopes_view().len() == old(self).scopes_view().len(),
                    self.scopes_view().drop_last() == old(self).scopes_view().drop_last(),
                    names_bound(self.scopes_view(), defs@, defs.len() as int),
                    keeps_names(old(self).scopes_view(), self.scopes_view()),
                    nodes.len() == defs.len(),
                    forall|k: int| 0 <= k < nodes.len() ==> #[trigger] nodes@[k] < self.tmap().node_types().len(),
                    self.scopes_view() == s1,
                    forall|k: int| 0 <= k < defs.len() ==> nodes@.contains(s1.last()[(#[trigger] defs@[k]).id@]),
                    forall|j: int| 0 <= j < i ==> fully_known(apply(self.tmap().subst(), self.tmap().node_types()[#[trigger] nodes@[j] as int])),
                    ns.len() == defs.len(),
                    forall|j: int| 0 <= j < ns.len() ==> #[trigger] ns[j] == nodes@[j],
                    self.scopes_view() == last.scopes_view(),
                    self.tmap().node_types() == last.tmap().node_types(),
                    same_meaning(last.tmap().subst(), self.tmap().subst()),
                    all_known(last, ns, i as int),
                    defs_in_order(defs@, given, ts, ns, defs@.len() as int),
                    ts[defs@.len() as int] == last,
                    ts[0] == t0,
                    letdef.rec ==> super::gen::rec_prelude(defs@, tabs(*old(self))) == Gen::Done((tabs(t0), nodes@)) && given == Some(nodes@),
                    !letdef.rec ==> t0 == *old(self) && given is None,
                    letdef.rec,
                    *defs == letdef.defs,
                decreases defs.len() - i,
            {
                let ghost sb = self.tmap().subst();
                let t = self.resolved_type_of(nodes[i]);
                proof {
                    assert forall|j: int| 0 <= j < i implies fully_known(apply(self.tmap().subst(), self.tmap().node_types()[#[trigger] nodes@[j] as int])) by {
                        assert(apply(self.tmap().subst(), self.tmap().node_types()[nodes@[j] as int]) == apply(sb, self.tmap().node_types()[nodes@[j] as int]));
                    }
                    assert(apply(self.tmap().subst(), self.tmap().node_types()[nodes@[i as int] as int]) == t@);
                    lemma_same_meaning_trans(last.tmap().subst(), sb, self.tmap().subst());
                    assert(t@ == resolved(last, ns[i as int]));
                }
                if !t.is_fully_known() {
                    let mut msg = String::new();
                    string_push_str(&mut msg, "Recursive generic def is not (yet) supported (of type ");
                    let text = self.types.type_text(&t);
                    string_push_str(&mut msg, text.as_str());
                    string_push_str(&mut msg, ")");
                    proof {
                        assert(msg@ =~= rec_generic_prefix() + type_text(t@, self.tmap().constraints_seq()) + ")"@);
                    }
                    let e = SemanticError::GeneralError { msg, span: defs[i].span.clone() };
                    proof {
                        assert(rec_generic_error(e, defs@[i as int], resolved(last, ns[i as int]), *self));
                        assert(!all_known(last, ns, defs@.len() as int));
                        assert(letdef_end(*letdef, given, ts, ns, defs@.len() as int, *self, Err(e)));
                            if letdef.rec {
                                assert(letdef.defs@ == defs@);
                                assert(super::gen::rec_prelude(letdef.defs@, tabs(*old(self))) == Gen::Done((tabs(ts[0]), nodes@)));
                                assert(letdef_end(*letdef, Some(nodes@), ts, ns, defs@.len() as int, *self, Err(e)));
                                lemma_letdef_post_rec(*letdef, *old(self), *self, Err(e), ts, ns, defs@.len() as int, nodes@);
                            } else {
                                assert(letdef_end(*letdef, None, ts, ns, defs@.len() as int, *self, Err(e)));
                                assert(letdef_post(*letdef, tabs(*old(self)), *self, Err(e)));
                            }
                    }
                    return Err(e);
                }
                i += 1;
            }
        }
        let mut i: usize = 0;
        while i < defs.len()
            invariant
                i <= defs.len(),
                ready(*self),
                grown(*old(self), *self),
                self.scopes_view().len() == old(self).scopes_view().len(),
                self.scopes_view().drop_last() == old(self).scopes_view().drop_last(),
                names_bound(self.scopes_view(), defs@, defs.len() as int),
                keeps_names(old(self).scopes_view(), self.scopes_view()),
                nodes.len() == defs.len(),
                forall|k: int| 0 <= k < nodes.len() ==> #[trigger] nodes@[k] < self.tmap().node_types().len(),
                letdef.rec ==> self.scopes_view() == s1,
                letdef.rec ==> forall|k: int| 0 <= k < defs.len() ==> nodes@.contains(s1.last()[(#[trigger] defs@[k]).id@]),
                letdef.rec ==> forall|j: int| 0 <= j < nodes.len() ==> fully_known(apply(self.tmap().subst(), self.tmap().node_types()[#[trigger] nodes@[j] as int])),
                letdef.rec ==> all_known(last, ns, defs@.len() as int),
                self.scopes_view() == if letdef.rec { last.scopes_view() } else { bind_all(last.scopes_view(), defs@, ns) },
                self.tmap().node_types() == last.tmap().node_types(),
                same_meaning(last.tmap().subst(), self.tmap().subst()),
                defs_in_order(defs@, given, ts, ns, defs@.len() as int),
                ts[defs@.len() as int] == last,
                ts[0] == t0,
                letdef.rec ==> super::gen::rec_prelude(defs@, tabs(*old(self))) == Gen::Done((tabs(t0), nodes@)) && given == Some(nodes@),
                !letdef.rec ==> t0 == *old(self) && given is None,
                *defs == letdef.defs,
            decreases defs.len() - i,
        {
            let ghost sb = self.tmap().subst();
            let t = self.resolved_type_of(nodes[i]);
            proof {
                lemma_same_meaning_trans(last.tmap().subst(), sb, self.tmap().subst());
                if letdef.rec {
                    assert forall|j: int| 0 <= j < nodes.len() implies fully_known(apply(self.tmap().subst(), self.tmap().node_types()[#[trigger] nodes@[j] as int])) by {
                        assert(apply(self.tmap().subst(), self.tmap().node_types()[nodes@[j] as int]) == apply(sb, self.tmap().node_types()[nodes@[j] as int]));
                    }
                }
            }
            let plain = match &defs[i].kind {
                DefKind::Variable => true,
                DefKind::Array { .. } => true,
                _ => false,
            };
            if !t.is_fully_known() && !plain {
                self.types.mark_generic(nodes[i]);
            }
            i += 1;
        }
        proof {
            if letdef.rec {
                assert forall|k: int| 0 <= k < defs.len() implies fully_known(apply(self.tmap().subst(),
                    self.tmap().node_types()[self.scopes_view().last()[(#[trigger] defs@[k]).id@] as int])) by {
                    let m = s1.last()[defs@[k].id@];
                    assert(nodes@.contains(m));
                    let j = choose|j: int| 0 <= j < nodes@.len() && nodes@[j] == m;
                    assert(fully_known(apply(self.tmap().subst(), self.tmap().node_types()[nodes@[j] as int])));
                }
            }
            assert(letdef_end(*letdef, given, ts, ns, defs@.len() as int, *self, Ok(())));
            if letdef.rec {
                assert(letdef.defs@ == defs@);
                assert(super::gen::rec_prelude(letdef.defs@, tabs(*old(self))) == Gen::Done((tabs(ts[0]), nodes@)));
                assert(letdef_end(*letdef, Some(nodes@), ts, ns, defs@.len() as int, *self, Ok(())));
                lemma_letdef_post_rec(*letdef, *old(self), *self, Ok(()), ts, ns, defs@.len() as int, nodes@);
            } else {
                assert(letdef_end(*letdef, None, ts, ns, defs@.len() as int, *self, Ok(())));
                assert(letdef_post(*letdef, tabs(*old(self)), *self, Ok(())));
            }
        }
        Ok(())
    }

    /// What the bindings make of the type of a node.
    fn resolved_type_of(&mut self, node: usize) -> (r: Type)
        requires
            ready(*old(self)),
            node < old(self).tmap().node_types().len(),
        ensures
            ready(*final(self)),
            final(self).scopes_view() == old(self).scopes_view(),
            final(self).tmap().node_types() == old(self).tmap().node_types(),
            final(self).tmap().next_id() == old(self).tmap().next_id(),
            ids_below(r@, final(self).tmap().next_id()),
            r@ == apply(old(self).tmap().subst(), old(self).tmap().node_types()[node as int]),
            same_meaning(old(self).tmap().subst(), final(self).tmap().subst()),
    {
        let t = self.type_of_node(node);
        let ghost s0 = self.tmap().subst();
        proof {
            self.types.lemma_wf();
            super::types::subst::lemma_apply_resolved(s0, t@);
        }
        let ghost before = self.types;
        let r = self.types.deep_resolve_type(t);
        proof {
            self.types.lemma_same_nodes_ok(&before);
        }
        r
    }

    /// Analyses one value definition, with its own group of unifications,
    /// which is solved at its end. `node` is the node already made for it,
    /// in a recursive group; else a new node is made. Gives the node.
    pub fn sem_def(&mut self, def: &Def, node: Option<usize>) -> (r: SemResult<usize>)
        requires
            ready(*old(self)),
            node matches Some(n) ==> n < old(self).tmap().node_types().len(),
        ensures
            step_ok(*old(self), *final(self), r),
            same_scopes(*old(self), *final(self), r),
            r matches Ok(n) ==> n < final(self).tmap().node_types().len(),
            node matches Some(n) ==> (r matches Ok(m) ==> m == n),
            node is None ==> (r matches Ok(n) ==> old(self).tmap().node_types().len() <= n),
            node is None && !(def.kind is Function) ==> (def.type_ matches Some(a) ==> (r matches Ok(n)
                ==> final(self).tmap().node_types()[n as int] == a@)),
            node is None && def.kind is Function ==> (r matches Ok(n) ==> n > 0 && ({
                let s = final(self).tmap().subst();
                let f = final(self).tmap().node_types()[n as int];
                let b = final(self).tmap().node_types()[n - 1];
                &&& f == curried(params_of(def.kind->pars@, f), b)
                &&& params_fit(def.kind->pars@, f)
                &&& (def.type_ matches Some(a) ==> apply(s, a@) == apply(s, b))
            })),
            def_post(*def, node, *old(self), *final(self), r),
            node is None && def.kind is Const ==> (r matches Ok(n) ==> n > 0 && (if def.type_ is None {
                final(self).tmap().node_types()[n as int] == final(self).tmap().node_types()[n - 1]
            } else {
                apply(final(self).tmap().subst(), final(self).tmap().node_types()[n as int])
                    == apply(final(self).tmap().subst(), final(self).tmap().node_types()[n - 1])
            })),
        decreases def, 1nat,
    {
        let mut inf_group = self.new_inference_group();
        proof {
            assert(gview(inf_group) =~= Seq::<super::pattern::UnifV>::empty());
            assert(abs(*self, inf_group) == tabs(*self));
        }
        let annotation_type: Option<Type> = match &def.type_ {
            Some(a) => {
                proof {
                    lemma_below_annotation(*a, self.tmap().next_id());
                }
                Some(Type::from_annotation(a))
            },
            None => None,
        };
        proof {
            assert(decreases_to!(*def => def.kind));
        }
        let ghost mut expr_node: int = 0;
        let ghost mut expr_view: TypeV = TypeV::Unit;
        let ghost mut unif_index: int = 0;
        let node_type = match &def.kind {
            DefKind::Array { dims } => {
                proof {
                    assert(decreases_to!(def.kind => *dims));
                }
                self.sem_array_def(&mut inf_group, dims)?;
                match annotation_type {
                    Some(t) => t,
                    None => self.unknown_at(&def.span)?,
                }
            },
            DefKind::Const { expr } => {
                proof {
                    assert(decreases_to!(def.kind => *expr));
                }
                let ghost n = self.tmap().next_id();
                let expr_type = self.sem_expr(&mut inf_group, expr)?;
                proof {
                    expr_node = self.tmap().node_types().len() - 1;
                    expr_view = expr_type@;
                }
                match annotation_type {
                    Some(t) => {
                        proof {
                            lemma_below_grows(t@, n, self.tmap().next_id());
                        }
                        self.unify_later(&mut inf_group, t.clone(), expr_type, "expression type and annotation must match", &def.span);
                        proof {
                            unif_index = inf_group.items().len() - 1;
                            assert(inf_group.items()[unif_index].lhs@ == t@);
                            assert(inf_group.items()[unif_index].rhs@ == expr_view);
                        }
                        t
                    },
                    None => expr_type,
                }
            },
            DefKind::Function { pars, expr } => {
                proof {
                    assert(decreases_to!(def.kind => *expr));
                }
                let (func_type, body_type) = self.sem_func_def(&mut inf_group, pars, expr)?;
                proof {
                    expr_node = self.tmap().node_types().len() - 1;
                    expr_view = body_type@;
                }
                match annotation_type {
                    Some(t) => {
                        let ghost tv = t@;
                        self.unify_later(&mut inf_group, t, body_type, "function expression type and annotation must match", &def.span);
                        proof {
                            unif_index = inf_group.items().len() - 1;
                            assert(inf_group.items()[unif_index].lhs@ == tv);
                            assert(inf_group.items()[unif_index].rhs@ == expr_view);
                        }
                    },
                    None => {},
                }
                func_type
            },
            DefKind::Variable => match annotation_type {
                Some(t) => t,
                None => self.unknown_at(&def.span)?,
            },
        };
        proof {
            if def.kind is Function {
                assert(expr_node == self.tmap().node_types().len() - 1);
                assert(self.tmap().node_types()[expr_node] == expr_view);
                if def.type_ is Some {
                    assert(unif_index == inf_group.items().len() - 1);
                    assert(inf_group.items()[unif_index].lhs@ == def.type_->0@);
                    assert(inf_group.items()[unif_index].rhs@ == expr_view);
                }
            }
            if def.kind is Const {
                assert(expr_node == self.tmap().node_types().len() - 1);
                assert(self.tmap().node_types()[expr_node] == expr_view);
                if def.type_ is None {
                    assert(node_type@ == expr_view);
                } else {
                    assert(unif_index == inf_group.items().len() - 1);
                    assert(inf_group.items()[unif_index].lhs@ == node_type@);
                    assert(inf_group.items()[unif_index].rhs@ == expr_view);
                }
            }
        }
        let ghost items_before = inf_group.items();
        let ghost nodes_before = self.tmap().node_types();
        let ghost s1 = abs(*self, inf_group);
        proof {
            if !(def_type_gen(*def, tabs(*old(self))) is Open) {
                assert(def_type_gen(*def, tabs(*old(self))) == Gen::Done((s1, node_type@)));
            }
        }
        let n = match node {
            Some(n) => {
                let ty = self.type_of_node(n);
                self.unify_later(&mut inf_group, ty, node_type, "recursive definition's type", &def.span);
                n
            },
            None => self.record(node_type),
        };
        let ghost before = self.types;
        let ghost items = inf_group.items();
        let ghost st_gen = abs(*self, inf_group);
        let solved = self.types.solve_group(inf_group);
        proof {
            assert(solve_post(before, items, self.types, solved));
            self.types.lemma_same_nodes_ok(&before);
            if node is None && def.kind is Function {
                assert(items == items_before);
                assert(n == nodes_before.len());
                assert(self.tmap().node_types() == nodes_before.push(node_type@));
                assert(self.tmap().node_types()[n - 1] == nodes_before[expr_node]);
                if def.type_ is Some && solved is Ok {
                    assert(0 <= unif_index < items.len());
                    assert(apply(self.tmap().subst(), items[unif_index].lhs@) == apply(self.tmap().subst(), items[unif_index].rhs@));
                }
            }
            if node is None && def.kind is Const {
                assert(items == items_before);
                assert(n == nodes_before.len());
                assert(self.tmap().node_types() == nodes_before.push(node_type@));
                assert(self.tmap().node_types()[n - 1] == nodes_before[expr_node]);
                if def.type_ is Some && solved is Ok {
                    assert(0 <= unif_index < items.len());
                    assert(apply(self.tmap().subst(), items[unif_index].lhs@) == apply(self.tmap().subst(), items[unif_index].rhs@));
                }
            }
        }
        let r = match solved {
            Ok(()) => Ok(n),
            Err(e) => Err(e),
        };
        proof {
            if solved is Ok {
                assert(solved->Ok_0 == ());
            }
            assert(unit_of(r) == solved);
            if !(def_gen(*def, node, tabs(*old(self))) is Open) {
                assert(def_gen(*def, node, tabs(*old(self))) == Gen::Done((st_gen, n)));
                assert(before.node_types() == st_gen.nodes);
                assert(items.map_values(|u: Unification| unif_view(u)) == st_gen.group);
                assert(def_solved(st_gen, n, *self, r));
            }
        }
        r
    }

    /// The dimensions of an array definition are integers.
    pub fn sem_array_def(&mut self, inf_group: &mut InferenceGroup, dims: &Vec<Expr>) -> (r: SemResult<()>)
        requires
            ready(*old(self)),
            group_within(*old(inf_group), *old(self)),
        ensures
            gen_holds_unit(array_def_gen(dims@, abs(*old(self), *old(inf_group))), r, abs(*final(self), *final(inf_group))),
            step_ok(*old(self), *final(self), r),
            group_within(*final(inf_group), *final(self)),
            extends(old(inf_group).items(), final(inf_group).items()),
            same_scopes(*old(self), *final(self), r),
        decreases dims, 0nat,
    {
        let ghost st0 = abs(*self, *inf_group);
        let mut i: usize = 0;
        proof {
            assert(dims@.take(0) =~= Seq::<Expr>::empty());
        }
        while i < dims.len()
            invariant
                i <= dims.len(),
                st0 == abs(*old(self), *old(inf_group)),
                ready(*self),
                grown(*old(self), *self),
                self.scopes_view() == old(self).scopes_view(),
                group_within(*inf_group, *self),
                extends(old(inf_group).items(), inf_group.items()),
                array_def_gen(dims@.take(i as int), st0) is Open
                    || array_def_gen(dims@.take(i as int), st0) == Gen::Done(abs(*self, *inf_group)),
            decreases dims.len() - i,
        {
            proof {
                assert(decreases_to!(*dims => dims@[i as int]));
                assert(dims@.take(i + 1).drop_last() =~= dims@.take(i as int));
                assert(dims@.take(i + 1).last() == dims@[i as int]);
            }
            let ghost prefix_open = array_def_gen(dims@.take(i as int), st0) is Open;
            let res = self.sem_expr(inf_group, &dims[i]);
            let expr_type = match res {
                Err(e) => {
                    proof {
                        if prefix_open {
                            super::gen::lemma_dims_stop(dims@, st0, i as int);
                        } else {
                            super::gen::lemma_dims_stop(dims@, st0, i + 1);
                        }
                    }
                    return Err(e);
                },
                Ok(t) => t,
            };
            proof {
                lemma_below_plain(TypeV::Int, self.tmap().next_id());
            }
            self.unify_later(inf_group, self.types.get_int(), expr_type, "array definition dimensions must be integers", &dims[i].span);
            i += 1;
        }
        proof {
            assert(dims@.take(dims@.len() as int) =~= dims@);
        }
        Ok(())
    }

    /// A function definition: its parameters are bound in a scope of their
    /// own, to their written types or to new unknown types, and the body is
    /// analysed there. Gives the function type and the type of the body.
    pub fn sem_func_def(&mut self, inf_group: &mut InferenceGroup, pars: &Vec<Par>, body: &Expr) -> (r: SemResult<(Type, Type)>)
        requires
            ready(*old(self)),
            group_within(*old(inf_group), *old(self)),
        ensures
            gen_holds_func(func_def_gen(pars@, *body, abs(*old(self), *old(inf_group))), r, abs(*final(self), *final(inf_group))),
            step_ok(*old(self), *final(self), r),
            group_within(*final(inf_group), *final(self)),
            extends(old(inf_group).items(), final(inf_group).items()),
            same_scopes(*old(self), *final(self), r),
            r matches Ok((f, b)) ==> ids_below(f@, final(self).tmap().next_id()) && ids_below(b@, final(self).tmap().next_id()),
            r is Ok ==> old(self).tmap().node_types().len() < final(self).tmap().node_types().len(),
            r matches Ok((f, b)) ==> final(self).tmap().node_types().last() == b@,
            r matches Ok((f, b)) ==> f@ == curried(params_of(pars@, r->Ok_0.0@), b@),
            r matches Ok((f, b)) ==> params_fit(pars@, r->Ok_0.0@),
        decreases body, 2nat,
    {
        let ghost st0 = abs(*self, *inf_group);
        self.push_scope();
        let ghost sp = abs(*self, *inf_group);
        proof {
            assert(self.scopes_view().drop_last() =~= old(self).scopes_view());
            assert(sp == super::gen::gen_push(st0));
            assert(pars@.take(0) =~= Seq::<Par>::empty());
            assert(view_types(Seq::<Type>::empty()) =~= Seq::<TypeV>::empty());
        }
        let mut par_types: Vec<Type> = Vec::new();
        proof {
            assert(par_types@ =~= Seq::<Type>::empty());
        }
        let mut i: usize = 0;
        while i < pars.len()
            invariant
                i <= pars.len(),
                ready(*self),
                grown(*old(self), *self),
                self.scopes_view().len() == old(self).scopes_view().len() + 1,
                self.scopes_view().drop_last() == old(self).scopes_view(),
                all_below(par_types@, self.tmap().next_id()),
                par_types.len() == i,
                forall|k: int| 0 <= k < i ==> ((#[trigger] pars@[k]).type_ matches Some(a) ==> par_types@[k]@ == a@),
                group_within(*inf_group, *self),
                extends(old(inf_group).items(), inf_group.items()),
                st0 == abs(*old(self), *old(inf_group)),
                sp == super::gen::gen_push(st0),
                pars_gen(pars@.take(i as int), sp) == Gen::Done((abs(*self, *inf_group), view_types(par_types@))),
            decreases pars.len() - i,
        {
            let par = &pars[i];
            proof {
                assert(pars@.take(i + 1).drop_last() =~= pars@.take(i as int));
                assert(pars@.take(i + 1).last() == pars@[i as int]);
            }
            let ghost n = self.tmap().next_id();
            let ghost s1 = abs(*self, *inf_group);
            let t = match &par.type_ {
                Some(a) => {
                    proof {
                        lemma_below_annotation(*a, self.tmap().next_id());
                    }
                    Type::from_annotation(a)
                },
                None => {
                    let u = self.unknown_at(&par.span);
                    match u {
                        Err(e) => {
                            proof {
                                super::gen::lemma_pars_stop(pars@, sp, i + 1);
                            }
                            return Err(e);
                        },
                        Ok(u) => u,
                    }
                },
            };
            proof {
                lemma_all_below_grows(par_types@, n, self.tmap().next_id());
                assert(written_or_fresh(par.type_, par.span, s1) == Gen::Done((abs(*self, *inf_group), t@)));
            }
            self.bind(&par.id, t.clone());
            let ghost before = par_types@;
            par_types.push(t);
            proof {
                assert(par_types@.drop_last() =~= before);
            }
            i += 1;
        }
        proof {
            assert(pars@.take(pars@.len() as int) =~= pars@);
        }
        let ghost n = self.tmap().next_id();
        let expr_type = self.sem_expr(inf_group, body)?;
        self.pop_scope();
        proof {
            lemma_all_below_grows(par_types@, n, self.tmap().next_id());
            lemma_all_below_views(par_types@, self.tmap().next_id());
            lemma_curried_ids(view_types(par_types@), expr_type@, self.tmap().next_id());
            lemma_view_types(par_types@);
        }
        let ghost vs = view_types(par_types@);
        let f = Type::new_multi_arg_func(par_types, expr_type.clone());
        proof {
            assert forall|k: int| 0 <= k < vs.len() implies #[trigger] arg_at(f@, k) == vs[k] by {
                lemma_arg_at_curried(vs, expr_type@, k);
            }
            assert(params_of(pars@, f@) =~= vs);
        }
        Ok((f, expr_type))
    }
}


impl SemTable {
    /// What inference made of the type of each node, as text, in the order
    /// the nodes were made.
    pub fn node_types_text(&mut self) -> (r: Vec<String>)
        requires
            ready(*old(self)),
        ensures
            ready(*final(self)),
            final(self).scopes_view() == old(self).scopes_view(),
            final(self).tmap().node_types() == old(self).tmap().node_types(),
            r.len() == old(self).tmap().node_types().len(),
            forall|i: int| 0 <= i < r.len() ==> #[trigger] r[i]@ == type_text(
                apply(old(self).tmap().subst(), old(self).tmap().node_types()[i]),
                final(self).tmap().constraints_seq(),
            ),
    {
        let ghost s0 = self.tmap().subst();
        let ghost nodes = self.tmap().node_types();
        let count = self.types.node_count();
        let mut resolved: Vec<Type> = Vec::new();
        let mut i: usize = 0;
        while i < count
            invariant
                i <= count,
                count == nodes.len(),
                ready(*self),
                self.scopes_view() == old(self).scopes_view(),
                self.tmap().node_types() == nodes,
                nodes == old(self).tmap().node_types(),
                s0 == old(self).tmap().subst(),
                same_meaning(s0, self.tmap().subst()),
                resolved.len() == i,
                forall|k: int| 0 <= k < i ==> #[trigger] resolved@[k]@ == apply(s0, nodes[k]),
                all_below(resolved@, self.tmap().next_id()),
            decreases count - i,
        {
            let ghost s1 = self.tmap().subst();
            let t = self.resolved_type_of(i);
            proof {
                lemma_same_meaning_trans(s0, s1, self.tmap().subst());
            }
            resolved.push(t);
            i += 1;
        }
        let mut out: Vec<String> = Vec::new();
        let mut k: usize = 0;
        while k < resolved.len()
            invariant
                k <= resolved.len(),
                ready(*self),
                all_below(resolved@, self.tmap().next_id()),
                out.len() == k,
                forall|j: int| 0 <= j < k ==> #[trigger] out@[j]@ == type_text(resolved@[j]@, self.tmap().constraints_seq()),
            decreases resolved.len() - k,
        {
            proof {
                self.types.lemma_wf();
            }
            let text = self.types.type_text(&resolved[k]);
            out.push(text);
            k += 1;
        }
        out
    }
}

} // verus!


verus! {

/// In a group of definitions that is not recursive, a definition cannot
/// use its own name: where the first definition is a constant whose
/// expression is its own name, not bound before the group, the group fails
/// with the lookup error for that name.
pub proof fn law_non_recursive_self_reference(l: Letdef, st: GState, b: SemTable, r: SemResult<()>)
    requires
        !l.rec,
        l.defs.len() > 0,
        l.defs@[0].kind matches DefKind::Const { expr } && expr.kind matches ExprKind::Call(c)
            && c.args.len() == 0 && c.id@ == l.defs@[0].id@,
        lookup_in(st.scopes, l.defs@[0].id@) is None,
        letdef_post(l, st, b, r),
    ensures
        r matches Err(e) && lookup_error(e, l.defs@[0].id@, l.defs@[0].kind->Const_expr.span),
{
    let d = l.defs@[0];
    let expr = d.kind->Const_expr;
    let c = expr.kind->Call_0;
    assert(constant_call_gen(c, expr.span, st) == Gen::<(GState, TypeV)>::Failed(super::pattern::GenErr::Lookup(d.id@, expr.span)));
    assert(expr_gen(expr, st) == Gen::<(GState, TypeV)>::Failed(super::pattern::GenErr::Lookup(d.id@, expr.span)));
    assert(def_gen(d, None, st) == Gen::<(GState, usize)>::Failed(super::pattern::GenErr::Lookup(d.id@, expr.span)));
    let (ts, ns, k) = choose|ts: Seq<SemTable>, ns: Seq<usize>, k: int| #[trigger] letdef_end(l, None, ts, ns, k, b, r) && tabs(ts[0]) == st;
    if k > 0 {
        assert(defs_in_order(l.defs@, None::<Seq<usize>>, ts, ns, k));
        assert(def_post(l.defs@[0], given_at(None::<Seq<usize>>, 0), ts[0], ts[0int + 1], Ok(ns[0])));
        assert(given_at(None::<Seq<usize>>, 0) is None);
        assert(false);
    }
}

} // verus!

verus! {

/// Binding the names of `defs` in order binds each name whose definition
/// comes last among those of that name to its own node.
proof fn lemma_bind_all_last(scopes: Seq<Map<Seq<char>, usize>>, defs: Seq<Def>, ns: Seq<usize>, j: int)
    requires
        scopes.len() > 0,
        ns.len() == defs.len(),
        0 <= j < defs.len(),
        forall|k: int| j < k < defs.len() ==> (#[trigger] defs[k]).id@ != defs[j].id@,
    ensures
        bind_all(scopes, defs, ns).len() == scopes.len(),
        bind_all(scopes, defs, ns).last().contains_key(defs[j].id@),
        bind_all(scopes, defs, ns).last()[defs[j].id@] == ns[j],
    decreases defs.len(),
{
    lemma_bind_all_len(scopes, defs, ns);
    lemma_bind_all_len(scopes, defs.drop_last(), ns.drop_last());
    let s = bind_all(scopes, defs.drop_last(), ns.drop_last());
    assert(bind_all(scopes, defs, ns) == s.update(s.len() - 1, s.last().insert(defs.last().id@, ns.last())));
    assert(bind_all(scopes, defs, ns).last() == s.last().insert(defs.last().id@, ns.last()));
    if j < defs.len() - 1 {
        lemma_bind_all_last(scopes, defs.drop_last(), ns.drop_last(), j);
        assert(defs.last().id@ != defs[j].id@);
    }
}

/// Binding names keeps the number of scopes.
proof fn lemma_bind_all_len(scopes: Seq<Map<Seq<char>, usize>>, defs: Seq<Def>, ns: Seq<usize>)
    requires
        scopes.len() > 0,
    ensures
        bind_all(scopes, defs, ns).len() == scopes.len(),
    decreases defs.len(),
{
    if defs.len() > 0 {
        lemma_bind_all_len(scopes, defs.drop_last(), ns.drop_last());
    }
}

/// After a group of definitions that is not recursive succeeds, each name
/// of it whose definition is the last of that name is found, by lookup, at
/// the node that the analysis of its own definition gave.
pub proof fn law_names_bound_to_own_definitions(l: Letdef, st: GState, b: SemTable, r: SemResult<()>)
    requires
        !l.rec,
        letdef_post(l, st, b, r),
        r is Ok,
    ensures
        exists|ts: Seq<SemTable>, ns: Seq<usize>| {
            &&& #[trigger] defs_in_order(l.defs@, None, ts, ns, l.defs.len() as int)
            &&& tabs(ts[0]) == st
            &&& forall|j: int| 0 <= j < l.defs.len() && (forall|k: int| j < k < l.defs.len() ==> (#[trigger] l.defs@[k]).id@ != l.defs@[j].id@)
                ==> lookup_in(b.scopes_view(), #[trigger] l.defs@[j].id@) == Some(ns[j])
        },
{
    let (ts, ns, k) = choose|ts: Seq<SemTable>, ns: Seq<usize>, k: int| #[trigger] letdef_end(l, None, ts, ns, k, b, r) && tabs(ts[0]) == st;
    let defs = l.defs@;
    assert(k == defs.len());
    assert forall|j: int| 0 <= j < l.defs.len() && (forall|k2: int| j < k2 < l.defs.len() ==> (#[trigger] l.defs@[k2]).id@ != l.defs@[j].id@)
        implies lookup_in(b.scopes_view(), #[trigger] l.defs@[j].id@) == Some(ns[j]) by {
        assert(ready(ts[k]));
        lemma_bind_all_last(ts[k].scopes_view(), defs, ns, j);
    }
    assert(defs_in_order(l.defs@, None, ts, ns, l.defs.len() as int));
}

} // verus!
