use vstd::prelude::*;
use crate::parse::ast::Span;
use crate::parse::ast::expr::{Pattern, PatternKind};
use crate::text::string_push_str;
use super::{SemanticError, SemResult};
use super::sem_table::{SemTable, lookup_in};
use super::types::{Type, TypeV, view_types, lemma_view_types};
use super::types::inference::{ArrayDims, ConstraintsV, InferenceGroup, Unification, TypeKind, group_ok, extends, lemma_extends_trans, lemma_extends_refl, lemma_extends_push};
use super::types::type_map::TypeMap;
use super::types::subst::{ids_below, occurs, lemma_occurs_seq, size};

verus! {

broadcast use lemma_extends_trans, lemma_extends_refl, lemma_extends_push;

/// A unification as a value.
pub struct UnifV {
    pub lhs: TypeV,
    pub rhs: TypeV,
    pub span: Span,
    pub msg: Seq<char>,
}

pub open spec fn unif_view(u: Unification) -> UnifV {
    UnifV { lhs: u.lhs@, rhs: u.rhs@, span: u.span, msg: u.msg@ }
}

/// What the analysis of patterns reads and changes: the scopes, the types of
/// the nodes, the number of unknown types made and the unifications to solve.
pub struct GenState {
    pub scopes: Seq<Map<Seq<char>, usize>>,
    pub nodes: Seq<TypeV>,
    pub next: nat,
    pub group: Seq<UnifV>,
}

/// The errors that the analysis of a pattern can meet.
pub enum GenErr {
    Lookup(Seq<char>, Span),
    General(Seq<char>, Span),
}

/// How the analysis of a pattern ends: with a state or with an error.
pub enum Outcome<T> {
    Done(T),
    Failed(GenErr),
}

/// The error value is the one described.
pub open spec fn error_matches(e: SemanticError, g: GenErr) -> bool {
    match g {
        GenErr::Lookup(id, span) => e matches SemanticError::LookupError { id: i, span: s } && i@ == id && s == span,
        GenErr::General(msg, span) => e matches SemanticError::GeneralError { msg: m, span: s } && m@ == msg && s == span,
    }
}

pub open spec fn add_unif(st: GenState, lhs: TypeV, rhs: TypeV, span: Span, msg: Seq<char>) -> GenState {
    GenState { group: st.group.push(UnifV { lhs, rhs, span, msg }), ..st }
}

/// The type a literal pattern matches, and the reason given for it.
pub open spec fn literal_pattern(k: PatternKind) -> (TypeV, Seq<char>) {
    match k {
        PatternKind::IntLiteral(_) => (TypeV::Int, "integer literal pattern must match an integer"@),
        PatternKind::FloatLiteral(_) => (TypeV::Float, "float literal pattern must match a float"@),
        PatternKind::BoolLiteral(_) => (TypeV::Bool, "boolean literal pattern must match a boolean"@),
        PatternKind::CharLiteral(_) => (TypeV::Char, "char literal pattern must match a char"@),
        _ => (TypeV::Array(Box::new(TypeV::Char), ArrayDims::Known(1)), "string literal pattern must match a string"@),
    }
}

/// The argument types of a curried function type, in order, and what it
/// finally gives; a type that is no function has no argument types.
pub open spec fn func_chain(t: TypeV) -> (Seq<TypeV>, TypeV)
    decreases t,
{
    match t {
        TypeV::Func(a, b) => (seq![*a] + func_chain(*b).0, func_chain(*b).1),
        _ => (Seq::empty(), t),
    }
}

/// The parameter types and the result type read off a constructor's
/// function type `l -> r`.
pub open spec fn constr_parts(l: TypeV, r: TypeV) -> (Seq<TypeV>, TypeV) {
    (seq![l] + func_chain(r).0, func_chain(r).1)
}

pub open spec fn partial_message(id: Seq<char>) -> Seq<char> {
    "partial application of constructor "@ + id + " in match patterns is not allowed"@
}

pub open spec fn no_args_message(id: Seq<char>) -> Seq<char> {
    "constructor "@ + id + " invoked with arguments in match pattern, but takes none"@
}

pub open spec fn not_function_message(id: Seq<char>) -> Seq<char> {
    id + " type signature is not a function (constructors are functions)"@
}

pub open spec fn constr_reason() -> Seq<char> {
    "constructor pattern must match the type of the matched expression"@
}

pub open spec fn tuple_reason() -> Seq<char> {
    "tuple pattern must match the type of the matched expression"@
}

/// What analysing pattern `p` against the type `t` of the value it matches
/// does to the state: names become nodes of the types they match, literals,
/// constructors and tuples add the unifications that make `t` fit them.
pub open spec fn pattern_gen(p: Pattern, t: TypeV, st: GenState) -> Outcome<GenState>
    decreases p,
{
    match p.kind {
        PatternKind::IdLower(id) => Outcome::Done(GenState {
            scopes: st.scopes.update(st.scopes.len() - 1, st.scopes.last().insert(id@, st.nodes.len() as usize)),
            nodes: st.nodes.push(t),
            ..st
        }),
        PatternKind::IdUpper { id, args } => match lookup_in(st.scopes, id@) {
            None => Outcome::Failed(GenErr::Lookup(id@, p.span)),
            Some(n) => {
                let ct = st.nodes[n as int];
                match ct {
                    TypeV::Func(l, r) => {
                        let (params, ret) = constr_parts(*l, *r);
                        if params.len() != args.len() {
                            Outcome::Failed(GenErr::General(partial_message(id@), p.span))
                        } else {
                            match patterns_gen(args@, params, st) {
                                Outcome::Done(st2) => Outcome::Done(add_unif(st2, t, ret, p.span, constr_reason())),
                                Outcome::Failed(e) => Outcome::Failed(e),
                            }
                        }
                    },
                    TypeV::Custom(_) => if args.len() > 0 {
                        Outcome::Failed(GenErr::General(no_args_message(id@), p.span))
                    } else {
                        Outcome::Done(add_unif(st, t, ct, p.span, constr_reason()))
                    },
                    _ => Outcome::Failed(GenErr::General(not_function_message(id@), p.span)),
                }
            },
        },
        PatternKind::Tuple(elems) => match tuple_gen(elems@, st) {
            Outcome::Done((st2, ts)) => Outcome::Done(add_unif(st2, t, TypeV::Tuple(ts), p.span, tuple_reason())),
            Outcome::Failed(e) => Outcome::Failed(e),
        },
        _ => {
            let (lt, msg) = literal_pattern(p.kind);
            Outcome::Done(add_unif(st, t, lt, p.span, msg))
        },
    }
}

/// Analysing the patterns in order, each against the type beside it.
pub open spec fn patterns_gen(ps: Seq<Pattern>, ts: Seq<TypeV>, st: GenState) -> Outcome<GenState>
    decreases ps,
{
    if ps.len() == 0 {
        Outcome::Done(st)
    } else {
        proof {
            assert(decreases_to!(ps => ps.subrange(0, ps.len() - 1)));
        }
        match patterns_gen(ps.drop_last(), ts.drop_last(), st) {
            Outcome::Done(s1) => pattern_gen(ps[ps.len() - 1], ts[ps.len() - 1], s1),
            Outcome::Failed(e) => Outcome::Failed(e),
        }
    }
}

/// Analysing the elements of a tuple pattern in order, each against a new
/// unknown type, which are given too.
pub open spec fn tuple_gen(ps: Seq<Pattern>, st: GenState) -> Outcome<(GenState, Seq<TypeV>)>
    decreases ps,
{
    if ps.len() == 0 {
        Outcome::Done((st, Seq::empty()))
    } else {
        proof {
            assert(decreases_to!(ps => ps.subrange(0, ps.len() - 1)));
        }
        match tuple_gen(ps.drop_last(), st) {
            Outcome::Done((s1, ts)) => {
                let u = TypeV::Unknown(s1.next as u32);
                match pattern_gen(ps[ps.len() - 1], u, GenState { next: s1.next + 1, ..s1 }) {
                    Outcome::Done(s2) => Outcome::Done((s2, ts.push(u))),
                    Outcome::Failed(e) => Outcome::Failed(e),
                }
            },
            Outcome::Failed(e) => Outcome::Failed(e),
        }
    }
}

/// How many unknown types analysing a pattern makes at most.
pub open spec fn pattern_unknowns(p: Pattern) -> nat
    decreases p,
{
    match p.kind {
        PatternKind::IdUpper { args, .. } => patterns_unknowns(args@),
        PatternKind::Tuple(elems) => elems@.len() + patterns_unknowns(elems@),
        _ => 0,
    }
}

pub open spec fn patterns_unknowns(ps: Seq<Pattern>) -> nat
    decreases ps,
{
    if ps.len() == 0 {
        0
    } else {
        proof {
            assert(decreases_to!(ps => ps.subrange(0, ps.len() - 1)));
        }
        patterns_unknowns(ps.drop_last()) + pattern_unknowns(ps[ps.len() - 1])
    }
}


/// The unifications of the group name only unknown types that the table's
/// map has made.
pub open spec fn group_within(g: InferenceGroup, t: SemTable) -> bool {
    group_ok(g.items(), t.tmap().next_id())
}

/// A group that names only unknown types below `n` names only ones below
/// any `m >= n`.
pub proof fn lemma_group_grows(items: Seq<Unification>, n: nat, m: nat)
    requires
        group_ok(items, n),
        n <= m,
    ensures
        group_ok(items, m),
{
    assert forall|i: int| 0 <= i < items.len() implies ids_below(#[trigger] items[i].lhs@, m) by {
        let l = items[i].lhs@;
        assert(ids_below(l, n));
        assert forall|u: u32| #[trigger] occurs(u, l) implies u < m by {}
    }
    assert forall|i: int| 0 <= i < items.len() implies ids_below(#[trigger] items[i].rhs@, m) by {
        let r = items[i].rhs@;
        assert(ids_below(items[i].lhs@, n));
        assert(ids_below(r, n));
        assert forall|u: u32| #[trigger] occurs(u, r) implies u < m by {}
    }
    assert(group_ok(items, m));
}

/// Adding a unification of two types below `n` keeps the group below `n`.
pub proof fn lemma_group_push(items: Seq<Unification>, u: Unification, n: nat)
    requires
        group_ok(items, n),
        ids_below(u.lhs@, n),
        ids_below(u.rhs@, n),
    ensures
        group_ok(items.push(u), n),
{
    assert forall|i: int| 0 <= i < items.push(u).len() implies ids_below(#[trigger] items.push(u)[i].lhs@, n)
        && ids_below(items.push(u)[i].rhs@, n) by {
        if i < items.len() {
            assert(items.push(u)[i] == items[i]);
            assert(ids_below(items[i].lhs@, n));
        }
    }
}

/// A type with no unknown type in it is below any bound.
pub proof fn lemma_no_unknowns(t: TypeV, n: nat)
    requires
        forall|u: u32| !#[trigger] occurs(u, t),
    ensures
        ids_below(t, n),
{
}

/// A tuple of types below `n` is below `n`.
pub proof fn lemma_tuple_below(ts: Seq<TypeV>, n: nat)
    requires
        forall|i: int| 0 <= i < ts.len() ==> ids_below(#[trigger] ts[i], n),
    ensures
        ids_below(TypeV::Tuple(ts), n),
{
    assert forall|u: u32| #[trigger] occurs(u, TypeV::Tuple(ts)) implies u < n by {
        lemma_occurs_seq(u, ts);
        let i = choose|i: int| 0 <= i < ts.len() && #[trigger] occurs(u, ts[i]);
        assert(ids_below(ts[i], n));
    }
}

/// The state of the analysis, read off the table and the group.
pub open spec fn gen_state(t: SemTable, g: InferenceGroup) -> GenState {
    GenState {
        scopes: t.scopes_view(),
        nodes: t.tmap().node_types(),
        next: t.tmap().next_id(),
        group: g.items().map_values(|u: Unification| unif_view(u)),
    }
}

/// `b` is `a` with only new, unbound, unconstrained unknown types added.
pub open spec fn plain_unknowns_added(a: TypeMap, b: TypeMap) -> bool {
    &&& a.next_id() <= b.next_id()
    &&& b.subst().bind.take(a.next_id() as int) == a.subst().bind
    &&& b.subst().order.take(a.next_id() as int) == a.subst().order
    &&& b.subst().clock == a.subst().clock
    &&& b.constraints_view().take(a.next_id() as int) == a.constraints_view()
    &&& forall|i: int| a.next_id() <= i < b.next_id() ==> #[trigger] b.subst().bind[i] is None
    &&& forall|i: int| a.next_id() <= i < b.next_id()
        ==> #[trigger] b.constraints_view()[i] == ConstraintsV { allowed: Set::<TypeKind>::empty(), disallowed: Set::<TypeKind>::empty() }
    &&& a.generic_nodes().len() <= b.generic_nodes().len()
    &&& forall|i: int| 0 <= i < a.generic_nodes().len() ==> #[trigger] b.generic_nodes()[i] == a.generic_nodes()[i]
    &&& forall|i: int| a.generic_nodes().len() <= i < b.generic_nodes().len() ==> #[trigger] b.generic_nodes()[i] is None
}

/// Once a prefix of the patterns fails, so does the whole.
pub proof fn lemma_patterns_stop(ps: Seq<Pattern>, ts: Seq<TypeV>, st: GenState, i: int)
    requires
        0 <= i <= ps.len(),
        ts.len() == ps.len(),
        !(patterns_gen(ps.take(i), ts.take(i), st) is Done),
    ensures
        patterns_gen(ps, ts, st) == patterns_gen(ps.take(i), ts.take(i), st),
    decreases ps.len() - i,
{
    if i == ps.len() {
        assert(ps.take(i) =~= ps);
        assert(ts.take(i) =~= ts);
    } else {
        assert(ps.take(i + 1).drop_last() =~= ps.take(i));
        assert(ts.take(i + 1).drop_last() =~= ts.take(i));
        lemma_patterns_stop(ps, ts, st, i + 1);
    }
}

/// One more pattern analysed after a prefix.
pub proof fn lemma_patterns_step(ps: Seq<Pattern>, ts: Seq<TypeV>, st: GenState, i: int)
    requires
        0 <= i < ps.len(),
        ts.len() == ps.len(),
    ensures
        patterns_gen(ps.take(i + 1), ts.take(i + 1), st) == match patterns_gen(ps.take(i), ts.take(i), st) {
            Outcome::Done(s1) => pattern_gen(ps[i], ts[i], s1),
            Outcome::Failed(e) => Outcome::Failed(e),
        },
{
    assert(ps.take(i + 1).drop_last() =~= ps.take(i));
    assert(ts.take(i + 1).drop_last() =~= ts.take(i));
}

/// Once a prefix of the elements fails, so does the whole.
pub proof fn lemma_tuple_stop(ps: Seq<Pattern>, st: GenState, i: int)
    requires
        0 <= i <= ps.len(),
        !(tuple_gen(ps.take(i), st) is Done),
    ensures
        tuple_gen(ps, st) == tuple_gen(ps.take(i), st),
    decreases ps.len() - i,
{
    if i == ps.len() {
        assert(ps.take(i) =~= ps);
    } else {
        assert(ps.take(i + 1).drop_last() =~= ps.take(i));
        lemma_tuple_stop(ps, st, i + 1);
    }
}

/// One more element analysed after a prefix.
pub proof fn lemma_tuple_step(ps: Seq<Pattern>, st: GenState, i: int)
    requires
        0 <= i < ps.len(),
    ensures
        tuple_gen(ps.take(i + 1), st) == match tuple_gen(ps.take(i), st) {
            Outcome::Done((s1, ts)) => {
                let u = TypeV::Unknown(s1.next as u32);
                match pattern_gen(ps[i], u, GenState { next: s1.next + 1, ..s1 }) {
                    Outcome::Done(s2) => Outcome::Done((s2, ts.push(u))),
                    Outcome::Failed(e) => Outcome::Failed(e),
                }
            },
            Outcome::Failed(e) => Outcome::Failed(e),
        },
{
    assert(ps.take(i + 1).drop_last() =~= ps.take(i));
}

/// The unknown types made for a prefix of the patterns, and for the next.
pub proof fn lemma_patterns_unknowns_prefix(ps: Seq<Pattern>, i: int)
    requires
        0 <= i < ps.len(),
    ensures
        patterns_unknowns(ps.take(i + 1)) == patterns_unknowns(ps.take(i)) + pattern_unknowns(ps[i]),
        patterns_unknowns(ps.take(i + 1)) <= patterns_unknowns(ps),
    decreases ps.len() - i,
{
    assert(ps.take(i + 1).drop_last() =~= ps.take(i));
    if i + 1 < ps.len() {
        lemma_patterns_unknowns_prefix(ps, i + 1);
    } else {
        assert(ps.take(i + 1) =~= ps);
    }
}

/// A name that is found is bound to a node in some scope.
pub proof fn lemma_lookup_found(scopes: Seq<Map<Seq<char>, usize>>, name: Seq<char>)
    ensures
        lookup_in(scopes, name) matches Some(n) ==> exists|i: int| 0 <= i < scopes.len()
            && #[trigger] scopes[i].contains_key(name) && scopes[i][name] == n,
    decreases scopes.len(),
{
    if scopes.len() > 0 && !scopes.last().contains_key(name) {
        lemma_lookup_found(scopes.drop_last(), name);
        if lookup_in(scopes, name) is Some {
            let i = choose|i: int| 0 <= i < scopes.drop_last().len()
                && #[trigger] scopes.drop_last()[i].contains_key(name) && scopes.drop_last()[i][name] == lookup_in(scopes, name)->0;
            assert(scopes[i] == scopes.drop_last()[i]);
        }
    }
}

/// The parts of a type name no unknown type that the whole does not.
pub proof fn lemma_ids_below_parts(t: TypeV, n: nat, m: nat)
    requires
        ids_below(t, n),
        n <= m,
    ensures
        ids_below(t, m),
        t matches TypeV::Func(l, r) ==> ids_below(*l, m) && ids_below(*r, m),
{
    if let TypeV::Func(l, r) = t {
        assert forall|u: u32| #[trigger] occurs(u, *l) implies u < m by {
            assert(occurs(u, t));
        }
        assert forall|u: u32| #[trigger] occurs(u, *r) implies u < m by {
            assert(occurs(u, t));
        }
    }
}


/// Adding plain unknown types twice is adding them once.
pub proof fn lemma_plain_trans(a: TypeMap, b: TypeMap, c: TypeMap)
    requires
        a.wf(),
        b.wf(),
        c.wf(),
        plain_unknowns_added(a, b),
        plain_unknowns_added(b, c),
    ensures
        plain_unknowns_added(a, c),
{
    a.lemma_wf();
    b.lemma_wf();
    c.lemma_wf();
    let n = a.next_id() as int;
    let m = b.next_id() as int;
    assert(c.subst().bind.take(n) =~= c.subst().bind.take(m).take(n));
    assert(c.subst().order.take(n) =~= c.subst().order.take(m).take(n));
    assert(c.constraints_view().take(n) =~= c.constraints_view().take(m).take(n));
    assert forall|i: int| a.next_id() <= i < c.next_id() implies #[trigger] c.subst().bind[i] is None by {
        if i < m {
            assert(b.subst().bind[i] is None);
            assert(c.subst().bind.take(m)[i] == c.subst().bind[i]);
        }
    }
    assert forall|i: int| a.next_id() <= i < c.next_id() implies
        #[trigger] c.constraints_view()[i] == ConstraintsV { allowed: Set::<TypeKind>::empty(), disallowed: Set::<TypeKind>::empty() } by {
        if i < m {
            assert(b.constraints_view()[i] == ConstraintsV { allowed: Set::<TypeKind>::empty(), disallowed: Set::<TypeKind>::empty() });
            assert(c.constraints_view().take(m)[i] == c.constraints_view()[i]);
        }
    }
}

/// Nothing added is adding plain unknown types.
pub proof fn lemma_plain_refl(a: TypeMap)
    requires
        a.wf(),
    ensures
        plain_unknowns_added(a, a),
{
    a.lemma_wf();
    assert(a.subst().bind.take(a.next_id() as int) =~= a.subst().bind);
    assert(a.subst().order.take(a.next_id() as int) =~= a.subst().order);
    assert(a.constraints_view().take(a.next_id() as int) =~= a.constraints_view());
}

impl SemTable {
    /// Analyses `pattern` against the type of the value it matches: binds
    /// its names in the innermost scope and adds to `inf_group` what makes
    /// the type fit the pattern.
    #[verifier::spinoff_prover]
    #[verifier::rlimit(40)]
    pub fn sem_pattern(&mut self, inf_group: &mut InferenceGroup, pattern: &Pattern, to_match_type: Type) -> (r: SemResult<()>)
        requires
            old(self).wf(),
            old(self).scopes_view().len() > 0,
            ids_below(to_match_type@, old(self).tmap().next_id()),
            old(self).tmap().next_id() + pattern_unknowns(*pattern) < u32::MAX,
        ensures
            final(self).wf(),
            final(self).scopes_view().len() == old(self).scopes_view().len(),
            final(self).scopes_view().drop_last() == old(self).scopes_view().drop_last(),
            final(self).tmap().next_id() <= old(self).tmap().next_id() + pattern_unknowns(*pattern),
            plain_unknowns_added(old(self).tmap(), final(self).tmap()),
            old(self).tmap().node_types().len() <= final(self).tmap().node_types().len(),
            group_within(*old(inf_group), *old(self)) ==> group_within(*final(inf_group), *final(self)),
            extends(old(inf_group).items(), final(inf_group).items()),
            match pattern_gen(*pattern, to_match_type@, gen_state(*old(self), *old(inf_group))) {
                Outcome::Done(st) => r is Ok && gen_state(*final(self), *final(inf_group)) == st,
                Outcome::Failed(e) => r matches Err(x) && error_matches(x, e),
            },
        decreases pattern, 1nat,
    {
        let ghost st0 = gen_state(*self, *inf_group);
        let ghost t0 = to_match_type@;
        proof {
            self.types.lemma_wf();
        }
        match &pattern.kind {
            PatternKind::IdLower(id) => {
                let node = self.types.insert(to_match_type);
                self.insert_scope_binding(id.as_str(), node);
                proof {
                    assert(self.scopes_view().drop_last() =~= old(self).scopes_view().drop_last());
                    assert(gen_state(*self, *inf_group) == pattern_gen(*pattern, t0, st0)->Done_0);
                    lemma_plain_refl(old(self).tmap());
                }
                Ok(())
            },
            PatternKind::IdUpper { id, args } => {
                self.sem_constructor_pattern(inf_group, pattern, id, args, to_match_type)
            },
            PatternKind::Tuple(elems) => {
                self.sem_tuple_pattern(inf_group, pattern, elems, to_match_type)
            },
            _ => {
                let (literal_type, msg): (Type, &'static str) = match &pattern.kind {
                    PatternKind::IntLiteral(_) => (self.types.get_int(), "integer literal pattern must match an integer"),
                    PatternKind::FloatLiteral(_) => (self.types.get_float(), "float literal pattern must match a float"),
                    PatternKind::BoolLiteral(_) => (self.types.get_bool(), "boolean literal pattern must match a boolean"),
                    PatternKind::CharLiteral(_) => (self.types.get_char(), "char literal pattern must match a char"),
                    _ => (Type::new_known_array(self.types.get_char(), 1), "string literal pattern must match a string"),
                };
                let ghost g0 = inf_group.items();
                proof {
                    assert forall|u: u32| !#[trigger] occurs(u, literal_type@) by {
                        if literal_type@ is Array {
                            assert(literal_type@ == TypeV::Array(Box::new(TypeV::Char), ArrayDims::Known(1)));
                            assert(!occurs(u, TypeV::Char));
                        }
                    }
                    lemma_no_unknowns(literal_type@, self.tmap().next_id());
                }
                inf_group.insert_unification(to_match_type, literal_type, msg, &pattern.span);
                proof {
                    assert(inf_group.items().map_values(|u: Unification| unif_view(u))
                        =~= g0.map_values(|u: Unification| unif_view(u)).push(unif_view(inf_group.items().last())));
                    lemma_plain_refl(old(self).tmap());
                    if group_ok(g0, self.tmap().next_id()) {
                        lemma_group_push(g0, inf_group.items().last(), self.tmap().next_id());
                        assert(inf_group.items() =~= g0.push(inf_group.items().last()));
                    }
                }
                Ok(())
            },
        }
    }
}


impl SemTable {
    /// `sem_pattern` on a tuple pattern: each element is analysed against a
    /// new unknown type, and the tuple of those is unified with the type.
    #[verifier::spinoff_prover]
    #[verifier::rlimit(40)]
    fn sem_tuple_pattern(&mut self, inf_group: &mut InferenceGroup, pattern: &Pattern, elems: &Vec<Pattern>, to_match_type: Type) -> (r: SemResult<()>)
        requires
            pattern.kind == PatternKind::Tuple(*elems),
            old(self).wf(),
            old(self).scopes_view().len() > 0,
            ids_below(to_match_type@, old(self).tmap().next_id()),
            old(self).tmap().next_id() + pattern_unknowns(*pattern) < u32::MAX,
        ensures
            final(self).wf(),
            final(self).scopes_view().len() == old(self).scopes_view().len(),
            final(self).scopes_view().drop_last() == old(self).scopes_view().drop_last(),
            final(self).tmap().next_id() <= old(self).tmap().next_id() + pattern_unknowns(*pattern),
            plain_unknowns_added(old(self).tmap(), final(self).tmap()),
            old(self).tmap().node_types().len() <= final(self).tmap().node_types().len(),
            group_within(*old(inf_group), *old(self)) ==> group_within(*final(inf_group), *final(self)),
            extends(old(inf_group).items(), final(inf_group).items()),
            match pattern_gen(*pattern, to_match_type@, gen_state(*old(self), *old(inf_group))) {
                Outcome::Done(st) => r is Ok && gen_state(*final(self), *final(inf_group)) == st,
                Outcome::Failed(e) => r matches Err(x) && error_matches(x, e),
            },
        decreases pattern, 0nat,
    {
        let ghost st0 = gen_state(*self, *inf_group);
        let ghost t0 = to_match_type@;
        let ghost start = self.tmap().next_id();
        let mut elem_types: Vec<Type> = Vec::new();
        let mut i: usize = 0;
        proof {
            assert(elems@.take(0) =~= Seq::<Pattern>::empty());
            assert(view_types(elem_types@) =~= Seq::<TypeV>::empty());
            lemma_plain_refl(self.tmap());
        }
        while i < elems.len()
            invariant
                i <= elems.len(),
                pattern.kind == PatternKind::Tuple(*elems),
                self.wf(),
                self.scopes_view().len() == old(self).scopes_view().len(),
                self.scopes_view().drop_last() == old(self).scopes_view().drop_last(),
                self.scopes_view().len() > 0,
                old(self).tmap().node_types().len() <= self.tmap().node_types().len(),
                st0 == gen_state(*old(self), *old(inf_group)),
                t0 == to_match_type@,
                start == old(self).tmap().next_id(),
                ids_below(to_match_type@, start),
                start + pattern_unknowns(*pattern) < u32::MAX,
                pattern_unknowns(*pattern) == elems@.len() + patterns_unknowns(elems@),
                old(self).tmap().wf(),
                pattern_gen(*pattern, t0, st0) == match tuple_gen(elems@, st0) {
                    Outcome::Done((st2, ts)) => Outcome::Done(add_unif(st2, t0, TypeV::Tuple(ts), pattern.span, tuple_reason())),
                    Outcome::Failed(e) => Outcome::Failed(e),
                },
                self.tmap().next_id() <= start + i + patterns_unknowns(elems@.take(i as int)),
                plain_unknowns_added(old(self).tmap(), self.tmap()),
                group_within(*old(inf_group), *old(self)) ==> group_within(*inf_group, *self),
                extends(old(inf_group).items(), inf_group.items()),
                view_types(elem_types@).len() == elem_types.len(),
                forall|k: int| 0 <= k < elem_types.len() ==> ids_below(#[trigger] view_types(elem_types@)[k], self.tmap().next_id()),
                tuple_gen(elems@.take(i as int), st0) == Outcome::Done((gen_state(*self, *inf_group), view_types(elem_types@))),
            decreases elems.len() - i,
        {
            proof {
                lemma_patterns_unknowns_prefix(elems@, i as int);
                lemma_tuple_step(elems@, st0, i as int);
                vstd::std_specs::vec::axiom_vec_index_decreases(*elems, i as int);
                assert(decreases_to!(*pattern => pattern.kind));
                assert(decreases_to!(pattern.kind => pattern.kind->Tuple_0));
                self.types.lemma_wf();
            }
            let ghost s1 = gen_state(*self, *inf_group);
            let ghost tm1 = self.tmap();
            let elem_type = self.types.new_unknown();
            let ghost s_mid = gen_state(*self, *inf_group);
            let ghost tm2 = self.tmap();
            proof {
                if group_within(*old(inf_group), *old(self)) {
                    lemma_group_grows(inf_group.items(), tm1.next_id(), tm2.next_id());
                }
                assert forall|k: int| 0 <= k < elem_types.len() implies ids_below(#[trigger] view_types(elem_types@)[k], tm2.next_id()) by {
                    assert(ids_below(view_types(elem_types@)[k], tm1.next_id()));
                    assert forall|u: u32| #[trigger] occurs(u, view_types(elem_types@)[k]) implies u < tm2.next_id() by {}
                }
                assert(s_mid == GenState { next: s1.next + 1, ..s1 });
                assert forall|u: u32| #[trigger] occurs(u, elem_type@) implies u < self.tmap().next_id() by {}
                assert(tm2.subst().bind.take(tm1.next_id() as int) =~= tm1.subst().bind);
                assert(tm2.subst().order.take(tm1.next_id() as int) =~= tm1.subst().order);
                assert(tm2.constraints_view().take(tm1.next_id() as int) =~= tm1.constraints_view());
                assert(plain_unknowns_added(tm1, tm2));
                lemma_plain_trans(old(self).tmap(), tm1, tm2);
            }
            match self.sem_pattern(inf_group, &elems[i], elem_type.clone()) {
                Ok(()) => {},
                Err(e) => {
                    proof {
                        lemma_tuple_stop(elems@, st0, i as int + 1);
                        lemma_plain_trans(old(self).tmap(), tm2, self.tmap());
                    }
                    return Err(e);
                },
            }
            let ghost before = elem_types@;
            let ghost ev = elem_type@;
            elem_types.push(elem_type);
            proof {
                lemma_plain_trans(old(self).tmap(), tm2, self.tmap());
                assert(view_types(elem_types@) =~= view_types(before).push(ev)) by {
                    lemma_view_types(elem_types@);
                    lemma_view_types(before);
                }
                lemma_view_types(elem_types@);
                assert forall|k: int| 0 <= k < elem_types.len() implies ids_below(#[trigger] view_types(elem_types@)[k], self.tmap().next_id()) by {
                    if k < before.len() {
                        assert(view_types(elem_types@)[k] == view_types(before)[k]);
                        assert(ids_below(view_types(before)[k], tm2.next_id()));
                        assert forall|u: u32| #[trigger] occurs(u, view_types(before)[k]) implies u < self.tmap().next_id() by {}
                    } else {
                        assert(view_types(elem_types@)[k] == ev);
                        assert forall|u: u32| #[trigger] occurs(u, ev) implies u < self.tmap().next_id() by {}
                    }
                }
            }
            i += 1;
        }
        proof {
            assert(elems@.take(elems.len() as int) =~= elems@);
        }
        let ghost g0 = inf_group.items();
        proof {
            lemma_view_types(elem_types@);
            lemma_tuple_below(view_types(elem_types@), self.tmap().next_id());
            assert forall|u: u32| #[trigger] occurs(u, to_match_type@) implies u < self.tmap().next_id() by {}
        }
        let tuple_type = Type::new_tuple(elem_types);
        inf_group.insert_unification(to_match_type, tuple_type, "tuple pattern must match the type of the matched expression", &pattern.span);
        proof {
            if group_within(*old(inf_group), *old(self)) {
                lemma_group_push(g0, inf_group.items().last(), self.tmap().next_id());
                assert(inf_group.items() =~= g0.push(inf_group.items().last()));
            }
            assert(inf_group.items().map_values(|u: Unification| unif_view(u))
                =~= g0.map_values(|u: Unification| unif_view(u)).push(unif_view(inf_group.items().last())));
        }
        Ok(())
    }
}


impl SemTable {
    /// `sem_pattern` on a constructor pattern: the constructor's type gives
    /// the types its arguments are analysed against, and what it builds is
    /// unified with the type.
    #[verifier::spinoff_prover]
    #[verifier::rlimit(40)]
    fn sem_constructor_pattern(
        &mut self,
        inf_group: &mut InferenceGroup,
        pattern: &Pattern,
        id: &String,
        args: &Vec<Pattern>,
        to_match_type: Type,
    ) -> (r: SemResult<()>)
        requires
            pattern.kind == (PatternKind::IdUpper { id: *id, args: *args }),
            old(self).wf(),
            old(self).scopes_view().len() > 0,
            ids_below(to_match_type@, old(self).tmap().next_id()),
            old(self).tmap().next_id() + pattern_unknowns(*pattern) < u32::MAX,
        ensures
            final(self).wf(),
            final(self).scopes_view().len() == old(self).scopes_view().len(),
            final(self).scopes_view().drop_last() == old(self).scopes_view().drop_last(),
            final(self).tmap().next_id() <= old(self).tmap().next_id() + pattern_unknowns(*pattern),
            plain_unknowns_added(old(self).tmap(), final(self).tmap()),
            old(self).tmap().node_types().len() <= final(self).tmap().node_types().len(),
            group_within(*old(inf_group), *old(self)) ==> group_within(*final(inf_group), *final(self)),
            extends(old(inf_group).items(), final(inf_group).items()),
            match pattern_gen(*pattern, to_match_type@, gen_state(*old(self), *old(inf_group))) {
                Outcome::Done(st) => r is Ok && gen_state(*final(self), *final(inf_group)) == st,
                Outcome::Failed(e) => r matches Err(x) && error_matches(x, e),
            },
        decreases pattern, 0nat,
    {
        let ghost st0 = gen_state(*self, *inf_group);
        let ghost t0 = to_match_type@;
        let ghost start = self.tmap().next_id();
        proof {
            lemma_plain_refl(self.tmap());
            self.types.lemma_wf();
        }
        let node = match self.lookup(id.as_str()) {
            Some(n) => n,
            None => {
                return Err(SemanticError::LookupError { id: id.clone(), span: pattern.span.clone() });
            },
        };
        proof {
            lemma_lookup_found(self.scopes_view(), id@);
        }
        let constructor_type = match self.types.get_node_type(node) {
            Some(t) => t,
            None => {
                return Ok(());
            },
        };
        proof {
            self.types.lemma_node_ids(node as int);
        }
        match &constructor_type {
            Type::Func { lhs, rhs } => {
                proof {
                    lemma_ids_below_parts(constructor_type@, start, start);
                }
                let mut params: Vec<Type> = Vec::new();
                params.push((**lhs).clone());
                let mut cur: Type = (**rhs).clone();
                let ghost parts = constr_parts((**lhs)@, (**rhs)@);
                proof {
                    lemma_view_types(params@);
                    assert(view_types(params@) =~= seq![(**lhs)@]);
                }
                while matches!(cur, Type::Func { .. })
                    invariant
                        parts == constr_parts((**lhs)@, (**rhs)@),
                        view_types(params@) + func_chain(cur@).0 == parts.0,
                        func_chain(cur@).1 == parts.1,
                        ids_below(cur@, start),
                        view_types(params@).len() == params.len(),
                        forall|k: int| 0 <= k < params.len() ==> ids_below(#[trigger] view_types(params@)[k], start),
                    decreases size(cur@),
                {
                    let taken = cur;
                    match taken {
                        Type::Func { lhs: a, rhs: b } => {
                            let ghost before = params@;
                            proof {
                                lemma_ids_below_parts(taken@, start, start);
                            }
                            params.push(*a);
                            cur = *b;
                            proof {
                                lemma_view_types(params@);
                                lemma_view_types(before);
                                assert(view_types(params@) =~= view_types(before).push(params@[before.len() as int]@));
                                assert(view_types(params@) + func_chain(cur@).0 =~= view_types(before) + func_chain(taken@).0);
                            }
                        },
                        other => {
                            cur = other;
                        },
                    }
                }
                let ret = cur;
                proof {
                    assert(func_chain(ret@).0 =~= Seq::<TypeV>::empty());
                    assert(view_types(params@) =~= parts.0);
                    assert(ret@ == parts.1);
                    lemma_view_types(params@);
                    assert(params.len() == parts.0.len());
                    assert(constructor_type@ == TypeV::Func(Box::new((**lhs)@), Box::new((**rhs)@)));
                }
                if params.len() != args.len() {
                    let mut msg = String::new();
                    string_push_str(&mut msg, "partial application of constructor ");
                    string_push_str(&mut msg, id.as_str());
                    string_push_str(&mut msg, " in match patterns is not allowed");
                    proof {
                        assert(msg@ =~= partial_message(id@));
                    }
                    return Err(SemanticError::GeneralError { msg, span: pattern.span.clone() });
                }
                let ghost ps = view_types(params@);
                let mut i: usize = 0;
                proof {
                    assert(args@.take(0) =~= Seq::<Pattern>::empty());
                    assert(ps.take(0) =~= Seq::<TypeV>::empty());
                    lemma_view_types(params@);
                }
                while i < args.len()
                    invariant
                        i <= args.len(),
                        params.len() == args.len(),
                        ps == view_types(params@),
                        ps.len() == params.len(),
                        forall|k: int| 0 <= k < params.len() ==> #[trigger] ps[k] == params@[k]@,
                        forall|k: int| 0 <= k < params.len() ==> ids_below(#[trigger] ps[k], start),
                        pattern.kind == (PatternKind::IdUpper { id: *id, args: *args }),
                        self.wf(),
                        self.scopes_view().len() == old(self).scopes_view().len(),
                        self.scopes_view().drop_last() == old(self).scopes_view().drop_last(),
                        self.scopes_view().len() > 0,
                        old(self).tmap().node_types().len() <= self.tmap().node_types().len(),
                        st0 == gen_state(*old(self), *old(inf_group)),
                        start == old(self).tmap().next_id(),
                        start <= self.tmap().next_id(),
                        start + pattern_unknowns(*pattern) < u32::MAX,
                        pattern_unknowns(*pattern) == patterns_unknowns(args@),
                        old(self).tmap().wf(),
                        t0 == to_match_type@,
                        pattern_gen(*pattern, t0, st0) == match patterns_gen(args@, ps, st0) {
                            Outcome::Done(st2) => Outcome::Done(add_unif(st2, t0, ret@, pattern.span, constr_reason())),
                            Outcome::Failed(e) => Outcome::Failed(e),
                        },
                        self.tmap().next_id() <= start + patterns_unknowns(args@.take(i as int)),
                        plain_unknowns_added(old(self).tmap(), self.tmap()),
                        group_within(*old(inf_group), *old(self)) ==> group_within(*inf_group, *self),
                        extends(old(inf_group).items(), inf_group.items()),
                extends(old(inf_group).items(), inf_group.items()),
                        ids_below(ret@, start),
                        patterns_gen(args@.take(i as int), ps.take(i as int), st0) == Outcome::Done(gen_state(*self, *inf_group)),
                    decreases args.len() - i,
                {
                    proof {
                        lemma_patterns_unknowns_prefix(args@, i as int);
                        lemma_patterns_step(args@, ps, st0, i as int);
                        vstd::std_specs::vec::axiom_vec_index_decreases(*args, i as int);
                        assert(decreases_to!(*pattern => pattern.kind));
                        assert(decreases_to!(pattern.kind => pattern.kind->args));
                        lemma_ids_below_parts(ps[i as int], start, self.tmap().next_id());
                    }
                    let ghost tm1 = self.tmap();
                    match self.sem_pattern(inf_group, &args[i], params[i].clone()) {
                        Ok(()) => {},
                        Err(e) => {
                            proof {
                                lemma_patterns_stop(args@, ps, st0, i as int + 1);
                                lemma_plain_trans(old(self).tmap(), tm1, self.tmap());
                            }
                            return Err(e);
                        },
                    }
                    proof {
                        lemma_plain_trans(old(self).tmap(), tm1, self.tmap());
                    }
                    i += 1;
                }
                proof {
                    assert(args@.take(args.len() as int) =~= args@);
                    assert(ps.take(args.len() as int) =~= ps);
                }
                let ghost g0 = inf_group.items();
                proof {
                    assert forall|u: u32| #[trigger] occurs(u, to_match_type@) implies u < self.tmap().next_id() by {}
                    assert forall|u: u32| #[trigger] occurs(u, ret@) implies u < self.tmap().next_id() by {}
                }
                inf_group.insert_unification(to_match_type, ret, "constructor pattern must match the type of the matched expression", &pattern.span);
                proof {
                    if group_within(*old(inf_group), *old(self)) {
                        lemma_group_push(g0, inf_group.items().last(), self.tmap().next_id());
                        assert(inf_group.items() =~= g0.push(inf_group.items().last()));
                    }
                    assert(inf_group.items().map_values(|u: Unification| unif_view(u))
                        =~= g0.map_values(|u: Unification| unif_view(u)).push(unif_view(inf_group.items().last())));
                }
                Ok(())
            },
            Type::Custom { .. } => {
                if args.len() > 0 {
                    let mut msg = String::new();
                    string_push_str(&mut msg, "constructor ");
                    string_push_str(&mut msg, id.as_str());
                    string_push_str(&mut msg, " invoked with arguments in match pattern, but takes none");
                    proof {
                        assert(msg@ =~= no_args_message(id@));
                    }
                    return Err(SemanticError::GeneralError { msg, span: pattern.span.clone() });
                }
                let ghost g0 = inf_group.items();
                inf_group.insert_unification(to_match_type, constructor_type.clone(), "constructor pattern must match the type of the matched expression", &pattern.span);
                proof {
                    if group_within(*old(inf_group), *old(self)) {
                        lemma_group_push(g0, inf_group.items().last(), self.tmap().next_id());
                        assert(inf_group.items() =~= g0.push(inf_group.items().last()));
                    }
                    assert(inf_group.items().map_values(|u: Unification| unif_view(u))
                        =~= g0.map_values(|u: Unification| unif_view(u)).push(unif_view(inf_group.items().last())));
                }
                Ok(())
            },
            _ => {
                let mut msg = String::new();
                string_push_str(&mut msg, id.as_str());
                string_push_str(&mut msg, " type signature is not a function (constructors are functions)");
                proof {
                    assert(msg@ =~= not_function_message(id@));
                }
                Err(SemanticError::GeneralError { msg, span: pattern.span.clone() })
            },
        }
    }
}

} // verus!
