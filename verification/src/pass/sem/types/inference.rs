use vstd::prelude::*;
use crate::parse::ast::Span;
use crate::pass::sem::{SemResult, SemanticError};
use super::{Type, TypeV, same_type, view_type, view_types, lemma_view_types};
use super::type_map::{TypeMap, occurs_in, decimal_string, constraints_message, occurs_message};
use super::subst::{
    Subst, wf, bound, binding, occurs, apply, apply_seq, ids_below, size,
    size_seq, free_count, refines, same_meaning, bind_to, lemma_apply_resolved,
    lemma_apply_idem, lemma_apply_seq, lemma_bind_to, lemma_extension_refines,
    lemma_free_count_bound, lemma_same_meaning_refines, lemma_refines_trans, lemma_unfold_bound,
    lemma_size_seq, lemma_occurs_seq, lemma_resolved_parts, lemma_apply_id,
    lemma_same_meaning_trans, resolved,
};
use super::parts::{
    arrays_settled, covers, in_view, is_part, is_part_seq, keeps_settled, pair_of, lemma_covers_refines,
    lemma_in_view_part, lemma_is_part_seq, lemma_keeps_settled_same_meaning, lemma_pair_covers,
    lemma_settled_after_bind, lemma_view_of_pair, lemma_view_same_meaning,
};

verus! {

/// How many dimensions an array type has: exactly so many, or at least so
/// many.
#[derive(Debug, Clone, Copy, PartialEq, Eq, Structural)]
pub enum ArrayDims {
    Known(u32),
    LowerBounded(u32),
}

/// Whether two dimension counts can describe the same array: equal ones,
/// two lower bounds, or a known count that reaches a lower bound.
pub open spec fn dims_compatible(a: ArrayDims, b: ArrayDims) -> bool {
    match (a, b) {
        (ArrayDims::Known(x), ArrayDims::Known(y)) => x == y,
        (ArrayDims::Known(x), ArrayDims::LowerBounded(y)) => y <= x,
        (ArrayDims::LowerBounded(y), ArrayDims::Known(x)) => y <= x,
        (ArrayDims::LowerBounded(_), ArrayDims::LowerBounded(_)) => true,
    }
}

/// Compatibility of dimension counts does not depend on the order.
pub proof fn law_dims_compatible_symmetric(a: ArrayDims, b: ArrayDims)
    ensures
        dims_compatible(a, b) == dims_compatible(b, a),
{
}

impl ArrayDims {
    pub fn are_compatible(&self, other: &Self) -> (r: bool)
        ensures
            r == dims_compatible(*self, *other),
    {
        if *self == *other {
            return true;
        }
        match (self, other) {
            (ArrayDims::Known(a), ArrayDims::LowerBounded(b)) => *b <= *a,
            (ArrayDims::LowerBounded(b), ArrayDims::Known(a)) => *b <= *a,
            (ArrayDims::LowerBounded(_), ArrayDims::LowerBounded(_)) => true,
            _ => false,
        }
    }
}

/// The variant of a [`Type`], without its contents.
#[derive(Debug, Clone, Copy, PartialEq, Eq, Structural, Hash)]
pub enum TypeKind {
    Unknown,
    Unit,
    Int,
    Char,
    Bool,
    Float,
    Func,
    Ref,
    Array,
    Tuple,
    Custom,
}

pub open spec fn kind_of(t: TypeV) -> TypeKind {
    match t {
        TypeV::Unknown(_) => TypeKind::Unknown,
        TypeV::Unit => TypeKind::Unit,
        TypeV::Int => TypeKind::Int,
        TypeV::Char => TypeKind::Char,
        TypeV::Bool => TypeKind::Bool,
        TypeV::Float => TypeKind::Float,
        TypeV::Func(..) => TypeKind::Func,
        TypeV::Ref(..) => TypeKind::Ref,
        TypeV::Array(..) => TypeKind::Array,
        TypeV::Tuple(..) => TypeKind::Tuple,
        TypeV::Custom(..) => TypeKind::Custom,
    }
}

impl Type {
    pub fn kind(&self) -> (r: TypeKind)
        ensures
            r == kind_of(self@),
    {
        match self {
            Type::Unknown(_) => TypeKind::Unknown,
            Type::Unit => TypeKind::Unit,
            Type::Int => TypeKind::Int,
            Type::Char => TypeKind::Char,
            Type::Bool => TypeKind::Bool,
            Type::Float => TypeKind::Float,
            Type::Func { .. } => TypeKind::Func,
            Type::Ref(_) => TypeKind::Ref,
            Type::Array { .. } => TypeKind::Array,
            Type::Tuple(_) => TypeKind::Tuple,
            Type::Custom { .. } => TypeKind::Custom,
        }
    }
}

/// What an unknown type may become: if `allowed` is not empty, only a type
/// of one of its kinds; and never a type of a kind in `disallowed`.
#[derive(Debug)]
pub struct Constraints {
    allowed: Vec<TypeKind>,
    disallowed: Vec<TypeKind>,
}

/// The sets of kinds that constraints allow and disallow.
pub struct ConstraintsV {
    pub allowed: Set<TypeKind>,
    pub disallowed: Set<TypeKind>,
}

pub open spec fn satisfies(c: ConstraintsV, k: TypeKind) -> bool {
    (c.allowed.is_empty() || c.allowed.contains(k)) && !c.disallowed.contains(k)
}

impl View for Constraints {
    type V = ConstraintsV;

    closed spec fn view(&self) -> ConstraintsV {
        ConstraintsV { allowed: self.allowed@.to_set(), disallowed: self.disallowed@.to_set() }
    }
}

fn contains_kind(v: &Vec<TypeKind>, k: TypeKind) -> (r: bool)
    ensures
        r == v@.contains(k),
{
    let mut i: usize = 0;
    while i < v.len()
        invariant
            i <= v.len(),
            forall|j: int| 0 <= j < i ==> v@[j] != k,
        decreases v.len() - i,
    {
        if v[i] == k {
            return true;
        }
        i += 1;
    }
    false
}

fn add_kinds(dst: &mut Vec<TypeKind>, src: &Vec<TypeKind>)
    ensures
        final(dst)@.to_set() == old(dst)@.to_set().union(src@.to_set()),
{
    let ghost start = dst@;
    let mut i: usize = 0;
    while i < src.len()
        invariant
            i <= src.len(),
            dst@.to_set() == start.to_set().union(src@.subrange(0, i as int).to_set()),
        decreases src.len() - i,
    {
        let k = src[i];
        let ghost before = dst@;
        if !contains_kind(dst, k) {
            dst.push(k);
            proof {
                before.lemma_push_to_set_commute(k);
            }
        } else {
            assert(before.to_set().insert(k) =~= before.to_set());
        }
        proof {
            src@.subrange(0, i as int).lemma_push_to_set_commute(k);
            assert(src@.subrange(0, i + 1) =~= src@.subrange(0, i as int).push(k));
            assert(dst@.to_set() =~= start.to_set().union(src@.subrange(0, i + 1).to_set()));
        }
        i += 1;
    }
    proof {
        assert(src@.subrange(0, src.len() as int) =~= src@);
    }
}

impl Constraints {
    pub fn new() -> (r: Self)
        ensures
            r@.allowed == Set::<TypeKind>::empty(),
            r@.disallowed == Set::<TypeKind>::empty(),
    {
        let r = Self { allowed: Vec::new(), disallowed: Vec::new() };
        proof {
            assert(r@.allowed =~= Set::<TypeKind>::empty());
            assert(r@.disallowed =~= Set::<TypeKind>::empty());
        }
        r
    }

    /// Only numbers: `int` or `float`.
    pub fn allow_numeric() -> (r: Self)
        ensures
            r@.allowed == set![TypeKind::Int, TypeKind::Float],
            r@.disallowed == Set::<TypeKind>::empty(),
    {
        let r = Self { allowed: vec![TypeKind::Int, TypeKind::Float], disallowed: Vec::new() };
        proof {
            assert(r@.allowed =~= set![TypeKind::Int, TypeKind::Float]);
            assert(r@.disallowed =~= Set::<TypeKind>::empty());
        }
        r
    }

    /// Only what can be ordered: `int`, `float` or `char`.
    pub fn allow_comparables() -> (r: Self)
        ensures
            r@.allowed == set![TypeKind::Int, TypeKind::Float, TypeKind::Char],
            r@.disallowed == Set::<TypeKind>::empty(),
    {
        let r = Self {
            allowed: vec![TypeKind::Int, TypeKind::Float, TypeKind::Char],
            disallowed: Vec::new(),
        };
        proof {
            assert(r@.allowed =~= set![TypeKind::Int, TypeKind::Float, TypeKind::Char]);
            assert(r@.disallowed =~= Set::<TypeKind>::empty());
        }
        r
    }

    /// Anything but an array or a function.
    pub fn disallow_array_and_func() -> (r: Self)
        ensures
            r@.allowed == Set::<TypeKind>::empty(),
            r@.disallowed == set![TypeKind::Array, TypeKind::Func],
    {
        let r = Self { allowed: Vec::new(), disallowed: vec![TypeKind::Array, TypeKind::Func] };
        proof {
            assert(r@.allowed =~= Set::<TypeKind>::empty());
            assert(r@.disallowed =~= set![TypeKind::Array, TypeKind::Func]);
        }
        r
    }

    /// Whether a type of `ty`'s kind may take the place of the constrained
    /// unknown type.
    pub fn are_satisfied_by(&self, ty: &Type) -> (r: bool)
        ensures
            r == satisfies(self@, kind_of(ty@)),
    {
        let k = ty.kind();
        proof {
            if self.allowed@.len() > 0 {
                assert(self@.allowed.contains(self.allowed@[0]));
            } else {
                assert(self@.allowed =~= Set::<TypeKind>::empty());
            }
        }
        if self.allowed.len() > 0 && !contains_kind(&self.allowed, k) {
            return false;
        }
        if contains_kind(&self.disallowed, k) {
            return false;
        }
        true
    }

    /// Adds the kinds that `other` allows and disallows to those of `self`.
    pub fn consolidate(&mut self, other: &Self)
        ensures
            final(self)@.allowed == old(self)@.allowed.union(other@.allowed),
            final(self)@.disallowed == old(self)@.disallowed.union(other@.disallowed),
    {
        add_kinds(&mut self.allowed, &other.allowed);
        add_kinds(&mut self.disallowed, &other.disallowed);
    }
}

/// The name of a kind of type, in lower case.
pub open spec fn kind_name(k: TypeKind) -> Seq<char> {
    match k {
        TypeKind::Unknown => "unknown"@,
        TypeKind::Unit => "unit"@,
        TypeKind::Int => "int"@,
        TypeKind::Char => "char"@,
        TypeKind::Bool => "bool"@,
        TypeKind::Float => "float"@,
        TypeKind::Func => "func"@,
        TypeKind::Ref => "ref"@,
        TypeKind::Array => "array"@,
        TypeKind::Tuple => "tuple"@,
        TypeKind::Custom => "custom"@,
    }
}

/// The names of kinds, separated by commas.
pub open spec fn kind_names(ks: Seq<TypeKind>) -> Seq<char>
    decreases ks.len(),
{
    if ks.len() == 0 {
        Seq::empty()
    } else if ks.len() == 1 {
        kind_name(ks[0])
    } else {
        kind_names(ks.drop_last()) + ", "@ + kind_name(ks.last())
    }
}

/// How constraints read: ` allow{...}` when some kinds are allowed, and
/// ` disallow{...}` when some are disallowed, the two separated by a comma.
pub open spec fn constraints_text(allowed: Seq<TypeKind>, disallowed: Seq<TypeKind>) -> Seq<char> {
    (if allowed.len() > 0 { " allow{"@ + kind_names(allowed) + "}"@ } else { Seq::empty() })
        + (if allowed.len() > 0 && disallowed.len() > 0 { ", "@ } else { Seq::empty() })
        + (if disallowed.len() > 0 { " disallow{"@ + kind_names(disallowed) + "}"@ } else { Seq::empty() })
}

/// The name of a kind of type, in lower case.
fn kind_name_str(k: TypeKind) -> (r: &'static str)
    ensures
        r@ == kind_name(k),
{
    match k {
        TypeKind::Unknown => "unknown",
        TypeKind::Unit => "unit",
        TypeKind::Int => "int",
        TypeKind::Char => "char",
        TypeKind::Bool => "bool",
        TypeKind::Float => "float",
        TypeKind::Func => "func",
        TypeKind::Ref => "ref",
        TypeKind::Array => "array",
        TypeKind::Tuple => "tuple",
        TypeKind::Custom => "custom",
    }
}

/// Appends the names of the kinds, separated by commas.
fn push_kind_names(s: &mut String, ks: &Vec<TypeKind>)
    ensures
        final(s)@ == old(s)@ + kind_names(ks@),
{
    let ghost start = s@;
    let mut i: usize = 0;
    while i < ks.len()
        invariant
            i <= ks.len(),
            s@ == start + kind_names(ks@.take(i as int)),
        decreases ks.len() - i,
    {
        if i > 0 {
            crate::text::string_push_str(s, ", ");
        }
        crate::text::string_push_str(s, kind_name_str(ks[i]));
        proof {
            assert(ks@.take(i + 1).drop_last() =~= ks@.take(i as int));
            if i == 0 {
                assert(kind_names(ks@.take(0)) =~= Seq::<char>::empty());
            }
            assert(s@ =~= start + kind_names(ks@.take(i + 1)));
        }
        i += 1;
    }
    proof {
        assert(ks@.take(ks.len() as int) =~= ks@);
    }
}

impl Constraints {
    /// The allowed kinds, in the order they were given.
    pub closed spec fn allowed_kinds(&self) -> Seq<TypeKind> {
        self.allowed@
    }

    /// The disallowed kinds, in the order they were given.
    pub closed spec fn disallowed_kinds(&self) -> Seq<TypeKind> {
        self.disallowed@
    }

    /// How the constraints read: ` allow{...}` and ` disallow{...}`, each
    /// where there is a kind to name.
    pub fn text(&self) -> (r: String)
        ensures
            r@ == constraints_text(self.allowed_kinds(), self.disallowed_kinds()),
    {
        let mut s = String::new();
        if self.allowed.len() > 0 {
            crate::text::string_push_str(&mut s, " allow{");
            push_kind_names(&mut s, &self.allowed);
            crate::text::string_push_str(&mut s, "}");
        }
        if self.allowed.len() > 0 && self.disallowed.len() > 0 {
            crate::text::string_push_str(&mut s, ", ");
        }
        if self.disallowed.len() > 0 {
            crate::text::string_push_str(&mut s, " disallow{");
            push_kind_names(&mut s, &self.disallowed);
            crate::text::string_push_str(&mut s, "}");
        }
        proof {
            assert(s@ =~= constraints_text(self.allowed_kinds(), self.disallowed_kinds()));
        }
        s
    }
}

impl Clone for Constraints {
    fn clone(&self) -> (r: Self)
        ensures
            r@ == self@,
    {
        Constraints { allowed: self.allowed.clone(), disallowed: self.disallowed.clone() }
    }
}

/// The message of an inference error.
pub open spec fn error_message(e: SemanticError) -> Seq<char> {
    match e {
        SemanticError::InferenceError { msg, .. } => msg@,
        SemanticError::LookupError { .. } => Seq::empty(),
        SemanticError::GeneralError { msg, .. } => msg@,
        SemanticError::NotYetImplemented { msg, .. } => msg@,
    }
}

/// The message of the case that unification does not implement yet.
pub open spec fn unfinished_message() -> Seq<char> {
    "not yet implemented: choose the dim_cnt that is more specific"@
}

/// `e` reports, at `span`, the case that unification does not implement yet.
pub open spec fn unfinished_error(e: SemanticError, span: Span) -> bool {
    e matches SemanticError::NotYetImplemented { msg, span: sp } && msg@ == unfinished_message() && sp == span
}

/// `e` reports a failed unification for `reason` at `span`, with both sides
/// as the bindings `s` give them.
pub open spec fn inference_error(e: SemanticError, s: Subst, span: Span, reason: &str) -> bool {
    &&& e matches SemanticError::InferenceError { lhs, rhs, lhs_resolved, rhs_resolved, span: sp, unification_reason, .. }
    &&& lhs_resolved@ == apply(s, lhs@)
    &&& rhs_resolved@ == apply(s, rhs@)
    &&& sp == span
    &&& unification_reason@ == reason@
}

/// Both types have parts that unification matches up one by one.
pub open spec fn same_structure(l: TypeV, r: TypeV) -> bool {
    ||| l is Func && r is Func
    ||| l is Ref && r is Ref
    ||| l is Array && r is Array
    ||| l is Tuple && r is Tuple
}

pub open spec fn couldnt_unify_message() -> Seq<char> {
    "Couldn't unify"@
}

pub open spec fn tuple_sizes_message() -> Seq<char> {
    "Tuple sizes don't match"@
}

/// `e` reports the failed unification of exactly `l` and `r`.
pub open spec fn error_sides(e: SemanticError, l: TypeV, r: TypeV) -> bool {
    e matches SemanticError::InferenceError { lhs: a, rhs: b, .. } && a@ == l && b@ == r
}

pub open spec fn dims_message(a: ArrayDims, b: ArrayDims) -> Seq<char> {
    "Can't match dims "@ + dims_text(a) + " with "@ + dims_text(b)
}

impl TypeMap {
    /// An inference error for the unification of `lhs` and `rhs`, with both
    /// sides resolved as far as the bindings go.
    fn unification_into_error(&mut self, lhs: Type, rhs: Type, span: &Span, reason: &'static str, msg: String) -> (e: SemanticError)
        requires
            old(self).wf(),
        ensures
            final(self).wf(),
            same_meaning(old(self).subst(), final(self).subst()),
            final(self).constraints_view() == old(self).constraints_view(),
            final(self).next_id() == old(self).next_id(),
            final(self).same_nodes(old(self)),
            inference_error(e, final(self).subst(), *span, reason),
            error_message(e) == msg@,
            e matches SemanticError::InferenceError { lhs: l, rhs: r, .. } && l@ == lhs@ && r@ == rhs@,
    {
        let ghost s0 = self.subst();
        let lhs_resolved = self.deep_resolve_type(lhs.clone());
        let ghost s1 = self.subst();
        let rhs_resolved = self.deep_resolve_type(rhs.clone());
        proof {
            super::subst::lemma_same_meaning_trans(s0, s1, self.subst());
        }
        SemanticError::InferenceError {
            msg,
            lhs_resolved,
            rhs_resolved,
            lhs,
            rhs,
            span: span.clone(),
            unification_reason: reason.to_owned(),
        }
    }

    /// Makes `lhs` and `rhs` the same type by binding unknown types, or
    /// reports why they cannot be.
    pub fn unify(&mut self, lhs: Type, rhs: Type, span: &Span, reason: &'static str) -> (r: SemResult<()>)
        requires
            old(self).wf(),
            ids_below(lhs@, old(self).next_id()),
            ids_below(rhs@, old(self).next_id()),
        ensures
            final(self).wf(),
            keeps_settled(old(self).subst(), final(self).subst(), lhs@, rhs@),
            final(self).next_id() == old(self).next_id(),
            final(self).same_nodes(old(self)),
            refines(old(self).subst(), final(self).subst()),
            r is Ok ==> apply(final(self).subst(), lhs@) == apply(final(self).subst(), rhs@),
            r matches Err(e) ==> inference_error(e, final(self).subst(), *span, reason) || unfinished_error(e, *span),
            ({
                let s = old(self).subst();
                let cs = old(self).constraints_view();
                let l = apply(s, lhs@);
                let rr = apply(s, rhs@);
                &&& (l == rr ==> r is Ok && same_meaning(s, final(self).subst()))
                &&& (l != rr && l is Unknown ==> (r is Ok <==> satisfies(cs[l->Unknown_0 as int], kind_of(rr)) && !occurs(l->Unknown_0, rr)))
                &&& (l != rr && !(l is Unknown) && rr is Unknown ==> (r is Ok <==> satisfies(cs[rr->Unknown_0 as int], kind_of(l)) && !occurs(rr->Unknown_0, l)))
                &&& (l != rr && (l is Unknown || rr is Unknown) && r is Err ==> {
                    &&& same_meaning(s, final(self).subst())
                    &&& final(self).constraints_view() == cs
                    &&& error_sides(r->Err_0, lhs@, rhs@)
                })
                &&& (l != rr && (l is Unknown || rr is Unknown) && r is Err ==> error_message(r->Err_0) == (
                    if l is Unknown {
                        if !satisfies(cs[l->Unknown_0 as int], kind_of(rr)) { constraints_message() } else { occurs_message() }
                    } else {
                        if !satisfies(cs[rr->Unknown_0 as int], kind_of(l)) { constraints_message() } else { occurs_message() }
                    }))
                &&& (l != rr && !(l is Unknown) && !(rr is Unknown) && !same_structure(l, rr) ==> r is Err && error_message(r->Err_0) == couldnt_unify_message()
                    && error_sides(r->Err_0, lhs@, rhs@))
                &&& (l is Tuple && rr is Tuple && l->Tuple_0.len() != rr->Tuple_0.len() ==> r is Err && error_message(r->Err_0) == tuple_sizes_message()
                    && error_sides(r->Err_0, lhs@, rhs@))
                &&& (l is Array && rr is Array && !dims_compatible(l->Array_1, rr->Array_1) ==> r is Err && error_message(r->Err_0) == dims_message(l->Array_1, rr->Array_1)
                    && error_sides(r->Err_0, lhs@, rhs@))
                &&& (l != rr && !(l is Unknown) && !(rr is Unknown) ==> exists|m: TypeMap| {
                    &&& same_meaning(s, m.subst())
                    &&& m.constraints_view() == cs
                    &&& m.next_id() == old(self).next_id()
                    &&& #[trigger] parts_post(m, *final(self), l, rr, *span, reason, r)
                })
            }),
        decreases free_count(old(self).subst().bind), size(apply(old(self).subst(), lhs@)) + size(apply(old(self).subst(), rhs@)), 1nat,
    {
        let ghost s0 = self.subst();
        let ghost n = self.next_id();
        let ghost cs0 = self.constraints_view();
        proof {
            self.lemma_wf();
            lemma_apply_resolved(s0, lhs@);
            lemma_apply_resolved(s0, rhs@);
            lemma_apply_idem(s0, lhs@);
            lemma_apply_idem(s0, rhs@);
        }
        let lhs_r = self.deep_resolve_type(lhs.clone());
        let ghost s1 = self.subst();
        let rhs_r = self.deep_resolve_type(rhs.clone());
        let ghost s2 = self.subst();
        let ghost lv = lhs_r@;
        let ghost rv = rhs_r@;
        proof {
            self.lemma_wf();
            lemma_same_meaning_trans(s0, s1, s2);
            lemma_same_meaning_refines(s0, s2);
            assert(lv == apply(s0, lhs@));
            assert(rv == apply(s0, rhs@));
            assert(ids_below(lv, n)) by {
                assert forall|u: u32| #[trigger] occurs(u, lv) implies u < n by {
                    if !(u < s0.bind.len()) {
                        assert(occurs(u, lhs@));
                    }
                }
            }
            assert(ids_below(rv, n)) by {
                assert forall|u: u32| #[trigger] occurs(u, rv) implies u < n by {
                    if !(u < s0.bind.len()) {
                        assert(occurs(u, rhs@));
                    }
                }
            }
            assert(resolved(s2, lv)) by {
                assert forall|u: u32| #[trigger] occurs(u, lv) implies !bound(s2, u) by {}
            }
            assert(resolved(s2, rv)) by {
                assert forall|u: u32| #[trigger] occurs(u, rv) implies !bound(s2, u) by {}
            }
            assert(apply(s2, lhs@) == lv);
            assert(apply(s2, rhs@) == rv);
            lemma_resolved_parts(s0, lv, n);
            lemma_resolved_parts(s0, rv, n);
            lemma_keeps_settled_same_meaning(s0, s2, lhs@, rhs@);
            lemma_view_same_meaning(s0, s2, pair_of(lhs@, rhs@));
        }
        if same_type(&lhs_r, &rhs_r) {
            return Ok(());
        }
        let lhs_unknown = matches!(lhs_r, Type::Unknown(_));
        let rhs_unknown = matches!(rhs_r, Type::Unknown(_));
        if lhs_unknown || rhs_unknown {
            let (unknown, resolved) = if lhs_unknown { (lhs_r, rhs_r) } else { (rhs_r, lhs_r) };
            let ghost uv = unknown@;
            let ghost a = uv->Unknown_0;
            let ghost other = resolved@;
            proof {
                assert(occurs(a, uv));
                assert(a < n);
                assert(!bound(s2, a));
            }
            match self.try_add_resolution(unknown, resolved) {
                Ok(()) => {
                    let ghost s3 = self.subst();
                    proof {
                        self.lemma_wf();
                        lemma_bind_to(s2, a, other);
                        assert forall|t: TypeV| #[trigger] apply(s3, apply(s2, t)) == apply(s3, t) by {
                            lemma_extension_refines(s2, s3, t);
                        }
                        lemma_free_count_bound(s2, s3);
                        assert(bound(s3, a));
                        assert(free_count(s3.bind) < free_count(s2.bind));
                        assert(refines(s2, s3));
                        lemma_refines_trans(s0, s2, s3);
                        lemma_unfold_bound(s3, a);
                        assert(apply(s3, lhs@) == apply(s3, lv));
                        assert(apply(s3, rhs@) == apply(s3, rv));
                        assert(apply(s3, uv) == apply(s3, other));
                        assert forall|ts: Seq<TypeV>| arrays_settled(s0, ts) && covers(s0, ts, lhs@) && covers(s0, ts, rhs@)
                            implies #[trigger] arrays_settled(s3, ts) by {
                            lemma_view_same_meaning(s0, s2, ts);
                            assert(covers(s2, ts, lhs@) && covers(s2, ts, rhs@));
                            assert(in_view(s2, ts, other));
                            lemma_settled_after_bind(s2, ts, a, other);
                        }
                    }
                    Ok(())
                },
                Err(msg) => {
                    let ghost s3 = self.subst();
                    let e = self.unification_into_error(lhs, rhs, span, reason, msg);
                    proof {
                        lemma_same_meaning_trans(s2, s3, self.subst());
                        lemma_same_meaning_trans(s0, s2, self.subst());
                        lemma_same_meaning_refines(s0, self.subst());
                        lemma_keeps_settled_same_meaning(s0, self.subst(), lhs@, rhs@);
                    }
                    Err(e)
                },
            }
        } else {
            proof {
                assert(lv != rv);
            }
            let ghost m = *self;
            let res = self.unify_parts(lhs, rhs, lhs_r, rhs_r, span, reason);
            proof {
                assert(parts_post(m, *self, lv, rv, *span, reason, res));
            }
            proof {
                let sf = self.subst();
                lemma_refines_trans(s0, s2, sf);
                assert forall|ts: Seq<TypeV>| arrays_settled(s0, ts) && covers(s0, ts, lhs@) && covers(s0, ts, rhs@)
                    implies #[trigger] arrays_settled(sf, ts) by {
                    lemma_view_same_meaning(s0, s2, ts);
                    assert(arrays_settled(s2, ts) && covers(s2, ts, lhs@) && covers(s2, ts, rhs@));
                }
            }
            res
        }
    }

    /// Unifies two different resolved types, neither of them unknown, part
    /// by part.
    #[verifier::spinoff_prover]
    #[verifier::rlimit(50)]
    fn unify_parts(&mut self, lhs: Type, rhs: Type, lhs_r: Type, rhs_r: Type, span: &Span, reason: &'static str) -> (r: SemResult<()>)
        requires
            old(self).wf(),
            lhs_r@ == apply(old(self).subst(), lhs@),
            rhs_r@ == apply(old(self).subst(), rhs@),
            resolved(old(self).subst(), lhs_r@),
            resolved(old(self).subst(), rhs_r@),
            ids_below(lhs_r@, old(self).next_id()),
            ids_below(rhs_r@, old(self).next_id()),
            lhs_r@ != rhs_r@,
            !(lhs_r@ is Unknown),
            !(rhs_r@ is Unknown),
        ensures
            final(self).wf(),
            keeps_settled(old(self).subst(), final(self).subst(), lhs@, rhs@),
            final(self).next_id() == old(self).next_id(),
            final(self).same_nodes(old(self)),
            refines(old(self).subst(), final(self).subst()),
            r is Ok ==> apply(final(self).subst(), lhs@) == apply(final(self).subst(), rhs@),
            r matches Err(e) ==> inference_error(e, final(self).subst(), *span, reason) || unfinished_error(e, *span),
            !same_structure(lhs_r@, rhs_r@) ==> r is Err && error_message(r->Err_0) == couldnt_unify_message()
                && error_sides(r->Err_0, lhs@, rhs@),
            lhs_r@ is Tuple && rhs_r@ is Tuple && lhs_r@->Tuple_0.len() != rhs_r@->Tuple_0.len() ==> r is Err
                && error_message(r->Err_0) == tuple_sizes_message() && error_sides(r->Err_0, lhs@, rhs@),
            lhs_r@ is Array && rhs_r@ is Array && !dims_compatible(lhs_r@->Array_1, rhs_r@->Array_1) ==> r is Err
                && error_message(r->Err_0) == dims_message(lhs_r@->Array_1, rhs_r@->Array_1)
                && error_sides(r->Err_0, lhs@, rhs@),
            parts_post(*old(self), *final(self), lhs_r@, rhs_r@, *span, reason, r),
        decreases free_count(old(self).subst().bind), size(lhs_r@) + size(rhs_r@), 0nat,
    {
        let ghost s0 = self.subst();
        let ghost n = self.next_id();
        let ghost lv = lhs_r@;
        let ghost rv = rhs_r@;
        let ghost pr = pair_of(lhs@, rhs@);
        proof {
            self.lemma_wf();
            lemma_resolved_parts(s0, lv, n);
            lemma_resolved_parts(s0, rv, n);
            lemma_apply_id(s0, lv);
            lemma_apply_id(s0, rv);
            lemma_apply_idem(s0, lhs@);
            lemma_apply_idem(s0, rhs@);
            lemma_pair_covers(s0, lhs@, rhs@);
        }
        match (&lhs_r, &rhs_r) {
            (Type::Func { lhs: l1, rhs: r1 }, Type::Func { lhs: l2, rhs: r2 }) => {
                let a1 = (**l1).clone();
                let a2 = (**l2).clone();
                let b1 = (**r1).clone();
                let b2 = (**r2).clone();
                proof {
                    lemma_apply_id(s0, a1@);
                    lemma_apply_id(s0, a2@);
                    lemma_apply_id(s0, b1@);
                    lemma_apply_id(s0, b2@);
                    assert(lv == TypeV::Func(Box::new(a1@), Box::new(b1@)));
                    assert(rv == TypeV::Func(Box::new(a2@), Box::new(b2@)));
                    assert(is_part(a1@, a1@));
                    assert(is_part(a1@, lv));
                    assert(is_part(a2@, a2@));
                    assert(is_part(a2@, rv));
                    lemma_in_view_part(s0, pr, lv, a1@);
                    lemma_in_view_part(s0, pr, rv, a2@);
                    lemma_view_of_pair(s0, pr, a1@, a2@);
                }
                let ghost m0 = *self;
                let ghost (a1v, a2v, b1v, b2v) = (a1@, a2@, b1@, b2@);
                let res1 = self.unify(a1, a2, span, reason);
                proof {
                    assert(unify_post(m0, *self, a1v, a2v, *span, reason, res1));
                }
                match res1 {
                    Err(e) => {
                        proof {
                            let sf = self.subst();
                            assert forall|ts: Seq<TypeV>| arrays_settled(s0, ts) && covers(s0, ts, lhs@) && covers(s0, ts, rhs@)
                                implies #[trigger] arrays_settled(sf, ts) by {
                                lemma_in_view_part(s0, ts, lv, a1@);
                                lemma_in_view_part(s0, ts, rv, a2@);
                                assert(covers(s0, ts, a1@) && covers(s0, ts, a2@));
                            }
                        }
                        return Err(e);
                    },
                    Ok(()) => {},
                }
                let ghost s1 = self.subst();
                proof {
                    if free_count(s1.bind) == free_count(s0.bind) {
                        assert(apply(s1, b1@) == b1@);
                        assert(apply(s1, b2@) == b2@);
                    }
                    // the pair's view after the first part covers the second part
                    assert(covers(s0, pr, a1@) && covers(s0, pr, a2@)) by {
                        lemma_in_view_part(s0, pr, lv, a1@);
                        lemma_in_view_part(s0, pr, rv, a2@);
                    }
                    lemma_covers_refines(s0, s1, pr, lhs@);
                    lemma_covers_refines(s0, s1, pr, rhs@);
                    assert(apply(s1, lhs@) == apply(s1, lv));
                    assert(apply(s1, rhs@) == apply(s1, rv));
                    assert(apply(s1, lv) == TypeV::Func(Box::new(apply(s1, a1@)), Box::new(apply(s1, b1@))));
                    assert(apply(s1, rv) == TypeV::Func(Box::new(apply(s1, a2@)), Box::new(apply(s1, b2@))));
                    assert(is_part(apply(s1, b1@), apply(s1, b1@)));
                    assert(is_part(apply(s1, b1@), apply(s1, lv)));
                    assert(is_part(apply(s1, b2@), apply(s1, b2@)));
                    assert(is_part(apply(s1, b2@), apply(s1, rv)));
                    lemma_in_view_part(s1, pr, apply(s1, lhs@), apply(s1, b1@));
                    lemma_in_view_part(s1, pr, apply(s1, rhs@), apply(s1, b2@));
                    lemma_view_of_pair(s1, pr, b1@, b2@);
                }
                let ghost m1 = *self;
                let res = self.unify(b1, b2, span, reason);
                proof {
                    assert(unify_post(m0, m1, a1v, a2v, *span, reason, Ok(())));
                    assert(unify_post(m1, *self, b1v, b2v, *span, reason, res));
                    let s2 = self.subst();
                    lemma_refines_trans(s0, s1, s2);
                    if res is Ok {
                        assert(apply(s2, apply(s1, a1@)) == apply(s2, a1@));
                        assert(apply(s2, apply(s1, a2@)) == apply(s2, a2@));
                        assert(apply(s2, a1@) == apply(s2, a2@));
                        assert(apply(s2, lv) == apply(s2, rv));
                        assert(apply(s2, apply(s0, lhs@)) == apply(s2, lhs@));
                        assert(apply(s2, apply(s0, rhs@)) == apply(s2, rhs@));
                    }
                    assert forall|ts: Seq<TypeV>| arrays_settled(s0, ts) && covers(s0, ts, lhs@) && covers(s0, ts, rhs@)
                        implies #[trigger] arrays_settled(s2, ts) by {
                        lemma_in_view_part(s0, ts, lv, a1@);
                        lemma_in_view_part(s0, ts, rv, a2@);
                        assert(covers(s0, ts, a1@) && covers(s0, ts, a2@));
                        assert(arrays_settled(s1, ts));
                        lemma_covers_refines(s0, s1, ts, lhs@);
                        lemma_covers_refines(s0, s1, ts, rhs@);
                        lemma_in_view_part(s1, ts, apply(s1, lhs@), apply(s1, b1@));
                        lemma_in_view_part(s1, ts, apply(s1, rhs@), apply(s1, b2@));
                        assert(covers(s1, ts, b1@) && covers(s1, ts, b2@));
                    }
                }
                res
            },
            (Type::Ref(i1), Type::Ref(i2)) => {
                let a1 = (**i1).clone();
                let a2 = (**i2).clone();
                proof {
                    lemma_apply_id(s0, a1@);
                    lemma_apply_id(s0, a2@);
                    assert(is_part(a1@, a1@));
                    assert(is_part(a1@, lv));
                    assert(is_part(a2@, a2@));
                    assert(is_part(a2@, rv));
                    lemma_in_view_part(s0, pr, lv, a1@);
                    lemma_in_view_part(s0, pr, rv, a2@);
                    lemma_view_of_pair(s0, pr, a1@, a2@);
                }
                let ghost m0 = *self;
                let ghost (a1v, a2v) = (a1@, a2@);
                let res = self.unify(a1, a2, span, reason);
                proof {
                    assert(unify_post(m0, *self, a1v, a2v, *span, reason, res));
                    let s1 = self.subst();
                    if res is Ok {
                        assert(apply(s1, lv) == apply(s1, rv));
                        assert(apply(s1, apply(s0, lhs@)) == apply(s1, lhs@));
                        assert(apply(s1, apply(s0, rhs@)) == apply(s1, rhs@));
                    }
                    assert forall|ts: Seq<TypeV>| arrays_settled(s0, ts) && covers(s0, ts, lhs@) && covers(s0, ts, rhs@)
                        implies #[trigger] arrays_settled(s1, ts) by {
                        lemma_in_view_part(s0, ts, lv, a1@);
                        lemma_in_view_part(s0, ts, rv, a2@);
                        assert(covers(s0, ts, a1@) && covers(s0, ts, a2@));
                    }
                }
                res
            },
            (Type::Array { inner: n1, dim_cnt: d1 }, Type::Array { inner: n2, dim_cnt: d2 }) => {
                if !d1.are_compatible(d2) {
                    let mut msg = "Can't match dims ".to_owned();
                    let ds1 = dims_string(d1);
                    let ds2 = dims_string(d2);
                    crate::text::string_push_str(&mut msg, ds1.as_str());
                    crate::text::string_push_str(&mut msg, " with ");
                    crate::text::string_push_str(&mut msg, ds2.as_str());
                    proof {
                        assert(msg@ =~= dims_message(*d1, *d2));
                    }
                    let e = self.unification_into_error(lhs, rhs, span, reason, msg);
                    proof {
                        lemma_same_meaning_refines(s0, self.subst());
                        lemma_keeps_settled_same_meaning(s0, self.subst(), lhs@, rhs@);
                    }
                    return Err(e);
                }
                let a1 = (**n1).clone();
                let a2 = (**n2).clone();
                proof {
                    lemma_apply_id(s0, a1@);
                    lemma_apply_id(s0, a2@);
                    assert(lv == TypeV::Array(Box::new(a1@), *d1));
                    assert(rv == TypeV::Array(Box::new(a2@), *d2));
                }
                let ghost m0 = *self;
                let ghost (a1v, a2v) = (a1@, a2@);
                let res = self.unify(a1, a2, span, reason);
                proof {
                    assert(unify_post(m0, *self, a1v, a2v, *span, reason, res));
                    let sf = self.subst();
                    assert forall|ts: Seq<TypeV>| arrays_settled(s0, ts) && covers(s0, ts, lhs@) && covers(s0, ts, rhs@)
                        implies #[trigger] arrays_settled(sf, ts) by {
                        // two arrays in view with compatible dimension counts
                        // are the same type, and these are not
                        assert(in_view(s0, ts, lv));
                        assert(in_view(s0, ts, rv));
                    }
                }
                match res {
                    Err(e) => Err(e),
                    Ok(()) => Err(SemanticError::NotYetImplemented {
                        msg: "not yet implemented: choose the dim_cnt that is more specific".to_owned(),
                        span: span.clone(),
                    }),
                }
            },
            (Type::Tuple(ls), Type::Tuple(rs)) => {
                if ls.len() != rs.len() {
                    proof {
                        lemma_view_types(ls@);
                        lemma_view_types(rs@);
                    }
                    let e = self.unification_into_error(lhs, rhs, span, reason, "Tuple sizes don't match".to_owned());
                    proof {
                        lemma_same_meaning_refines(s0, self.subst());
                        lemma_keeps_settled_same_meaning(s0, self.subst(), lhs@, rhs@);
                    }
                    return Err(e);
                }
                let ghost lvs = view_types(ls@);
                let ghost rvs = view_types(rs@);
                proof {
                    lemma_view_types(ls@);
                    lemma_view_types(rs@);
                    lemma_size_seq(lvs);
                    lemma_size_seq(rvs);
                    lemma_same_meaning_refines(s0, s0);
                    lemma_keeps_settled_same_meaning(s0, s0, lhs@, rhs@);
                    assert forall|k: int| 0 <= k < lvs.len() implies apply(s0, #[trigger] lvs[k]) == lvs[k] by {
                        lemma_apply_id(s0, lvs[k]);
                    }
                    assert forall|k: int| 0 <= k < rvs.len() implies apply(s0, #[trigger] rvs[k]) == rvs[k] by {
                        lemma_apply_id(s0, rvs[k]);
                    }
                }
                let mut i: usize = 0;
                let ghost mut tms: Seq<TypeMap> = seq![*self];
                while i < ls.len()
                    invariant
                        parts_unified_in_order(tms, lvs, rvs, *span, reason, i as int),
                        tms[0] == *old(self),
                        tms[i as int] == *self,
                        self.wf(),
                        self.same_nodes(old(self)),
                        self.next_id() == n,
                        n == old(self).next_id(),
                        s0 == old(self).subst(),
                        wf(s0),
                        refines(s0, self.subst()),
                        keeps_settled(s0, self.subst(), lhs@, rhs@),
                        pr == pair_of(lhs@, rhs@),
                        covers(s0, pr, lhs@),
                        covers(s0, pr, rhs@),
                        lv == lhs_r@,
                        rv == rhs_r@,
                        lv == apply(s0, lhs@),
                        rv == apply(s0, rhs@),
                        lv == TypeV::Tuple(lvs),
                        rv == TypeV::Tuple(rvs),
                        lvs == view_types(ls@),
                        rvs == view_types(rs@),
                        ls.len() == rs.len(),
                        lvs.len() == ls.len(),
                        rvs.len() == rs.len(),
                        forall|k: int| 0 <= k < ls.len() ==> #[trigger] lvs[k] == view_type(ls@[k]),
                        forall|k: int| 0 <= k < rs.len() ==> #[trigger] rvs[k] == view_type(rs@[k]),
                        forall|k: int| 0 <= k < lvs.len() ==> resolved(s0, #[trigger] lvs[k]) && ids_below(lvs[k], n)
                            && size(lvs[k]) <= size_seq(lvs) && apply(s0, lvs[k]) == lvs[k],
                        forall|k: int| 0 <= k < rvs.len() ==> resolved(s0, #[trigger] rvs[k]) && ids_below(rvs[k], n)
                            && size(rvs[k]) <= size_seq(rvs) && apply(s0, rvs[k]) == rvs[k],
                        i <= ls.len(),
                        forall|k: int| 0 <= k < i ==> #[trigger] apply(self.subst(), lvs[k]) == apply(self.subst(), rvs[k]),
                    decreases ls.len() - i,
                {
                    let a = ls[i].clone();
                    let b = rs[i].clone();
                    let ghost si = self.subst();
                    proof {
                        assert(a@ == lvs[i as int]);
                        assert(b@ == rvs[i as int]);
                        if free_count(si.bind) == free_count(s0.bind) {
                            assert(apply(si, a@) == a@);
                            assert(apply(si, b@) == b@);
                        }
                        // each part of the tuples is covered by the pair's view
                        assert forall|ts: Seq<TypeV>| covers(si, ts, lhs@) && covers(si, ts, rhs@)
                            implies #[trigger] covers(si, ts, a@) && covers(si, ts, b@) by {
                            lemma_apply_seq(si, lvs);
                            lemma_apply_seq(si, rvs);
                            assert(apply(si, lhs@) == apply(si, lv));
                            assert(apply(si, rhs@) == apply(si, rv));
                            let ol = apply_seq(si, lvs);
                            let or = apply_seq(si, rvs);
                            assert(is_part(ol[i as int], ol[i as int]));
                            assert(is_part(or[i as int], or[i as int]));
                            lemma_is_part_seq(ol[i as int], ol);
                            lemma_is_part_seq(or[i as int], or);
                            assert(is_part(apply(si, a@), apply(si, lv)));
                            assert(is_part(apply(si, b@), apply(si, rv)));
                            lemma_in_view_part(si, ts, apply(si, lhs@), apply(si, a@));
                            lemma_in_view_part(si, ts, apply(si, rhs@), apply(si, b@));
                        }
                        lemma_covers_refines(s0, si, pr, lhs@);
                        lemma_covers_refines(s0, si, pr, rhs@);
                        assert(covers(si, pr, lhs@) && covers(si, pr, rhs@));
                        assert(covers(si, pr, a@) && covers(si, pr, b@)) by {
                            lemma_apply_seq(si, lvs);
                            lemma_apply_seq(si, rvs);
                            assert(apply(si, lhs@) == apply(si, lv));
                            assert(apply(si, rhs@) == apply(si, rv));
                            let ol = apply_seq(si, lvs);
                            let or = apply_seq(si, rvs);
                            assert(is_part(ol[i as int], ol[i as int]));
                            assert(is_part(or[i as int], or[i as int]));
                            lemma_is_part_seq(ol[i as int], ol);
                            lemma_is_part_seq(or[i as int], or);
                            assert(is_part(apply(si, a@), apply(si, lv)));
                            assert(is_part(apply(si, b@), apply(si, rv)));
                            lemma_in_view_part(si, pr, apply(si, lhs@), apply(si, a@));
                            lemma_in_view_part(si, pr, apply(si, rhs@), apply(si, b@));
                        }
                        lemma_view_of_pair(si, pr, a@, b@);
                    }
                    let ghost before = *self;
                    let ghost (av, bv) = (a@, b@);
                    let res_i = self.unify(a, b, span, reason);
                    proof {
                        assert(unify_post(before, *self, av, bv, *span, reason, res_i));
                    }
                    match res_i {
                        Err(e) => {
                            proof {
                                let sf = self.subst();
                                lemma_refines_trans(s0, si, sf);
                                assert forall|ts: Seq<TypeV>| arrays_settled(s0, ts) && covers(s0, ts, lhs@) && covers(s0, ts, rhs@)
                                    implies #[trigger] arrays_settled(sf, ts) by {
                                    assert(arrays_settled(si, ts));
                                    lemma_covers_refines(s0, si, ts, lhs@);
                                    lemma_covers_refines(s0, si, ts, rhs@);
                                    assert(covers(si, ts, av) && covers(si, ts, bv)) by {
                                        lemma_apply_seq(si, lvs);
                                        lemma_apply_seq(si, rvs);
                                        assert(apply(si, lhs@) == apply(si, lv));
                                        assert(apply(si, rhs@) == apply(si, rv));
                                        let ol = apply_seq(si, lvs);
                                        let or = apply_seq(si, rvs);
                                        assert(is_part(ol[i as int], ol[i as int]));
                                        assert(is_part(or[i as int], or[i as int]));
                                        lemma_is_part_seq(ol[i as int], ol);
                                        lemma_is_part_seq(or[i as int], or);
                                        assert(is_part(apply(si, av), apply(si, lv)));
                                        assert(is_part(apply(si, bv), apply(si, rv)));
                                        lemma_in_view_part(si, ts, apply(si, lhs@), apply(si, av));
                                        lemma_in_view_part(si, ts, apply(si, rhs@), apply(si, bv));
                                    }
                                }
                            }
                            return Err(e);
                        },
                        Ok(()) => {},
                    }
                    proof {
                        let t2 = tms.push(*self);
                        assert forall|j: int| 0 <= j < i + 1 implies #[trigger] unify_post(t2[j], t2[j + 1], lvs[j], rvs[j], *span, reason, Ok(())) by {
                            if j < i {
                                assert(t2[j] == tms[j] && t2[j + 1] == tms[j + 1]);
                                assert(unify_post(tms[j], tms[j + 1], lvs[j], rvs[j], *span, reason, Ok(())));
                            }
                        }
                        tms = t2;
                    }
                    proof {
                        let sn = self.subst();
                        lemma_refines_trans(s0, si, sn);
                        assert forall|k: int| 0 <= k < i + 1 implies #[trigger] apply(sn, lvs[k]) == apply(sn, rvs[k]) by {
                            if k < i {
                                assert(apply(sn, apply(si, lvs[k])) == apply(sn, lvs[k]));
                                assert(apply(sn, apply(si, rvs[k])) == apply(sn, rvs[k]));
                            }
                        }
                        assert forall|ts: Seq<TypeV>| arrays_settled(s0, ts) && covers(s0, ts, lhs@) && covers(s0, ts, rhs@)
                            implies #[trigger] arrays_settled(sn, ts) by {
                            assert(arrays_settled(si, ts));
                            lemma_covers_refines(s0, si, ts, lhs@);
                            lemma_covers_refines(s0, si, ts, rhs@);
                            assert(covers(si, ts, av) && covers(si, ts, bv)) by {
                                        lemma_apply_seq(si, lvs);
                                        lemma_apply_seq(si, rvs);
                                        assert(apply(si, lhs@) == apply(si, lv));
                                        assert(apply(si, rhs@) == apply(si, rv));
                                        let ol = apply_seq(si, lvs);
                                        let or = apply_seq(si, rvs);
                                        assert(is_part(ol[i as int], ol[i as int]));
                                        assert(is_part(or[i as int], or[i as int]));
                                        lemma_is_part_seq(ol[i as int], ol);
                                        lemma_is_part_seq(or[i as int], or);
                                        assert(is_part(apply(si, av), apply(si, lv)));
                                        assert(is_part(apply(si, bv), apply(si, rv)));
                                        lemma_in_view_part(si, ts, apply(si, lhs@), apply(si, av));
                                        lemma_in_view_part(si, ts, apply(si, rhs@), apply(si, bv));
                            }
                        }
                    }
                    i += 1;
                }
                proof {
                    let sf = self.subst();
                    lemma_apply_seq(sf, lvs);
                    lemma_apply_seq(sf, rvs);
                    assert(apply_seq(sf, lvs) =~= apply_seq(sf, rvs));
                    assert(apply(sf, lv) == apply(sf, rv));
                    assert(apply(sf, apply(s0, lhs@)) == apply(sf, lhs@));
                    assert(apply(sf, apply(s0, rhs@)) == apply(sf, rhs@));
                }
                Ok(())
            },
            _ => {
                let e = self.unification_into_error(lhs, rhs, span, reason, "Couldn't unify".to_owned());
                proof {
                    lemma_same_meaning_refines(s0, self.subst());
                    lemma_keeps_settled_same_meaning(s0, self.subst(), lhs@, rhs@);
                }
                Err(e)
            },
        }
    }
}

/// How a dimension count reads: the count, or `>=` and the bound.
pub open spec fn dims_text(d: ArrayDims) -> Seq<char> {
    match d {
        ArrayDims::Known(k) => crate::text::decimal(k as nat),
        ArrayDims::LowerBounded(k) => ">="@ + crate::text::decimal(k as nat),
    }
}

/// How a dimension count reads: the count, or `>=` and the bound.
pub fn dims_string(d: &ArrayDims) -> (r: String)
    ensures
        r@ == dims_text(*d),
{
    match d {
        ArrayDims::Known(k) => decimal_string(*k),
        ArrayDims::LowerBounded(k) => {
            let mut s = ">=".to_owned();
            let digits = decimal_string(*k);
            crate::text::string_push_str(&mut s, digits.as_str());
            s
        },
    }
}

/// Two types that must turn out the same, why, and where.
#[derive(Debug)]
pub struct Unification {
    pub lhs: Type,
    pub rhs: Type,
    pub span: Span,
    pub msg: &'static str,
}

/// The unifications that are solved together.
#[derive(Debug)]
pub struct InferenceGroup(Vec<Unification>);

impl InferenceGroup {
    pub closed spec fn items(&self) -> Seq<Unification> {
        self.0@
    }

    pub fn new() -> (r: Self)
        ensures
            r.items().len() == 0,
    {
        InferenceGroup(Vec::new())
    }

    /// Adds the unification of `lhs` and `rhs`, for reason `msg`, at `span`.
    pub fn insert_unification(&mut self, lhs: Type, rhs: Type, msg: &'static str, span: &Span)
        ensures
            final(self).items() == old(self).items().push(Unification { lhs, rhs, span: *span, msg }),
    {
        self.0.push(Unification { lhs, rhs, span: span.clone(), msg });
    }
}

/// What `unify` promises of one call: from the map `a`, unifying `lhs` and
/// `rhs` gave the map `b` and the result `r`.
pub open spec fn unify_post(a: TypeMap, b: TypeMap, lhs: TypeV, rhs: TypeV, span: Span, reason: &str, r: SemResult<()>) -> bool {
    let s = a.subst();
    let cs = a.constraints_view();
    let l = apply(s, lhs);
    let rr = apply(s, rhs);
    &&& b.wf()
    &&& b.next_id() == a.next_id()
    &&& refines(s, b.subst())
    &&& (r is Ok ==> apply(b.subst(), lhs) == apply(b.subst(), rhs))
    &&& (r matches Err(e) ==> inference_error(e, b.subst(), span, reason) || unfinished_error(e, span))
    &&& (l == rr ==> r is Ok && same_meaning(s, b.subst()))
    &&& (l != rr && l is Unknown ==> (r is Ok <==> satisfies(cs[l->Unknown_0 as int], kind_of(rr)) && !occurs(l->Unknown_0, rr)))
    &&& (l != rr && !(l is Unknown) && rr is Unknown ==> (r is Ok <==> satisfies(cs[rr->Unknown_0 as int], kind_of(l)) && !occurs(rr->Unknown_0, l)))
    &&& (l != rr && (l is Unknown || rr is Unknown) && r is Err ==> {
        &&& same_meaning(s, b.subst())
        &&& b.constraints_view() == cs
        &&& error_sides(r->Err_0, lhs, rhs)
    })
    &&& (l != rr && (l is Unknown || rr is Unknown) && r is Err ==> error_message(r->Err_0) == (
        if l is Unknown {
            if !satisfies(cs[l->Unknown_0 as int], kind_of(rr)) { constraints_message() } else { occurs_message() }
        } else {
            if !satisfies(cs[rr->Unknown_0 as int], kind_of(l)) { constraints_message() } else { occurs_message() }
        }))
    &&& (l != rr && !(l is Unknown) && !(rr is Unknown) && !same_structure(l, rr) ==> r is Err && error_message(r->Err_0) == couldnt_unify_message()
        && error_sides(r->Err_0, lhs, rhs))
    &&& (l is Tuple && rr is Tuple && l->Tuple_0.len() != rr->Tuple_0.len() ==> r is Err && error_message(r->Err_0) == tuple_sizes_message()
        && error_sides(r->Err_0, lhs, rhs))
    &&& (l is Array && rr is Array && !dims_compatible(l->Array_1, rr->Array_1) ==> r is Err && error_message(r->Err_0) == dims_message(l->Array_1, rr->Array_1)
        && error_sides(r->Err_0, lhs, rhs))
}

/// The maps `tms` come from unifying the first `k` pairs of parts `ls[j]`
/// and `rs[j]` in order, each with success, starting from `tms[0]`.
pub open spec fn parts_unified_in_order(tms: Seq<TypeMap>, ls: Seq<TypeV>, rs: Seq<TypeV>, span: Span, reason: &str, k: int) -> bool {
    &&& 0 <= k <= ls.len()
    &&& tms.len() == k + 1
    &&& forall|j: int| 0 <= j < k ==> #[trigger] unify_post(tms[j], tms[j + 1], ls[j], rs[j], span, reason, Ok(()))
}

/// How unifying two resolved types of the same shape goes, part by part:
/// the parts of two functions, left then right, stopping at a failure; the
/// insides of two references; the elements of two tuples of one size, in
/// order, stopping at the first failure; the element types of two arrays of
/// compatible dimension counts, after which, where those unify, the case is
/// reported as not implemented yet.
pub open spec fn parts_post(a: TypeMap, b: TypeMap, l: TypeV, rr: TypeV, span: Span, reason: &str, r: SemResult<()>) -> bool {
    match (l, rr) {
        (TypeV::Func(l1, r1), TypeV::Func(l2, r2)) => {
            ||| r is Err && unify_post(a, b, *l1, *l2, span, reason, r)
            ||| exists|m: TypeMap| #[trigger] unify_post(a, m, *l1, *l2, span, reason, Ok(())) && unify_post(m, b, *r1, *r2, span, reason, r)
        },
        (TypeV::Ref(i1), TypeV::Ref(i2)) => unify_post(a, b, *i1, *i2, span, reason, r),
        (TypeV::Array(i1, d1), TypeV::Array(i2, d2)) => !dims_compatible(d1, d2) || {
            ||| r is Err && unify_post(a, b, *i1, *i2, span, reason, r)
            ||| r is Err && unfinished_error(r->Err_0, span) && unify_post(a, b, *i1, *i2, span, reason, Ok(()))
        },
        (TypeV::Tuple(ls), TypeV::Tuple(rs)) => ls.len() != rs.len() || exists|tms: Seq<TypeMap>, k: int| {
            &&& #[trigger] parts_unified_in_order(tms, ls, rs, span, reason, k)
            &&& tms[0] == a
            &&& (r is Ok ==> k == ls.len() && tms[k] == b)
            &&& (r is Err ==> k < ls.len() && unify_post(tms[k], b, ls[k], rs[k], span, reason, r))
        },
        _ => true,
    }
}

/// The maps `tms` come from unifying the first `k` pairs of `items` in order,
/// each with success, starting from `tms[0]`.
pub open spec fn unified_in_order(tms: Seq<TypeMap>, items: Seq<Unification>, k: int) -> bool {
    &&& 0 <= k <= items.len()
    &&& tms.len() == k + 1
    &&& forall|j: int| 0 <= j < k ==> #[trigger] unify_post(tms[j], tms[j + 1], items[j].lhs@, items[j].rhs@, items[j].span, items[j].msg, Ok(()))
}

/// What solving the group `items` from map `a` gives, map `b` and result
/// `r`: the pairs are unified in order, up to the first that fails.
pub open spec fn solve_post(a: TypeMap, items: Seq<Unification>, b: TypeMap, r: SemResult<()>) -> bool {
    &&& b.wf()
    &&& b.next_id() == a.next_id()
    &&& b.same_nodes(&a)
    &&& refines(a.subst(), b.subst())
    &&& (r is Ok ==> forall|i: int| 0 <= i < items.len() ==>
        apply(b.subst(), (#[trigger] items[i]).lhs@) == apply(b.subst(), items[i].rhs@))
    &&& (r matches Err(e) ==> exists|i: int| 0 <= i < items.len()
        && (inference_error(e, b.subst(), (#[trigger] items[i]).span, items[i].msg) || unfinished_error(e, items[i].span))
        && forall|j: int| 0 <= j < i ==> apply(b.subst(), (#[trigger] items[j]).lhs@) == apply(b.subst(), items[j].rhs@))
    &&& exists|tms: Seq<TypeMap>, k: int| {
        &&& #[trigger] unified_in_order(tms, items, k)
        &&& tms[0] == a
        &&& (r is Ok ==> k == items.len() && tms[k] == b)
        &&& (r is Err ==> k < items.len() && unify_post(tms[k], b, items[k].lhs@, items[k].rhs@, items[k].span, items[k].msg, r))
    }
}

/// Solves groups of unifications.
pub trait Inferer {
    /// Whether the group can be handed to `solve_group`.
    spec fn can_solve(&self, group: &InferenceGroup) -> bool;

    fn solve_group(&mut self, group: InferenceGroup) -> (r: SemResult<()>)
        requires
            old(self).can_solve(&group),
    ;
}

/// The unifications of the group only name unknown types below `n`.
pub open spec fn group_ok(items: Seq<Unification>, n: nat) -> bool {
    forall|i: int| 0 <= i < items.len() ==> {
        &&& ids_below(#[trigger] items[i].lhs@, n)
        &&& ids_below(items[i].rhs@, n)
    }
}

impl Inferer for TypeMap {
    open spec fn can_solve(&self, group: &InferenceGroup) -> bool {
        &&& self.wf()
        &&& group_ok(group.items(), self.next_id())
    }

    /// Unifies the group's pairs in order, and stops at the first that fails.
    fn solve_group(&mut self, group: InferenceGroup) -> (r: SemResult<()>)
        ensures
            final(self).wf(),
            final(self).next_id() == old(self).next_id(),
            final(self).same_nodes(old(self)),
            refines(old(self).subst(), final(self).subst()),
            r is Ok ==> forall|i: int| 0 <= i < group.items().len() ==>
                apply(final(self).subst(), (#[trigger] group.items()[i]).lhs@) == apply(final(self).subst(), group.items()[i].rhs@),
            r matches Err(e) ==> exists|i: int| 0 <= i < group.items().len()
                && (inference_error(e, final(self).subst(), (#[trigger] group.items()[i]).span, group.items()[i].msg)
                    || unfinished_error(e, group.items()[i].span))
                && forall|j: int| 0 <= j < i ==> apply(final(self).subst(), (#[trigger] group.items()[j]).lhs@)
                    == apply(final(self).subst(), group.items()[j].rhs@),
            exists|tms: Seq<TypeMap>, k: int| {
                &&& #[trigger] unified_in_order(tms, group.items(), k)
                &&& tms[0] == *old(self)
                &&& (r is Ok ==> k == group.items().len() && tms[k] == *final(self))
                &&& (r is Err ==> k < group.items().len() && unify_post(tms[k], *final(self), group.items()[k].lhs@,
                    group.items()[k].rhs@, group.items()[k].span, group.items()[k].msg, r))
            },
    {
        let ghost s0 = self.subst();
        let ghost items = group.items();
        let ghost n = self.next_id();
        proof {
            self.lemma_wf();
            super::subst::lemma_same_meaning_refines(s0, s0);
        }
        let mut i: usize = 0;
        let ghost mut tms: Seq<TypeMap> = seq![*self];
        while i < group.0.len()
            invariant
                unified_in_order(tms, items, i as int),
                tms[0] == *old(self),
                tms[i as int] == *self,
                self.wf(),
                self.same_nodes(old(self)),
                self.next_id() == n,
                n == old(self).next_id(),
                s0 == old(self).subst(),
                refines(s0, self.subst()),
                items == group.items(),
                group_ok(items, n),
                i <= items.len(),
                forall|j: int| 0 <= j < i ==> apply(self.subst(), (#[trigger] items[j]).lhs@) == apply(self.subst(), items[j].rhs@),
            decreases items.len() - i,
        {
            let u = &group.0[i];
            let ghost si = self.subst();
            let ghost before = *self;
            proof {
                assert(items[i as int] == *u);
            }
            let res = self.unify(u.lhs.clone(), u.rhs.clone(), &u.span, u.msg);
            let ghost sn = self.subst();
            proof {
                lemma_refines_trans(s0, si, sn);
                assert forall|j: int| 0 <= j < i implies apply(sn, (#[trigger] items[j]).lhs@) == apply(sn, items[j].rhs@) by {
                    assert(apply(sn, apply(si, items[j].lhs@)) == apply(sn, items[j].lhs@));
                    assert(apply(sn, apply(si, items[j].rhs@)) == apply(sn, items[j].rhs@));
                }
            }
            proof {
                assert(unify_post(before, *self, u.lhs@, u.rhs@, u.span, u.msg, res));
            }
            match res {
                Err(e) => {
                    proof {
                        assert(inference_error(e, sn, items[i as int].span, items[i as int].msg) || unfinished_error(e, items[i as int].span));
                        assert(unified_in_order(tms, items, i as int));
                    }
                    return Err(e);
                },
                Ok(()) => {},
            }
            proof {
                let t2 = tms.push(*self);
                assert forall|j: int| 0 <= j < i + 1 implies #[trigger] unify_post(t2[j], t2[j + 1], items[j].lhs@, items[j].rhs@, items[j].span, items[j].msg, Ok(())) by {
                    if j < i {
                        assert(t2[j] == tms[j] && t2[j + 1] == tms[j + 1]);
                        assert(unify_post(tms[j], tms[j + 1], items[j].lhs@, items[j].rhs@, items[j].span, items[j].msg, Ok(())));
                    }
                }
                tms = t2;
            }
            i += 1;
        }
        proof {
            assert(unified_in_order(tms, items, i as int));
        }
        Ok(())
    }
}


/// The unifications `b` begin with those of `a`: the analysis only ever
/// adds unifications after those it was given.
pub open spec fn extends(a: Seq<Unification>, b: Seq<Unification>) -> bool {
    a.len() <= b.len() && a == b.take(a.len() as int)
}

pub broadcast proof fn lemma_extends_trans(a: Seq<Unification>, b: Seq<Unification>, c: Seq<Unification>)
    requires
        #[trigger] extends(a, b),
        #[trigger] extends(b, c),
    ensures
        extends(a, c),
{
    assert(a =~= c.take(a.len() as int));
}

pub broadcast proof fn lemma_extends_refl(a: Seq<Unification>)
    ensures
        #[trigger] extends(a, a),
{
    assert(a =~= a.take(a.len() as int));
}

pub broadcast proof fn lemma_extends_push(a: Seq<Unification>, u: Unification)
    ensures
        extends(a, #[trigger] a.push(u)),
{
    assert(a =~= a.push(u).take(a.len() as int));
}


} // verus!
