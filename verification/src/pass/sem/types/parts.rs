use vstd::prelude::*;
use super::TypeV;
use super::inference::dims_compatible;
use super::subst::{
    refines, same_meaning, Subst, wf, bound, binding, occurs, occurs_seq, apply, apply_seq, rank, rank_seq, resolved, bind_to,
    lemma_apply_seq, lemma_rank_seq, lemma_rank_step, lemma_occurs_seq, lemma_bind_to, lemma_apply_id,
    ids_below,
};

verus! {

/// Whether `a` is `t` or one of its parts.
pub open spec fn is_part(a: TypeV, t: TypeV) -> bool
    decreases t,
{
    a == t || match t {
        TypeV::Func(l, r) => is_part(a, *l) || is_part(a, *r),
        TypeV::Ref(i) => is_part(a, *i),
        TypeV::Array(i, _) => is_part(a, *i),
        TypeV::Tuple(ts) => is_part_seq(a, ts),
        _ => false,
    }
}

pub open spec fn is_part_seq(a: TypeV, ts: Seq<TypeV>) -> bool
    decreases ts,
{
    if ts.len() == 0 {
        false
    } else {
        proof {
            assert(decreases_to!(ts => ts.subrange(0, ts.len() - 1)));
        }
        is_part_seq(a, ts.drop_last()) || is_part(a, ts[ts.len() - 1])
    }
}

pub proof fn lemma_is_part_seq(a: TypeV, ts: Seq<TypeV>)
    ensures
        is_part_seq(a, ts) <==> exists|i: int| 0 <= i < ts.len() && #[trigger] is_part(a, ts[i]),
    decreases ts.len(),
{
    if ts.len() > 0 {
        let p = ts.drop_last();
        lemma_is_part_seq(a, p);
        if is_part_seq(a, p) {
            let i = choose|i: int| 0 <= i < p.len() && #[trigger] is_part(a, p[i]);
            assert(ts[i] == p[i]);
            assert(is_part(a, ts[i]));
        }
        if is_part(a, ts[ts.len() - 1]) {
            assert(is_part(a, ts[ts.len() - 1]));
        }
        if exists|i: int| 0 <= i < ts.len() && #[trigger] is_part(a, ts[i]) {
            let i = choose|i: int| 0 <= i < ts.len() && #[trigger] is_part(a, ts[i]);
            if i < ts.len() - 1 {
                assert(p[i] == ts[i]);
                assert(is_part(a, p[i]));
            }
        }
    }
}

/// A part of a part is a part.
pub proof fn lemma_is_part_trans(a: TypeV, b: TypeV, t: TypeV)
    requires
        is_part(a, b),
        is_part(b, t),
    ensures
        is_part(a, t),
    decreases t,
{
    if b != t {
        match t {
            TypeV::Func(l, r) => {
                if is_part(b, *l) {
                    lemma_is_part_trans(a, b, *l);
                } else {
                    lemma_is_part_trans(a, b, *r);
                }
            },
            TypeV::Ref(i) => {
                lemma_is_part_trans(a, b, *i);
            },
            TypeV::Array(i, _) => {
                lemma_is_part_trans(a, b, *i);
            },
            TypeV::Tuple(ts) => {
                lemma_is_part_seq(b, ts);
                let i = choose|i: int| 0 <= i < ts.len() && #[trigger] is_part(b, ts[i]);
                assert(decreases_to!(t => ts));
                assert(decreases_to!(ts => ts[i]));
                assert(decreases_to!(t => ts[i]));
                lemma_is_part_trans(a, b, ts[i]);
                lemma_is_part_seq(a, ts);
            },
            _ => {},
        }
    }
}

/// An unknown type occurs in a part only if it occurs in the whole.
pub proof fn lemma_occurs_part(u: u32, a: TypeV, t: TypeV)
    requires
        is_part(a, t),
        occurs(u, a),
    ensures
        occurs(u, t),
    decreases t,
{
    if a != t {
        match t {
            TypeV::Func(l, r) => {
                if is_part(a, *l) {
                    lemma_occurs_part(u, a, *l);
                } else {
                    lemma_occurs_part(u, a, *r);
                }
            },
            TypeV::Ref(i) => {
                lemma_occurs_part(u, a, *i);
            },
            TypeV::Array(i, _) => {
                lemma_occurs_part(u, a, *i);
            },
            TypeV::Tuple(ts) => {
                lemma_is_part_seq(a, ts);
                let i = choose|i: int| 0 <= i < ts.len() && #[trigger] is_part(a, ts[i]);
                assert(decreases_to!(t => ts));
                assert(decreases_to!(ts => ts[i]));
                assert(decreases_to!(t => ts[i]));
                lemma_occurs_part(u, a, ts[i]);
                lemma_occurs_seq(u, ts);
            },
            _ => {},
        }
    }
}

/// `t` with the unknown type `a` replaced by `r`.
pub open spec fn subst1(t: TypeV, a: u32, r: TypeV) -> TypeV
    decreases t,
{
    match t {
        TypeV::Unknown(x) => if x == a { r } else { t },
        TypeV::Func(l, rr) => TypeV::Func(Box::new(subst1(*l, a, r)), Box::new(subst1(*rr, a, r))),
        TypeV::Ref(i) => TypeV::Ref(Box::new(subst1(*i, a, r))),
        TypeV::Array(i, d) => TypeV::Array(Box::new(subst1(*i, a, r)), d),
        TypeV::Tuple(ts) => TypeV::Tuple(subst1_seq(ts, a, r)),
        _ => t,
    }
}

pub open spec fn subst1_seq(ts: Seq<TypeV>, a: u32, r: TypeV) -> Seq<TypeV>
    decreases ts,
{
    if ts.len() == 0 {
        Seq::empty()
    } else {
        proof {
            assert(decreases_to!(ts => ts.subrange(0, ts.len() - 1)));
        }
        subst1_seq(ts.drop_last(), a, r).push(subst1(ts[ts.len() - 1], a, r))
    }
}

pub proof fn lemma_subst1_seq(ts: Seq<TypeV>, a: u32, r: TypeV)
    ensures
        subst1_seq(ts, a, r).len() == ts.len(),
        forall|i: int| 0 <= i < ts.len() ==> #[trigger] subst1_seq(ts, a, r)[i] == subst1(ts[i], a, r),
    decreases ts.len(),
{
    if ts.len() > 0 {
        lemma_subst1_seq(ts.drop_last(), a, r);
        assert forall|i: int| 0 <= i < ts.len() implies #[trigger] subst1_seq(ts, a, r)[i] == subst1(ts[i], a, r) by {
            if i < ts.len() - 1 {
                assert(ts.drop_last()[i] == ts[i]);
            }
        }
    }
}

/// Replacing an unknown type that does not occur changes nothing.
pub proof fn lemma_subst1_absent(t: TypeV, a: u32, r: TypeV)
    requires
        !occurs(a, t),
    ensures
        subst1(t, a, r) == t,
    decreases t,
{
    match t {
        TypeV::Func(l, rr) => {
            lemma_subst1_absent(*l, a, r);
            lemma_subst1_absent(*rr, a, r);
        },
        TypeV::Ref(i) => {
            lemma_subst1_absent(*i, a, r);
        },
        TypeV::Array(i, _) => {
            lemma_subst1_absent(*i, a, r);
        },
        TypeV::Tuple(ts) => {
            lemma_subst1_seq(ts, a, r);
            lemma_occurs_seq(a, ts);
            assert forall|i: int| 0 <= i < ts.len() implies #[trigger] subst1_seq(ts, a, r)[i] == ts[i] by {
                assert(decreases_to!(t => ts));
                assert(decreases_to!(ts => ts[i]));
                assert(decreases_to!(t => ts[i]));
                lemma_subst1_absent(ts[i], a, r);
            }
            assert(subst1_seq(ts, a, r) =~= ts);
        },
        _ => {},
    }
}

/// The parts of `t` with `a` replaced by `r`: the parts of `t` (other than
/// `a` itself) with `a` replaced, and the parts of `r`.
pub proof fn lemma_parts_of_subst1(p: TypeV, t: TypeV, a: u32, r: TypeV)
    requires
        is_part(p, subst1(t, a, r)),
    ensures
        is_part(p, r) || exists|q: TypeV| #[trigger] is_part(q, t) && q != TypeV::Unknown(a) && p == subst1(q, a, r),
    decreases t,
{
    if p == subst1(t, a, r) && t != TypeV::Unknown(a) {
        assert(is_part(t, t));
    } else {
        match t {
            TypeV::Unknown(x) => {},
            TypeV::Func(l, rr) => {
                if is_part(p, subst1(*l, a, r)) {
                    lemma_parts_of_subst1(p, *l, a, r);
                    if !is_part(p, r) {
                        let q = choose|q: TypeV| #[trigger] is_part(q, *l) && q != TypeV::Unknown(a) && p == subst1(q, a, r);
                        assert(is_part(*l, *l));
                        assert(is_part(*l, t));
                        lemma_is_part_trans(q, *l, t);
                    }
                } else {
                    lemma_parts_of_subst1(p, *rr, a, r);
                    if !is_part(p, r) {
                        let q = choose|q: TypeV| #[trigger] is_part(q, *rr) && q != TypeV::Unknown(a) && p == subst1(q, a, r);
                        assert(is_part(*rr, *rr));
                        assert(is_part(*rr, t));
                        lemma_is_part_trans(q, *rr, t);
                    }
                }
            },
            TypeV::Ref(i) => {
                lemma_parts_of_subst1(p, *i, a, r);
                if !is_part(p, r) {
                    let q = choose|q: TypeV| #[trigger] is_part(q, *i) && q != TypeV::Unknown(a) && p == subst1(q, a, r);
                    assert(is_part(*i, *i));
                    assert(is_part(*i, t));
                    lemma_is_part_trans(q, *i, t);
                }
            },
            TypeV::Array(i, _) => {
                lemma_parts_of_subst1(p, *i, a, r);
                if !is_part(p, r) {
                    let q = choose|q: TypeV| #[trigger] is_part(q, *i) && q != TypeV::Unknown(a) && p == subst1(q, a, r);
                    assert(is_part(*i, *i));
                    assert(is_part(*i, t));
                    lemma_is_part_trans(q, *i, t);
                }
            },
            TypeV::Tuple(ts) => {
                lemma_subst1_seq(ts, a, r);
                lemma_is_part_seq(p, subst1_seq(ts, a, r));
                let i = choose|i: int| 0 <= i < ts.len() && #[trigger] is_part(p, subst1_seq(ts, a, r)[i]);
                assert(decreases_to!(t => ts));
                assert(decreases_to!(ts => ts[i]));
                assert(decreases_to!(t => ts[i]));
                lemma_parts_of_subst1(p, ts[i], a, r);
                if !is_part(p, r) {
                    let q = choose|q: TypeV| #[trigger] is_part(q, ts[i]) && q != TypeV::Unknown(a) && p == subst1(q, a, r);
                    lemma_is_part_seq(ts[i], ts);
                    assert(is_part(ts[i], ts[i]));
                    assert(is_part_seq(ts[i], ts));
                    assert(is_part(ts[i], t));
                    lemma_is_part_trans(q, ts[i], t);
                }
            },
            _ => {},
        }
    }
}

/// After binding `a` to `r`, the bindings give what they gave before, with
/// `a` replaced by `r`.
pub proof fn lemma_apply_bind_to(s: Subst, a: u32, r: TypeV, t: TypeV)
    requires
        wf(s),
        a < s.bind.len(),
        !bound(s, a),
        resolved(s, r),
        ids_below(r, s.bind.len()),
        !occurs(a, r),
    ensures
        apply(bind_to(s, a, r), t) == subst1(apply(s, t), a, r),
    decreases rank(s, t), t,
{
    let s2 = bind_to(s, a, r);
    lemma_bind_to(s, a, r);
    match t {
        TypeV::Unknown(x) => {
            if x == a {
                lemma_rank_step(s2, a);
                assert(resolved(s2, r)) by {
                    assert forall|u: u32| #[trigger] occurs(u, r) implies !bound(s2, u) by {}
                }
                lemma_apply_id(s2, r);
            } else if bound(s, x) {
                lemma_rank_step(s, x);
                lemma_rank_step(s2, x);
                lemma_apply_bind_to(s, a, r, binding(s, x));
            }
        },
        TypeV::Func(l, rr) => {
            lemma_apply_bind_to(s, a, r, *l);
            lemma_apply_bind_to(s, a, r, *rr);
        },
        TypeV::Ref(i) => {
            lemma_apply_bind_to(s, a, r, *i);
        },
        TypeV::Array(i, _) => {
            lemma_apply_bind_to(s, a, r, *i);
        },
        TypeV::Tuple(ts) => {
            lemma_apply_seq(s, ts);
            lemma_apply_seq(s2, ts);
            lemma_rank_seq(s, ts);
            lemma_subst1_seq(apply_seq(s, ts), a, r);
            assert forall|i: int| 0 <= i < ts.len() implies #[trigger] apply_seq(s2, ts)[i] == subst1_seq(apply_seq(s, ts), a, r)[i] by {
                assert(decreases_to!(t => ts));
                assert(decreases_to!(ts => ts[i]));
                assert(decreases_to!(t => ts[i]));
                lemma_apply_bind_to(s, a, r, ts[i]);
            }
            assert(apply_seq(s2, ts) =~= subst1_seq(apply_seq(s, ts), a, r));
        },
        _ => {},
    }
}

/// What the bindings give for a part is a part of what they give for the
/// whole.
pub proof fn lemma_apply_part(s: Subst, p: TypeV, t: TypeV)
    requires
        is_part(p, t),
    ensures
        is_part(apply(s, p), apply(s, t)),
    decreases t,
{
    if p != t {
        match t {
            TypeV::Func(l, r) => {
                if is_part(p, *l) {
                    lemma_apply_part(s, p, *l);
                    assert(is_part(apply(s, *l), apply(s, *l)));
                    assert(is_part(apply(s, *l), apply(s, t)));
                    lemma_is_part_trans(apply(s, p), apply(s, *l), apply(s, t));
                } else {
                    lemma_apply_part(s, p, *r);
                    assert(is_part(apply(s, *r), apply(s, *r)));
                    assert(is_part(apply(s, *r), apply(s, t)));
                    lemma_is_part_trans(apply(s, p), apply(s, *r), apply(s, t));
                }
            },
            TypeV::Ref(i) => {
                lemma_apply_part(s, p, *i);
                assert(is_part(apply(s, *i), apply(s, *i)));
                assert(is_part(apply(s, *i), apply(s, t)));
                lemma_is_part_trans(apply(s, p), apply(s, *i), apply(s, t));
            },
            TypeV::Array(i, _) => {
                lemma_apply_part(s, p, *i);
                assert(is_part(apply(s, *i), apply(s, *i)));
                assert(is_part(apply(s, *i), apply(s, t)));
                lemma_is_part_trans(apply(s, p), apply(s, *i), apply(s, t));
            },
            TypeV::Tuple(ts) => {
                lemma_is_part_seq(p, ts);
                let i = choose|i: int| 0 <= i < ts.len() && #[trigger] is_part(p, ts[i]);
                assert(decreases_to!(t => ts));
                assert(decreases_to!(ts => ts[i]));
                assert(decreases_to!(t => ts[i]));
                lemma_apply_part(s, p, ts[i]);
                lemma_apply_seq(s, ts);
                let out = apply_seq(s, ts);
                assert(out[i] == apply(s, ts[i]));
                assert(is_part(out[i], out[i]));
                lemma_is_part_seq(out[i], out);
                assert(is_part(out[i], apply(s, t)));
                lemma_is_part_trans(apply(s, p), out[i], apply(s, t));
            },
            _ => {},
        }
    }
}

/// `p` is a part of what the bindings give for one of `ts`.
pub open spec fn in_view(s: Subst, ts: Seq<TypeV>, p: TypeV) -> bool {
    exists|i: int| 0 <= i < ts.len() && #[trigger] is_part(p, apply(s, ts[i]))
}

/// Any two array types in view whose dimension counts are compatible are
/// the same type.
pub open spec fn arrays_settled(s: Subst, ts: Seq<TypeV>) -> bool {
    forall|p: TypeV, q: TypeV|
        #[trigger] in_view(s, ts, p) && #[trigger] in_view(s, ts, q) && p is Array && q is Array
            && dims_compatible(p->Array_1, q->Array_1) ==> p == q
}

/// What the bindings give for `t` is in view.
pub open spec fn covers(s: Subst, ts: Seq<TypeV>, t: TypeV) -> bool {
    in_view(s, ts, apply(s, t))
}

pub proof fn lemma_in_view_part(s: Subst, ts: Seq<TypeV>, p: TypeV, q: TypeV)
    requires
        in_view(s, ts, p),
        is_part(q, p),
    ensures
        in_view(s, ts, q),
{
    if exists|i: int| 0 <= i < ts.len() && #[trigger] is_part(p, apply(s, ts[i])) {
        let i = choose|i: int| 0 <= i < ts.len() && #[trigger] is_part(p, apply(s, ts[i]));
        lemma_is_part_trans(q, p, apply(s, ts[i]));
    } else {
        let x = choose|x: u32| bound(s, x) && #[trigger] is_part(p, apply(s, TypeV::Unknown(x)));
        lemma_is_part_trans(q, p, apply(s, TypeV::Unknown(x)));
    }
}

/// Two types, as a sequence.
pub open spec fn pair_of(l: TypeV, r: TypeV) -> Seq<TypeV> {
    seq![l, r]
}

/// The view of two covered types lies within the view.
pub proof fn lemma_view_of_pair(s: Subst, ts: Seq<TypeV>, l: TypeV, r: TypeV)
    requires
        covers(s, ts, l),
        covers(s, ts, r),
    ensures
        forall|p: TypeV| #[trigger] in_view(s, pair_of(l, r), p) ==> in_view(s, ts, p),
{
    assert forall|p: TypeV| #[trigger] in_view(s, pair_of(l, r), p) implies in_view(s, ts, p) by {
        let pair = pair_of(l, r);
        if exists|i: int| 0 <= i < pair.len() && #[trigger] is_part(p, apply(s, pair[i])) {
            let i = choose|i: int| 0 <= i < pair.len() && #[trigger] is_part(p, apply(s, pair[i]));
            if i == 0 {
                lemma_in_view_part(s, ts, apply(s, l), p);
            } else {
                lemma_in_view_part(s, ts, apply(s, r), p);
            }
        } else {
            let x = choose|x: u32| bound(s, x) && #[trigger] is_part(p, apply(s, TypeV::Unknown(x)));
            assert(in_view(s, ts, p));
        }
    }
}

/// Bindings that mean the same have the same view.
pub proof fn lemma_view_same_meaning(s: Subst, s2: Subst, ts: Seq<TypeV>)
    requires
        same_meaning(s, s2),
    ensures
        forall|p: TypeV| #[trigger] in_view(s2, ts, p) == in_view(s, ts, p),
        arrays_settled(s, ts) ==> arrays_settled(s2, ts),
        forall|t: TypeV| #[trigger] covers(s2, ts, t) == covers(s, ts, t),
{
    assert forall|p: TypeV| #[trigger] in_view(s2, ts, p) == in_view(s, ts, p) by {
        if exists|i: int| 0 <= i < ts.len() && #[trigger] is_part(p, apply(s, ts[i])) {
            let i = choose|i: int| 0 <= i < ts.len() && #[trigger] is_part(p, apply(s, ts[i]));
            assert(apply(s2, ts[i]) == apply(s, ts[i]));
        }
        if exists|i: int| 0 <= i < ts.len() && #[trigger] is_part(p, apply(s2, ts[i])) {
            let i = choose|i: int| 0 <= i < ts.len() && #[trigger] is_part(p, apply(s2, ts[i]));
            assert(apply(s2, ts[i]) == apply(s, ts[i]));
        }
        if exists|x: u32| bound(s, x) && #[trigger] is_part(p, apply(s, TypeV::Unknown(x))) {
            let x = choose|x: u32| bound(s, x) && #[trigger] is_part(p, apply(s, TypeV::Unknown(x)));
            assert(apply(s2, TypeV::Unknown(x)) == apply(s, TypeV::Unknown(x)));
            assert(bound(s2, x));
        }
        if exists|x: u32| bound(s2, x) && #[trigger] is_part(p, apply(s2, TypeV::Unknown(x))) {
            let x = choose|x: u32| bound(s2, x) && #[trigger] is_part(p, apply(s2, TypeV::Unknown(x)));
            assert(apply(s2, TypeV::Unknown(x)) == apply(s, TypeV::Unknown(x)));
            assert(bound(s, x));
        }
    }
    assert forall|t: TypeV| #[trigger] covers(s2, ts, t) == covers(s, ts, t) by {
        assert(apply(s2, t) == apply(s, t));
        assert(in_view(s2, ts, apply(s, t)) == in_view(s, ts, apply(s, t)));
    }
    if arrays_settled(s, ts) {
        assert forall|p: TypeV, q: TypeV|
            #[trigger] in_view(s2, ts, p) && #[trigger] in_view(s2, ts, q) && p is Array && q is Array
                && dims_compatible(p->Array_1, q->Array_1) implies p == q by {
            assert(in_view(s, ts, p));
            assert(in_view(s, ts, q));
        }
    }
}

/// What is covered stays covered under refining bindings.
pub proof fn lemma_covers_refines(s: Subst, s2: Subst, ts: Seq<TypeV>, t: TypeV)
    requires
        refines(s, s2),
        covers(s, ts, t),
    ensures
        covers(s2, ts, t),
{
    let at = apply(s, t);
    if exists|i: int| 0 <= i < ts.len() && #[trigger] is_part(at, apply(s, ts[i])) {
        let i = choose|i: int| 0 <= i < ts.len() && #[trigger] is_part(at, apply(s, ts[i]));
        lemma_apply_part(s2, at, apply(s, ts[i]));
        assert(apply(s2, apply(s, ts[i])) == apply(s2, ts[i]));
        assert(apply(s2, at) == apply(s2, t));
        assert(is_part(apply(s2, t), apply(s2, ts[i])));
    } else {
        let x = choose|x: u32| bound(s, x) && #[trigger] is_part(at, apply(s, TypeV::Unknown(x)));
        lemma_apply_part(s2, at, apply(s, TypeV::Unknown(x)));
        assert(apply(s2, apply(s, TypeV::Unknown(x))) == apply(s2, TypeV::Unknown(x)));
        assert(apply(s2, at) == apply(s2, t));
        assert(bound(s2, x));
        assert(is_part(apply(s2, t), apply(s2, TypeV::Unknown(x))));
    }
}

/// What is in view after binding `a` to `r`: parts of `r`, and what was in
/// view before with `a` replaced by `r`.
pub proof fn lemma_view_after_bind(s: Subst, ts: Seq<TypeV>, a: u32, r: TypeV, p: TypeV)
    requires
        wf(s),
        a < s.bind.len(),
        !bound(s, a),
        resolved(s, r),
        ids_below(r, s.bind.len()),
        !occurs(a, r),
        in_view(bind_to(s, a, r), ts, p),
    ensures
        is_part(p, r) || exists|q: TypeV| #[trigger] in_view(s, ts, q) && q != TypeV::Unknown(a) && p == subst1(q, a, r),
{
    let s2 = bind_to(s, a, r);
    lemma_bind_to(s, a, r);
    if exists|i: int| 0 <= i < ts.len() && #[trigger] is_part(p, apply(s2, ts[i])) {
        let i = choose|i: int| 0 <= i < ts.len() && #[trigger] is_part(p, apply(s2, ts[i]));
        lemma_apply_bind_to(s, a, r, ts[i]);
        lemma_parts_of_subst1(p, apply(s, ts[i]), a, r);
        if !is_part(p, r) {
            let q = choose|q: TypeV| #[trigger] is_part(q, apply(s, ts[i])) && q != TypeV::Unknown(a) && p == subst1(q, a, r);
            assert(in_view(s, ts, q));
        }
    } else {
        let x = choose|x: u32| bound(s2, x) && #[trigger] is_part(p, apply(s2, TypeV::Unknown(x)));
        lemma_apply_bind_to(s, a, r, TypeV::Unknown(x));
        if x == a {
            assert(apply(s, TypeV::Unknown(a)) == TypeV::Unknown(a));
        } else {
            assert(bound(s, x));
            lemma_parts_of_subst1(p, apply(s, TypeV::Unknown(x)), a, r);
            if !is_part(p, r) {
                let q = choose|q: TypeV| #[trigger] is_part(q, apply(s, TypeV::Unknown(x))) && q != TypeV::Unknown(a) && p == subst1(q, a, r);
                assert(in_view(s, ts, q));
            }
        }
    }
}

/// Binding an unknown type to a type in view keeps the arrays in view
/// settled.
pub proof fn lemma_settled_after_bind(s: Subst, ts: Seq<TypeV>, a: u32, r: TypeV)
    requires
        wf(s),
        a < s.bind.len(),
        !bound(s, a),
        resolved(s, r),
        ids_below(r, s.bind.len()),
        !occurs(a, r),
        in_view(s, ts, r),
        arrays_settled(s, ts),
    ensures
        arrays_settled(bind_to(s, a, r), ts),
{
    let s2 = bind_to(s, a, r);
    assert forall|p: TypeV, q: TypeV|
        #[trigger] in_view(s2, ts, p) && #[trigger] in_view(s2, ts, q) && p is Array && q is Array
            && dims_compatible(p->Array_1, q->Array_1) implies p == q by {
        lemma_view_after_bind(s, ts, a, r, p);
        lemma_view_after_bind(s, ts, a, r, q);
        if is_part(p, r) {
            lemma_in_view_part(s, ts, r, p);
            if is_part(q, r) {
                lemma_in_view_part(s, ts, r, q);
            } else {
                let q0 = choose|q0: TypeV| #[trigger] in_view(s, ts, q0) && q0 != TypeV::Unknown(a) && q == subst1(q0, a, r);
                assert(q0 == p);
                if occurs(a, p) {
                    lemma_occurs_part(a, p, r);
                }
                lemma_subst1_absent(p, a, r);
            }
        } else {
            let p0 = choose|p0: TypeV| #[trigger] in_view(s, ts, p0) && p0 != TypeV::Unknown(a) && p == subst1(p0, a, r);
            if is_part(q, r) {
                lemma_in_view_part(s, ts, r, q);
                assert(p0 == q);
                if occurs(a, q) {
                    lemma_occurs_part(a, q, r);
                }
                lemma_subst1_absent(q, a, r);
            } else {
                let q0 = choose|q0: TypeV| #[trigger] in_view(s, ts, q0) && q0 != TypeV::Unknown(a) && q == subst1(q0, a, r);
                assert(p0 == q0);
            }
        }
    }
}

/// `s2` keeps the arrays settled in every view that `s` kept them settled
/// in and that covers both `l` and `r`.
pub open spec fn keeps_settled(s: Subst, s2: Subst, l: TypeV, r: TypeV) -> bool {
    forall|ts: Seq<TypeV>|
        arrays_settled(s, ts) && covers(s, ts, l) && covers(s, ts, r) ==> #[trigger] arrays_settled(s2, ts)
}

pub proof fn lemma_keeps_settled_same_meaning(s: Subst, s2: Subst, l: TypeV, r: TypeV)
    requires
        same_meaning(s, s2),
    ensures
        keeps_settled(s, s2, l, r),
{
    assert forall|ts: Seq<TypeV>| arrays_settled(s, ts) && covers(s, ts, l) && covers(s, ts, r)
        implies #[trigger] arrays_settled(s2, ts) by {
        lemma_view_same_meaning(s, s2, ts);
    }
}

/// A pair of types covers both of them.
pub proof fn lemma_pair_covers(s: Subst, l: TypeV, r: TypeV)
    ensures
        covers(s, pair_of(l, r), l),
        covers(s, pair_of(l, r), r),
{
    let pr = pair_of(l, r);
    assert(is_part(apply(s, l), apply(s, pr[0])));
    assert(is_part(apply(s, r), apply(s, pr[1])));
}

} // verus!
