use vstd::prelude::*;
use super::TypeV;

verus! {

/// The bindings of unknown types, by id: what each unknown type was bound
/// to, if it was, and when (`order`, before `clock`).
pub struct Subst {
    pub bind: Seq<Option<TypeV>>,
    pub order: Seq<nat>,
    pub clock: nat,
}

pub open spec fn bound(s: Subst, x: u32) -> bool {
    x < s.bind.len() && s.bind[x as int] is Some
}

pub open spec fn binding(s: Subst, x: u32) -> TypeV {
    s.bind[x as int]->0
}

/// Whether the unknown type `u` occurs in `t`.
pub open spec fn occurs(u: u32, t: TypeV) -> bool
    decreases t,
{
    match t {
        TypeV::Unknown(x) => x == u,
        TypeV::Func(l, r) => occurs(u, *l) || occurs(u, *r),
        TypeV::Ref(i) => occurs(u, *i),
        TypeV::Array(i, _) => occurs(u, *i),
        TypeV::Tuple(ts) => occurs_seq(u, ts),
        _ => false,
    }
}

pub open spec fn occurs_seq(u: u32, ts: Seq<TypeV>) -> bool
    decreases ts,
{
    if ts.len() == 0 {
        false
    } else {
        proof {
            assert(decreases_to!(ts => ts.subrange(0, ts.len() - 1)));
        }
        occurs_seq(u, ts.drop_last()) || occurs(u, ts[ts.len() - 1])
    }
}

pub open spec fn max_nat(a: nat, b: nat) -> nat {
    if a < b { b } else { a }
}

/// How far the bindings can lead from `t`: for a bound unknown type, how
/// long before `clock` it was bound; the largest such value in `t`.
pub open spec fn rank(s: Subst, t: TypeV) -> nat
    decreases t,
{
    match t {
        TypeV::Unknown(x) => if bound(s, x) && s.order[x as int] < s.clock {
            (s.clock - s.order[x as int]) as nat
        } else {
            0
        },
        TypeV::Func(l, r) => max_nat(rank(s, *l), rank(s, *r)),
        TypeV::Ref(i) => rank(s, *i),
        TypeV::Array(i, _) => rank(s, *i),
        TypeV::Tuple(ts) => rank_seq(s, ts),
        _ => 0,
    }
}

pub open spec fn rank_seq(s: Subst, ts: Seq<TypeV>) -> nat
    decreases ts,
{
    if ts.len() == 0 {
        0
    } else {
        proof {
            assert(decreases_to!(ts => ts.subrange(0, ts.len() - 1)));
        }
        max_nat(rank_seq(s, ts.drop_last()), rank(s, ts[ts.len() - 1]))
    }
}

/// The bindings are well formed: every binding mentions only known ids,
/// and every bound unknown type in a binding was bound later, so that no
/// chain of bindings comes back to where it started.
pub open spec fn wf(s: Subst) -> bool {
    &&& s.order.len() == s.bind.len()
    &&& s.bind.len() <= 0x1_0000_0000
    &&& forall|x: u32| #[trigger] bound(s, x) ==> s.order[x as int] < s.clock
    &&& forall|x: u32, u: u32| bound(s, x) && #[trigger] occurs(u, binding(s, x)) ==> {
        &&& u < s.bind.len()
        &&& (bound(s, u) ==> s.order[x as int] < s.order[u as int])
    }
}

/// `t` with every bound unknown type replaced, again and again, by what it
/// is bound to.
pub open spec fn apply(s: Subst, t: TypeV) -> TypeV
    decreases rank(s, t), t,
{
    match t {
        TypeV::Unknown(x) => if bound(s, x) && rank(s, binding(s, x)) < rank(s, t) {
            apply(s, binding(s, x))
        } else {
            t
        },
        TypeV::Func(l, r) => TypeV::Func(Box::new(apply(s, *l)), Box::new(apply(s, *r))),
        TypeV::Ref(i) => TypeV::Ref(Box::new(apply(s, *i))),
        TypeV::Array(i, d) => TypeV::Array(Box::new(apply(s, *i)), d),
        TypeV::Tuple(ts) => TypeV::Tuple(apply_seq(s, ts)),
        _ => t,
    }
}

pub open spec fn apply_seq(s: Subst, ts: Seq<TypeV>) -> Seq<TypeV>
    decreases rank_seq(s, ts), ts,
{
    if ts.len() == 0 {
        Seq::empty()
    } else {
        proof {
            assert(decreases_to!(ts => ts.subrange(0, ts.len() - 1)));
        }
        apply_seq(s, ts.drop_last()).push(apply(s, ts[ts.len() - 1]))
    }
}

/// Where the chain of bindings from `t` ends: `t` itself unless it is a
/// bound unknown type.
pub open spec fn head(s: Subst, t: TypeV) -> TypeV
    decreases rank(s, t),
{
    match t {
        TypeV::Unknown(x) => if bound(s, x) && rank(s, binding(s, x)) < rank(s, t) {
            head(s, binding(s, x))
        } else {
            t
        },
        _ => t,
    }
}

/// No bound unknown type is left in `t`.
pub open spec fn resolved(s: Subst, t: TypeV) -> bool {
    forall|u: u32| #[trigger] occurs(u, t) ==> !bound(s, u)
}

/// Every unknown type in `t` has an id below `n`.
pub open spec fn ids_below(t: TypeV, n: nat) -> bool {
    forall|u: u32| #[trigger] occurs(u, t) ==> u < n
}

pub proof fn lemma_occurs_seq(u: u32, ts: Seq<TypeV>)
    ensures
        occurs_seq(u, ts) <==> exists|i: int| 0 <= i < ts.len() && #[trigger] occurs(u, ts[i]),
    decreases ts.len(),
{
    if ts.len() > 0 {
        let p = ts.drop_last();
        lemma_occurs_seq(u, p);
        if occurs_seq(u, p) {
            let i = choose|i: int| 0 <= i < p.len() && #[trigger] occurs(u, p[i]);
            assert(ts[i] == p[i]);
            assert(occurs(u, ts[i]));
        }
        if occurs(u, ts[ts.len() - 1]) {
            assert(occurs(u, ts[ts.len() - 1]));
        }
        if exists|i: int| 0 <= i < ts.len() && #[trigger] occurs(u, ts[i]) {
            let i = choose|i: int| 0 <= i < ts.len() && #[trigger] occurs(u, ts[i]);
            if i < ts.len() - 1 {
                assert(p[i] == ts[i]);
                assert(occurs(u, p[i]));
            }
        }
    }
}

pub proof fn lemma_rank_seq(s: Subst, ts: Seq<TypeV>)
    ensures
        forall|i: int| 0 <= i < ts.len() ==> #[trigger] rank(s, ts[i]) <= rank_seq(s, ts),
        ts.len() == 0 ==> rank_seq(s, ts) == 0,
        ts.len() > 0 ==> exists|i: int| 0 <= i < ts.len() && rank_seq(s, ts) == #[trigger] rank(s, ts[i]),
    decreases ts.len(),
{
    if ts.len() > 0 {
        let p = ts.drop_last();
        lemma_rank_seq(s, p);
        assert forall|i: int| 0 <= i < ts.len() implies #[trigger] rank(s, ts[i]) <= rank_seq(s, ts) by {
            if i < ts.len() - 1 {
                assert(p[i] == ts[i]);
            }
        }
        if p.len() > 0 && rank_seq(s, p) >= rank(s, ts[ts.len() - 1]) {
            let i = choose|i: int| 0 <= i < p.len() && rank_seq(s, p) == #[trigger] rank(s, p[i]);
            assert(p[i] == ts[i]);
        }
    }
}

pub proof fn lemma_apply_seq(s: Subst, ts: Seq<TypeV>)
    ensures
        apply_seq(s, ts).len() == ts.len(),
        forall|i: int| 0 <= i < ts.len() ==> #[trigger] apply_seq(s, ts)[i] == apply(s, ts[i]),
    decreases ts.len(),
{
    if ts.len() > 0 {
        lemma_apply_seq(s, ts.drop_last());
        assert forall|i: int| 0 <= i < ts.len() implies #[trigger] apply_seq(s, ts)[i] == apply(s, ts[i]) by {
            if i < ts.len() - 1 {
                assert(ts.drop_last()[i] == ts[i]);
            }
        }
    }
}

/// The rank of a type is below `k` when every bound unknown type in it is.
proof fn lemma_rank_below(s: Subst, t: TypeV, k: nat)
    requires
        k > 0,
        forall|u: u32| #[trigger] occurs(u, t) && bound(s, u) && s.order[u as int] < s.clock ==> s.clock - s.order[u as int] < k,
    ensures
        rank(s, t) < k,
    decreases t,
{
    match t {
        TypeV::Unknown(x) => {
            assert(occurs(x, t));
        },
        TypeV::Func(l, r) => {
            assert forall|u: u32| #[trigger] occurs(u, *l) && bound(s, u) && s.order[u as int] < s.clock implies s.clock - s.order[u as int] < k by {
                assert(occurs(u, t));
            }
            assert forall|u: u32| #[trigger] occurs(u, *r) && bound(s, u) && s.order[u as int] < s.clock implies s.clock - s.order[u as int] < k by {
                assert(occurs(u, t));
            }
            lemma_rank_below(s, *l, k);
            lemma_rank_below(s, *r, k);
        },
        TypeV::Ref(i) => {
            assert forall|u: u32| #[trigger] occurs(u, *i) && bound(s, u) && s.order[u as int] < s.clock implies s.clock - s.order[u as int] < k by {
                assert(occurs(u, t));
            }
            lemma_rank_below(s, *i, k);
        },
        TypeV::Array(i, _) => {
            assert forall|u: u32| #[trigger] occurs(u, *i) && bound(s, u) && s.order[u as int] < s.clock implies s.clock - s.order[u as int] < k by {
                assert(occurs(u, t));
            }
            lemma_rank_below(s, *i, k);
        },
        TypeV::Tuple(ts) => {
            lemma_rank_seq(s, ts);
            if ts.len() > 0 {
                let i = choose|i: int| 0 <= i < ts.len() && rank_seq(s, ts) == #[trigger] rank(s, ts[i]);
                assert forall|u: u32| #[trigger] occurs(u, ts[i]) && bound(s, u) && s.order[u as int] < s.clock implies s.clock - s.order[u as int] < k by {
                    lemma_occurs_seq(u, ts);
                    assert(occurs(u, t));
                }
                assert(decreases_to!(t => ts));
                assert(decreases_to!(ts => ts[i]));
                assert(decreases_to!(t => ts[i]));
                lemma_rank_below(s, ts[i], k);
            }
        },
        _ => {},
    }
}

/// Under well-formed bindings, following a binding lowers the rank.
pub proof fn lemma_rank_step(s: Subst, x: u32)
    requires
        wf(s),
        bound(s, x),
    ensures
        rank(s, binding(s, x)) < rank(s, TypeV::Unknown(x)),
        rank(s, TypeV::Unknown(x)) == s.clock - s.order[x as int],
{
    let k = (s.clock - s.order[x as int]) as nat;
    assert forall|u: u32| #[trigger] occurs(u, binding(s, x)) && bound(s, u) && s.order[u as int] < s.clock implies s.clock - s.order[u as int] < k by {}
    lemma_rank_below(s, binding(s, x), k);
}

pub proof fn lemma_unfold_bound(s: Subst, x: u32)
    requires
        wf(s),
        bound(s, x),
    ensures
        apply(s, TypeV::Unknown(x)) == apply(s, binding(s, x)),
        head(s, TypeV::Unknown(x)) == head(s, binding(s, x)),
{
    lemma_rank_step(s, x);
}

/// What the bindings give holds no bound unknown type, and only unknown
/// types of the input or of known ids.
pub proof fn lemma_apply_resolved(s: Subst, t: TypeV)
    requires
        wf(s),
    ensures
        forall|u: u32| #[trigger] occurs(u, apply(s, t)) ==> !bound(s, u) && (u < s.bind.len() || occurs(u, t)),
    decreases rank(s, t), t,
{
    match t {
        TypeV::Unknown(x) => {
            if bound(s, x) {
                lemma_rank_step(s, x);
                lemma_apply_resolved(s, binding(s, x));
                assert forall|u: u32| #[trigger] occurs(u, apply(s, t)) implies !bound(s, u) && (u < s.bind.len() || occurs(u, t)) by {
                    assert(occurs(u, apply(s, binding(s, x))));
                    if occurs(u, binding(s, x)) {
                        assert(u < s.bind.len());
                    }
                }
            } else {
                assert(apply(s, t) == t);
                assert forall|u: u32| #[trigger] occurs(u, apply(s, t)) implies !bound(s, u) && (u < s.bind.len() || occurs(u, t)) by {
                    assert(occurs(u, t));
                    assert(u == x);
                }
            }
        },
        TypeV::Func(l, r) => {
            lemma_apply_resolved(s, *l);
            lemma_apply_resolved(s, *r);
            assert forall|u: u32| #[trigger] occurs(u, apply(s, t)) implies !bound(s, u) && (u < s.bind.len() || occurs(u, t)) by {
                if occurs(u, apply(s, *l)) {
                    assert(occurs(u, *l) ==> occurs(u, t));
                } else {
                    assert(occurs(u, apply(s, *r)));
                    assert(occurs(u, *r) ==> occurs(u, t));
                }
            }
        },
        TypeV::Ref(i) => {
            lemma_apply_resolved(s, *i);
            assert forall|u: u32| #[trigger] occurs(u, apply(s, t)) implies !bound(s, u) && (u < s.bind.len() || occurs(u, t)) by {
                assert(occurs(u, apply(s, *i)));
                assert(occurs(u, *i) ==> occurs(u, t));
            }
        },
        TypeV::Array(i, _) => {
            lemma_apply_resolved(s, *i);
            assert forall|u: u32| #[trigger] occurs(u, apply(s, t)) implies !bound(s, u) && (u < s.bind.len() || occurs(u, t)) by {
                assert(occurs(u, apply(s, *i)));
                assert(occurs(u, *i) ==> occurs(u, t));
            }
        },
        TypeV::Tuple(ts) => {
            lemma_apply_seq(s, ts);
            lemma_rank_seq(s, ts);
            let out = apply_seq(s, ts);
            assert forall|u: u32| #[trigger] occurs(u, apply(s, t)) implies !bound(s, u) && (u < s.bind.len() || occurs(u, t)) by {
                lemma_occurs_seq(u, out);
                lemma_occurs_seq(u, ts);
                let i = choose|i: int| 0 <= i < out.len() && #[trigger] occurs(u, out[i]);
                assert(decreases_to!(t => ts));
                assert(decreases_to!(ts => ts[i]));
                assert(decreases_to!(t => ts[i]));
                lemma_apply_resolved(s, ts[i]);
                assert(occurs(u, apply(s, ts[i])));
                if occurs(u, ts[i]) {
                    assert(occurs_seq(u, ts));
                }
            }
        },
        _ => {},
    }
}

/// A type without bound unknown types is left as it is.
pub proof fn lemma_apply_id(s: Subst, t: TypeV)
    requires
        resolved(s, t),
    ensures
        apply(s, t) == t,
    decreases t,
{
    match t {
        TypeV::Unknown(x) => {
            assert(occurs(x, t));
        },
        TypeV::Func(l, r) => {
            assert forall|u: u32| #[trigger] occurs(u, *l) implies !bound(s, u) by { assert(occurs(u, t)); }
            assert forall|u: u32| #[trigger] occurs(u, *r) implies !bound(s, u) by { assert(occurs(u, t)); }
            lemma_apply_id(s, *l);
            lemma_apply_id(s, *r);
        },
        TypeV::Ref(i) => {
            assert forall|u: u32| #[trigger] occurs(u, *i) implies !bound(s, u) by { assert(occurs(u, t)); }
            lemma_apply_id(s, *i);
        },
        TypeV::Array(i, _) => {
            assert forall|u: u32| #[trigger] occurs(u, *i) implies !bound(s, u) by { assert(occurs(u, t)); }
            lemma_apply_id(s, *i);
        },
        TypeV::Tuple(ts) => {
            lemma_apply_seq(s, ts);
            assert forall|i: int| 0 <= i < ts.len() implies #[trigger] apply_seq(s, ts)[i] == ts[i] by {
                assert forall|u: u32| #[trigger] occurs(u, ts[i]) implies !bound(s, u) by {
                    lemma_occurs_seq(u, ts);
                    assert(occurs(u, t));
                }
                assert(decreases_to!(t => ts));
                assert(decreases_to!(ts => ts[i]));
                assert(decreases_to!(t => ts[i]));
                lemma_apply_id(s, ts[i]);
            }
            assert(apply_seq(s, ts) =~= ts);
        },
        _ => {},
    }
}

/// Applying the bindings twice is applying them once.
pub proof fn lemma_apply_idem(s: Subst, t: TypeV)
    requires
        wf(s),
    ensures
        apply(s, apply(s, t)) == apply(s, t),
        resolved(s, apply(s, t)),
{
    lemma_apply_resolved(s, t);
    lemma_apply_id(s, apply(s, t));
}

/// Bindings that keep every binding of `s` give, after what `s` gives,
/// what they give by themselves.
pub proof fn lemma_extension_refines(s: Subst, s2: Subst, t: TypeV)
    requires
        wf(s),
        wf(s2),
        forall|x: u32| #[trigger] bound(s, x) ==> bound(s2, x) && binding(s2, x) == binding(s, x),
    ensures
        apply(s2, apply(s, t)) == apply(s2, t),
    decreases rank(s, t), t,
{
    match t {
        TypeV::Unknown(x) => {
            if bound(s, x) {
                lemma_rank_step(s, x);
                lemma_rank_step(s2, x);
                lemma_extension_refines(s, s2, binding(s, x));
            }
        },
        TypeV::Func(l, r) => {
            lemma_extension_refines(s, s2, *l);
            lemma_extension_refines(s, s2, *r);
        },
        TypeV::Ref(i) => {
            lemma_extension_refines(s, s2, *i);
        },
        TypeV::Array(i, _) => {
            lemma_extension_refines(s, s2, *i);
        },
        TypeV::Tuple(ts) => {
            let mid = apply_seq(s, ts);
            lemma_apply_seq(s, ts);
            lemma_apply_seq(s2, ts);
            lemma_apply_seq(s2, mid);
            lemma_rank_seq(s, ts);
            assert forall|i: int| 0 <= i < ts.len() implies #[trigger] apply_seq(s2, mid)[i] == apply_seq(s2, ts)[i] by {
                assert(decreases_to!(t => ts));
                assert(decreases_to!(ts => ts[i]));
                assert(decreases_to!(t => ts[i]));
                lemma_extension_refines(s, s2, ts[i]);
            }
            assert(apply_seq(s2, mid) =~= apply_seq(s2, ts));
        },
        _ => {},
    }
}

/// Bindings with the same bound ids, each bound to something that means
/// the same, mean the same.
pub proof fn lemma_same_meaning(s: Subst, s2: Subst, t: TypeV)
    requires
        wf(s),
        wf(s2),
        forall|x: u32| #[trigger] bound(s, x) ==> bound(s2, x),
        forall|x: u32| #[trigger] bound(s2, x) ==> bound(s, x) && apply(s, binding(s2, x)) == apply(s, binding(s, x)),
    ensures
        apply(s2, t) == apply(s, t),
    decreases rank(s2, t), t,
{
    match t {
        TypeV::Unknown(x) => {
            if bound(s2, x) {
                lemma_rank_step(s2, x);
                lemma_rank_step(s, x);
                lemma_same_meaning(s, s2, binding(s2, x));
            } else if bound(s, x) {
                lemma_rank_step(s, x);
            }
        },
        TypeV::Func(l, r) => {
            lemma_same_meaning(s, s2, *l);
            lemma_same_meaning(s, s2, *r);
        },
        TypeV::Ref(i) => {
            lemma_same_meaning(s, s2, *i);
        },
        TypeV::Array(i, _) => {
            lemma_same_meaning(s, s2, *i);
        },
        TypeV::Tuple(ts) => {
            lemma_apply_seq(s, ts);
            lemma_apply_seq(s2, ts);
            lemma_rank_seq(s2, ts);
            assert forall|i: int| 0 <= i < ts.len() implies #[trigger] apply_seq(s2, ts)[i] == apply_seq(s, ts)[i] by {
                assert(decreases_to!(t => ts));
                assert(decreases_to!(ts => ts[i]));
                assert(decreases_to!(t => ts[i]));
                lemma_same_meaning(s, s2, ts[i]);
            }
            assert(apply_seq(s2, ts) =~= apply_seq(s, ts));
        },
        _ => {},
    }
}

/// Following the bindings from `t` to where they end changes nothing of
/// what they give, ends at something that is not a bound unknown type, and
/// brings in only unknown types of known ids.
pub proof fn lemma_head(s: Subst, t: TypeV)
    requires
        wf(s),
    ensures
        apply(s, head(s, t)) == apply(s, t),
        head(s, t) matches TypeV::Unknown(y) ==> !bound(s, y),
        rank(s, head(s, t)) <= rank(s, t),
        forall|u: u32| #[trigger] occurs(u, head(s, t)) ==> occurs(u, t) || u < s.bind.len(),
    decreases rank(s, t),
{
    if let TypeV::Unknown(x) = t {
        if bound(s, x) {
            lemma_rank_step(s, x);
            lemma_head(s, binding(s, x));
        }
    }
}

/// The unknown types still bound at the end of the chain from a bound `x`
/// were all bound after `x`.
pub proof fn lemma_head_later(s: Subst, x: u32)
    requires
        wf(s),
        bound(s, x),
    ensures
        forall|u: u32| #[trigger] occurs(u, head(s, TypeV::Unknown(x))) ==> u < s.bind.len()
            && (bound(s, u) ==> s.order[x as int] < s.order[u as int]),
    decreases rank(s, TypeV::Unknown(x)),
{
    let b = binding(s, x);
    lemma_rank_step(s, x);
    if let TypeV::Unknown(y) = b {
        assert(occurs(y, b));
        if bound(s, y) {
            lemma_head_later(s, y);
        }
    }
}

/// `s` with `a` bound to `r`, bound now.
pub open spec fn bind_to(s: Subst, a: u32, r: TypeV) -> Subst {
    Subst { bind: s.bind.update(a as int, Some(r)), order: s.order.update(a as int, s.clock), clock: s.clock + 1 }
}

/// Binding an unbound unknown type to a type without bound unknown types in
/// which it does not occur keeps the bindings well formed.
pub proof fn lemma_bind_to(s: Subst, a: u32, r: TypeV)
    requires
        wf(s),
        a < s.bind.len(),
        !bound(s, a),
        resolved(s, r),
        ids_below(r, s.bind.len()),
        !occurs(a, r),
    ensures
        wf(bind_to(s, a, r)),
        forall|x: u32| #[trigger] bound(bind_to(s, a, r), x) <==> bound(s, x) || x == a,
        forall|x: u32| #[trigger] bound(s, x) ==> binding(bind_to(s, a, r), x) == binding(s, x),
        binding(bind_to(s, a, r), a) == r,
{
    let s2 = bind_to(s, a, r);
    assert forall|x: u32| #[trigger] bound(s2, x) implies s2.order[x as int] < s2.clock by {
        if x != a {
            assert(bound(s, x));
        }
    }
    assert forall|x: u32, u: u32| bound(s2, x) && #[trigger] occurs(u, binding(s2, x)) implies {
        &&& u < s2.bind.len()
        &&& (bound(s2, u) ==> s2.order[x as int] < s2.order[u as int])
    } by {
        if x == a {
            assert(occurs(u, r));
        } else {
            assert(bound(s, x));
            assert(binding(s2, x) == binding(s, x));
            if u == a {
                assert(s.order[x as int] < s.clock);
            }
        }
    }
}

pub proof fn lemma_rank_same(s: Subst, s2: Subst, t: TypeV)
    requires
        s2.order == s.order,
        s2.clock == s.clock,
        forall|x: u32| #[trigger] bound(s, x) <==> bound(s2, x),
    ensures
        rank(s2, t) == rank(s, t),
    decreases t,
{
    match t {
        TypeV::Func(l, r) => {
            lemma_rank_same(s, s2, *l);
            lemma_rank_same(s, s2, *r);
        },
        TypeV::Ref(i) => {
            lemma_rank_same(s, s2, *i);
        },
        TypeV::Array(i, _) => {
            lemma_rank_same(s, s2, *i);
        },
        TypeV::Tuple(ts) => {
            lemma_rank_same_seq(s, s2, ts);
        },
        _ => {},
    }
}

pub proof fn lemma_rank_same_seq(s: Subst, s2: Subst, ts: Seq<TypeV>)
    requires
        s2.order == s.order,
        s2.clock == s.clock,
        forall|x: u32| #[trigger] bound(s, x) <==> bound(s2, x),
    ensures
        rank_seq(s2, ts) == rank_seq(s, ts),
    decreases ts,
{
    if ts.len() > 0 {
        assert(decreases_to!(ts => ts.subrange(0, ts.len() - 1)));
        assert(decreases_to!(ts => ts[ts.len() - 1]));
        lemma_rank_same_seq(s, s2, ts.drop_last());
        lemma_rank_same(s, s2, ts[ts.len() - 1]);
    }
}

/// Rebinding bound unknown types straight to where their chains end keeps
/// the bindings well formed and changes nothing of what they give.
pub proof fn lemma_shortcut(s: Subst, s2: Subst, h: TypeV)
    requires
        wf(s),
        s2.order == s.order,
        s2.clock == s.clock,
        s2.bind.len() == s.bind.len(),
        forall|y: u32| y < s.bind.len() ==> #[trigger] s2.bind[y as int] == s.bind[y as int]
            || (bound(s, y) && head(s, TypeV::Unknown(y)) == h && s2.bind[y as int] == Some(h)),
    ensures
        wf(s2),
        forall|x: u32| #[trigger] bound(s, x) <==> bound(s2, x),
        forall|t: TypeV| #[trigger] apply(s2, t) == apply(s, t),
        forall|t: TypeV| #[trigger] rank(s2, t) == rank(s, t),
{
    assert forall|x: u32| #[trigger] bound(s, x) <==> bound(s2, x) by {
        if x < s.bind.len() {
            assert(s2.bind[x as int] == s.bind[x as int] || s2.bind[x as int] == Some(h));
        }
    }
    assert forall|x: u32, u: u32| bound(s2, x) && #[trigger] occurs(u, binding(s2, x)) implies {
        &&& u < s2.bind.len()
        &&& (bound(s2, u) ==> s2.order[x as int] < s2.order[u as int])
    } by {
        if s2.bind[x as int] != s.bind[x as int] {
            lemma_head_later(s, x);
        }
    }
    assert forall|x: u32| #[trigger] bound(s2, x) implies bound(s, x) && apply(s, binding(s2, x)) == apply(s, binding(s, x)) by {
        if s2.bind[x as int] != s.bind[x as int] {
            lemma_head(s, TypeV::Unknown(x));
            lemma_unfold_bound(s, x);
        }
    }
    assert forall|t: TypeV| #[trigger] apply(s2, t) == apply(s, t) by {
        lemma_same_meaning(s, s2, t);
    }
    assert forall|t: TypeV| #[trigger] rank(s2, t) == rank(s, t) by {
        lemma_rank_same(s, s2, t);
    }
}

/// How many ids are not bound.
pub open spec fn free_count(b: Seq<Option<TypeV>>) -> nat
    decreases b.len(),
{
    if b.len() == 0 {
        0
    } else {
        free_count(b.drop_last()) + if b.last() is None { 1nat } else { 0nat }
    }
}

/// Binding more ids leaves fewer free, and as many free only when no id
/// was newly bound.
pub proof fn lemma_free_count(b1: Seq<Option<TypeV>>, b2: Seq<Option<TypeV>>)
    requires
        b1.len() == b2.len(),
        forall|i: int| 0 <= i < b1.len() && b1[i] is Some ==> #[trigger] b2[i] is Some,
    ensures
        free_count(b2) <= free_count(b1),
        free_count(b2) == free_count(b1) ==> forall|i: int| 0 <= i < b1.len() && #[trigger] b2[i] is Some ==> b1[i] is Some,
    decreases b1.len(),
{
    if b1.len() > 0 {
        let p1 = b1.drop_last();
        let p2 = b2.drop_last();
        assert forall|i: int| 0 <= i < p1.len() && p1[i] is Some implies #[trigger] p2[i] is Some by {
            assert(p1[i] == b1[i] && p2[i] == b2[i]);
        }
        lemma_free_count(p1, p2);
        if free_count(b2) == free_count(b1) {
            assert forall|i: int| 0 <= i < b1.len() && #[trigger] b2[i] is Some implies b1[i] is Some by {
                if i < b1.len() - 1 {
                    assert(p1[i] == b1[i] && p2[i] == b2[i]);
                    assert(p2[i] is Some);
                }
            }
        }
    }
}

/// The number of nodes in a type.
pub open spec fn size(t: TypeV) -> nat
    decreases t,
{
    match t {
        TypeV::Func(l, r) => 1 + size(*l) + size(*r),
        TypeV::Ref(i) => 1 + size(*i),
        TypeV::Array(i, _) => 1 + size(*i),
        TypeV::Tuple(ts) => 1 + size_seq(ts),
        _ => 1,
    }
}

pub open spec fn size_seq(ts: Seq<TypeV>) -> nat
    decreases ts,
{
    if ts.len() == 0 {
        0
    } else {
        proof {
            assert(decreases_to!(ts => ts.subrange(0, ts.len() - 1)));
        }
        size_seq(ts.drop_last()) + size(ts[ts.len() - 1])
    }
}

pub proof fn lemma_size_seq(ts: Seq<TypeV>)
    ensures
        forall|i: int| 0 <= i < ts.len() ==> #[trigger] size(ts[i]) <= size_seq(ts),
    decreases ts.len(),
{
    if ts.len() > 0 {
        let p = ts.drop_last();
        lemma_size_seq(p);
        assert forall|i: int| 0 <= i < ts.len() implies #[trigger] size(ts[i]) <= size_seq(ts) by {
            if i < ts.len() - 1 {
                assert(p[i] == ts[i]);
            }
        }
    }
}

/// Two sets of bindings that bind the same ids, made at the same times, to
/// what gives the same.
pub open spec fn same_meaning(s: Subst, s2: Subst) -> bool {
    &&& s2.order == s.order
    &&& s2.clock == s.clock
    &&& s2.bind.len() == s.bind.len()
    &&& forall|x: u32| #[trigger] bound(s, x) <==> bound(s2, x)
    &&& forall|t: TypeV| #[trigger] apply(s2, t) == apply(s, t)
    &&& forall|t: TypeV| #[trigger] rank(s2, t) == rank(s, t)
}

pub proof fn lemma_same_meaning_trans(s1: Subst, s2: Subst, s3: Subst)
    requires
        same_meaning(s1, s2),
        same_meaning(s2, s3),
    ensures
        same_meaning(s1, s3),
{
    assert forall|t: TypeV| #[trigger] apply(s3, t) == apply(s1, t) by {
        assert(apply(s3, t) == apply(s2, t));
    }
    assert forall|t: TypeV| #[trigger] rank(s3, t) == rank(s1, t) by {
        assert(rank(s3, t) == rank(s2, t));
    }
}

/// `s2` keeps every binding of `s` in meaning, binds at least the same
/// ids, and binds more of them unless it means just the same.
pub open spec fn refines(s: Subst, s2: Subst) -> bool {
    &&& s2.bind.len() == s.bind.len()
    &&& forall|x: u32| #[trigger] bound(s, x) ==> bound(s2, x)
    &&& forall|t: TypeV| #[trigger] apply(s2, apply(s, t)) == apply(s2, t)
    &&& free_count(s2.bind) <= free_count(s.bind)
    &&& free_count(s2.bind) == free_count(s.bind) ==> same_meaning(s, s2)
}

/// Binding only more ids frees none.
pub proof fn lemma_free_count_bound(s: Subst, s2: Subst)
    requires
        s.bind.len() == s2.bind.len(),
        s.bind.len() <= 0x1_0000_0000,
        forall|x: u32| #[trigger] bound(s, x) ==> bound(s2, x),
    ensures
        free_count(s2.bind) <= free_count(s.bind),
        free_count(s2.bind) == free_count(s.bind) ==> forall|x: u32| #[trigger] bound(s2, x) ==> bound(s, x),
{
    assert forall|i: int| 0 <= i < s.bind.len() && s.bind[i] is Some implies #[trigger] s2.bind[i] is Some by {
        assert(bound(s, i as u32));
    }
    lemma_free_count(s.bind, s2.bind);
    if free_count(s2.bind) == free_count(s.bind) {
        assert forall|x: u32| #[trigger] bound(s2, x) implies bound(s, x) by {
            assert(s2.bind[x as int] is Some);
        }
    }
}

pub proof fn lemma_same_meaning_refines(s: Subst, s2: Subst)
    requires
        wf(s),
        same_meaning(s, s2),
    ensures
        refines(s, s2),
{
    assert forall|t: TypeV| #[trigger] apply(s2, apply(s, t)) == apply(s2, t) by {
        lemma_apply_idem(s, t);
        assert(apply(s2, apply(s, t)) == apply(s, apply(s, t)));
    }
    lemma_free_count_bound(s, s2);
    lemma_free_count_bound(s2, s);
}

pub proof fn lemma_refines_trans(s1: Subst, s2: Subst, s3: Subst)
    requires
        refines(s1, s2),
        refines(s2, s3),
    ensures
        refines(s1, s3),
{
    assert forall|t: TypeV| #[trigger] apply(s3, apply(s1, t)) == apply(s3, t) by {
        assert(apply(s3, apply(s2, apply(s1, t))) == apply(s3, apply(s1, t)));
        assert(apply(s2, apply(s1, t)) == apply(s2, t));
        assert(apply(s3, apply(s2, t)) == apply(s3, t));
    }
    if free_count(s3.bind) == free_count(s1.bind) {
        assert(free_count(s2.bind) == free_count(s1.bind));
        lemma_same_meaning_trans(s1, s2, s3);
    }
}

/// The parts of a type without bound unknown types have none either.
pub proof fn lemma_resolved_parts(s: Subst, t: TypeV, n: nat)
    requires
        resolved(s, t),
        ids_below(t, n),
    ensures
        t matches TypeV::Func(l, r) ==> resolved(s, *l) && resolved(s, *r) && ids_below(*l, n) && ids_below(*r, n),
        t matches TypeV::Ref(i) ==> resolved(s, *i) && ids_below(*i, n),
        t matches TypeV::Array(i, _) ==> resolved(s, *i) && ids_below(*i, n),
        t matches TypeV::Tuple(ts) ==> forall|k: int| 0 <= k < ts.len() ==> resolved(s, #[trigger] ts[k])
            && ids_below(ts[k], n),
{
    match t {
        TypeV::Func(l, r) => {
            assert forall|u: u32| #[trigger] occurs(u, *l) implies !bound(s, u) && u < n by { assert(occurs(u, t)); }
            assert forall|u: u32| #[trigger] occurs(u, *r) implies !bound(s, u) && u < n by { assert(occurs(u, t)); }
        },
        TypeV::Ref(i) => {
            assert forall|u: u32| #[trigger] occurs(u, *i) implies !bound(s, u) && u < n by { assert(occurs(u, t)); }
        },
        TypeV::Array(i, _) => {
            assert forall|u: u32| #[trigger] occurs(u, *i) implies !bound(s, u) && u < n by { assert(occurs(u, t)); }
        },
        TypeV::Tuple(ts) => {
            assert forall|k: int| 0 <= k < ts.len() implies resolved(s, #[trigger] ts[k]) && ids_below(ts[k], n) by {
                assert forall|u: u32| #[trigger] occurs(u, ts[k]) implies !bound(s, u) && u < n by {
                    lemma_occurs_seq(u, ts);
                    assert(occurs(u, t));
                }
            }
        },
        _ => {},
    }
}

/// Types once made the same stay the same: whatever later unifications
/// bind (successful or not), two types that the bindings made equal remain
/// equal.
pub proof fn law_unified_stays_unified(s: Subst, s2: Subst, x: TypeV, y: TypeV)
    requires
        refines(s, s2),
        apply(s, x) == apply(s, y),
    ensures
        apply(s2, x) == apply(s2, y),
{
    assert(apply(s2, apply(s, x)) == apply(s2, x));
    assert(apply(s2, apply(s, y)) == apply(s2, y));
}

/// Resolving a resolved type changes nothing.
pub proof fn law_resolving_twice(s: Subst, t: TypeV)
    requires
        wf(s),
    ensures
        apply(s, apply(s, t)) == apply(s, t),
{
    lemma_apply_idem(s, t);
}


/// What the bindings make of each unknown type made so far, by number.
pub open spec fn meaning(s: Subst) -> Seq<TypeV> {
    Seq::new(s.bind.len(), |x: int| apply(s, TypeV::Unknown(x as u32)))
}

/// `t` with each unknown type numbered below `m.len()` replaced by what `m`
/// gives for it.
pub open spec fn apply_m(m: Seq<TypeV>, t: TypeV) -> TypeV
    decreases t,
{
    match t {
        TypeV::Unknown(x) => if x < m.len() { m[x as int] } else { t },
        TypeV::Func(l, r) => TypeV::Func(Box::new(apply_m(m, *l)), Box::new(apply_m(m, *r))),
        TypeV::Ref(i) => TypeV::Ref(Box::new(apply_m(m, *i))),
        TypeV::Array(i, d) => TypeV::Array(Box::new(apply_m(m, *i)), d),
        TypeV::Tuple(ts) => TypeV::Tuple(apply_m_seq(m, ts)),
        _ => t,
    }
}

pub open spec fn apply_m_seq(m: Seq<TypeV>, ts: Seq<TypeV>) -> Seq<TypeV>
    decreases ts,
{
    if ts.len() == 0 {
        Seq::empty()
    } else {
        proof {
            assert(decreases_to!(ts => ts.subrange(0, ts.len() - 1)));
        }
        apply_m_seq(m, ts.drop_last()).push(apply_m(m, ts[ts.len() - 1]))
    }
}

/// What the bindings make of a type is given by what they make of each
/// unknown type.
pub proof fn lemma_apply_meaning(s: Subst, t: TypeV)
    requires
        wf(s),
    ensures
        apply(s, t) == apply_m(meaning(s), t),
    decreases t,
{
    match t {
        TypeV::Unknown(x) => {
            if (x as int) < s.bind.len() {
                assert(meaning(s)[x as int] == apply(s, TypeV::Unknown(x)));
            } else {
                assert(!bound(s, x));
            }
        },
        TypeV::Func(l, r) => {
            lemma_apply_meaning(s, *l);
            lemma_apply_meaning(s, *r);
        },
        TypeV::Ref(i) => lemma_apply_meaning(s, *i),
        TypeV::Array(i, _) => lemma_apply_meaning(s, *i),
        TypeV::Tuple(ts) => {
            assert(decreases_to!(t => ts));
            lemma_apply_meaning_seq(s, ts);
        },
        _ => {},
    }
}

pub proof fn lemma_apply_meaning_seq(s: Subst, ts: Seq<TypeV>)
    requires
        wf(s),
    ensures
        apply_seq(s, ts) == apply_m_seq(meaning(s), ts),
    decreases ts,
{
    if ts.len() > 0 {
        assert(decreases_to!(ts => ts.subrange(0, ts.len() - 1)));
        lemma_apply_meaning_seq(s, ts.drop_last());
        assert(decreases_to!(ts => ts[ts.len() - 1]));
        lemma_apply_meaning(s, ts[ts.len() - 1]);
    }
}

/// Bindings of the same meaning give the same meaning to every unknown type.
pub proof fn lemma_same_meaning_meaning(s: Subst, s2: Subst)
    requires
        same_meaning(s, s2),
    ensures
        meaning(s) == meaning(s2),
{
    assert(meaning(s) =~= meaning(s2));
}

} // verus!
