use vstd::prelude::*;
use super::{Type, TypeV};
use crate::text::{decimal, decimal_u64, string_push_str};
use super::inference::{Constraints, ConstraintsV, satisfies, kind_of, constraints_text, dims_text, dims_string};
use super::{view_types, lemma_view_types, unknown_name};
use super::subst::{
    Subst, wf, bound, binding, occurs, head, apply, apply_seq, rank, rank_seq,
    same_meaning, lemma_same_meaning_trans, lemma_rank_step, lemma_shortcut, lemma_head,
    lemma_apply_seq, lemma_rank_seq, occurs_seq, lemma_occurs_seq, ids_below, bind_to,
    lemma_bind_to, lemma_apply_resolved, lemma_extension_refines, lemma_apply_id,
    meaning, apply_m, lemma_apply_meaning, lemma_same_meaning_meaning,
};

verus! {

/// What type inference knows: what each unknown type it made was bound to,
/// and the constraints on each.
pub struct TypeMap {
    unifications: Vec<Option<Type>>,
    constraints: Vec<Constraints>,
    next_unknown_id: u32,
    order: Ghost<Seq<nat>>,
    clock: Ghost<nat>,
    node_type_map: Vec<Type>,
    instantiations: Vec<Option<Vec<Type>>>,
}

pub open spec fn instances_view(o: Option<Vec<Type>>) -> Option<Seq<TypeV>> {
    match o {
        Some(v) => Some(view_types(v@)),
        None => None,
    }
}

pub open spec fn binding_view(o: Option<Type>) -> Option<TypeV> {
    match o {
        Some(t) => Some(t@),
        None => None,
    }
}

impl TypeMap {
    /// The bindings, as values.
    pub closed spec fn subst(&self) -> Subst {
        Subst {
            bind: self.unifications@.map_values(|o: Option<Type>| binding_view(o)),
            order: self.order@,
            clock: self.clock@,
        }
    }

    /// The constraints on each unknown type, by id.
    pub closed spec fn constraints_view(&self) -> Seq<ConstraintsV> {
        self.constraints@.map_values(|c: Constraints| c@)
    }

    /// The number of unknown types made so far; the next one gets this id.
    pub closed spec fn next_id(&self) -> nat {
        self.next_unknown_id as nat
    }

    /// The type of each node, by the node's number.
    pub closed spec fn node_types(&self) -> Seq<TypeV> {
        self.node_type_map@.map_values(|t: Type| t@)
    }

    /// For each node, by its number: `None` where it is not generic, else
    /// the instances made of its type so far.
    pub closed spec fn generic_nodes(&self) -> Seq<Option<Seq<TypeV>>> {
        self.instantiations@.map_values(|o: Option<Vec<Type>>| instances_view(o))
    }

    /// Every node has a type and a generic mark, and its type names only
    /// unknown types made so far.
    pub closed spec fn nodes_ok(&self) -> bool {
        &&& self.node_type_map.len() == self.instantiations.len()
        &&& forall|i: int| 0 <= i < self.node_type_map.len() ==> ids_below(#[trigger] self.node_type_map@[i]@, self.next_unknown_id as nat)
    }

    /// Each node has a generic mark.
    pub proof fn lemma_generic_len(&self)
        requires
            self.nodes_ok(),
        ensures
            self.generic_nodes().len() == self.node_types().len(),
    {
    }

    /// The type of a node names only unknown types made so far.
    pub proof fn lemma_node_ids(&self, i: int)
        requires
            self.nodes_ok(),
            0 <= i < self.node_types().len(),
        ensures
            ids_below(self.node_types()[i], self.next_id()),
    {
        assert(self.node_types()[i] == self.node_type_map@[i]@);
    }

    /// The nodes, their types and their instances are those of `before`.
    /// The node types and generic marks are those of `before`.
    pub open spec fn same_nodes(&self, before: &TypeMap) -> bool {
        &&& self.node_types() == before.node_types()
        &&& self.generic_nodes() == before.generic_nodes()
    }

    /// Nodes that were in order stay so while their types, their marks and
    /// the number of unknown types stay the same.
    pub proof fn lemma_same_nodes_ok(&self, before: &TypeMap)
        requires
            before.nodes_ok(),
            self.same_nodes(before),
            self.next_id() == before.next_id(),
        ensures
            self.nodes_ok(),
    {
        assert(self.node_types().len() == before.node_types().len());
        assert(self.generic_nodes().len() == before.generic_nodes().len());
        assert forall|i: int| 0 <= i < self.node_type_map.len() implies ids_below(#[trigger] self.node_type_map@[i]@, self.next_unknown_id as nat) by {
            assert(self.node_types()[i] == self.node_type_map@[i]@);
            assert(before.node_types()[i] == before.node_type_map@[i]@);
        }
    }

    pub closed spec fn keeps_nodes(&self, before: &TypeMap) -> bool {
        &&& self.node_type_map@ == before.node_type_map@
        &&& self.instantiations@ == before.instantiations@
    }

    pub closed spec fn wf(&self) -> bool {
        &&& wf(self.subst())
        &&& self.unifications.len() == self.next_unknown_id
        &&& self.constraints.len() == self.next_unknown_id
    }

    pub proof fn lemma_wf(&self)
        requires
            self.wf(),
        ensures
            wf(self.subst()),
            self.subst().bind.len() == self.next_id(),
            self.constraints_view().len() == self.next_id(),
            self.next_id() <= u32::MAX,
    {
    }

    pub fn new() -> (r: Self)
        ensures
            r.wf(),
            r.nodes_ok(),
            r.next_id() == 0,
            r.node_types() == Seq::<TypeV>::empty(),
            r.generic_nodes() == Seq::<Option<Seq<TypeV>>>::empty(),
    {
        let r = TypeMap {
            unifications: Vec::new(),
            constraints: Vec::new(),
            next_unknown_id: 0,
            order: Ghost(Seq::empty()),
            clock: Ghost(0),
            node_type_map: Vec::new(),
            instantiations: Vec::new(),
        };
        proof {
            assert(r.subst().bind.len() == 0);
        }
        r
    }

    fn get_and_advance_unknown_id(&mut self) -> (id: u32)
        requires
            old(self).next_unknown_id < u32::MAX,
        ensures
            id == old(self).next_unknown_id,
            final(self).next_unknown_id == id + 1,
            final(self).unifications == old(self).unifications,
            final(self).constraints == old(self).constraints,
            final(self).order == old(self).order,
            final(self).clock == old(self).clock,
            final(self).keeps_nodes(old(self)),
    {
        let id = self.next_unknown_id;
        self.next_unknown_id = self.next_unknown_id + 1;
        id
    }

    /// Makes a new unknown type under the given constraints.
    pub fn new_unknown_with_constraint(&mut self, constraints: Constraints) -> (r: Type)
        requires
            old(self).wf(),
            old(self).next_id() < u32::MAX,
        ensures
            final(self).wf(),
            r@ == TypeV::Unknown(old(self).next_id() as u32),
            final(self).next_id() == old(self).next_id() + 1,
            final(self).subst().bind == old(self).subst().bind.push(None),
            final(self).subst().order == old(self).subst().order.push(0),
            final(self).subst().clock == old(self).subst().clock,
            final(self).constraints_view() == old(self).constraints_view().push(constraints@),
            final(self).keeps_nodes(old(self)),
            final(self).node_types() == old(self).node_types(),
            final(self).generic_nodes() == old(self).generic_nodes(),
            old(self).nodes_ok() ==> final(self).nodes_ok(),
    {
        let ghost s0 = self.subst();
        let ghost c0 = self.constraints_view();
        let id = self.get_and_advance_unknown_id();
        self.unifications.push(None);
        self.constraints.push(constraints);
        proof {
            if old(self).nodes_ok() {
                assert forall|i: int| 0 <= i < self.node_type_map.len() implies ids_below(#[trigger] self.node_type_map@[i]@, self.next_unknown_id as nat) by {
                    assert(ids_below(old(self).node_type_map@[i]@, old(self).next_unknown_id as nat));
                }
            }
            self.order@ = self.order@.push(0);
            assert(self.subst().bind =~= s0.bind.push(None));
            assert(self.constraints_view() =~= c0.push(constraints@));
            let s = self.subst();
            assert forall|x: u32| #[trigger] bound(s, x) implies bound(s0, x) && binding(s, x) == binding(s0, x) by {
                assert(x < s0.bind.len());
                assert(s.bind[x as int] == s0.bind[x as int]);
            }
            assert forall|x: u32, u: u32| bound(s, x) && #[trigger] occurs(u, binding(s, x)) implies {
                &&& u < s.bind.len()
                &&& (bound(s, u) ==> s.order[x as int] < s.order[u as int])
            } by {
                assert(bound(s0, x));
                if bound(s, u) {
                    assert(u < s0.bind.len());
                    assert(s.bind[u as int] == s0.bind[u as int]);
                    assert(bound(s0, u));
                }
            }
        }
        Type::Unknown(id)
    }

    /// Makes a new unknown type under no constraints.
    pub fn new_unknown(&mut self) -> (r: Type)
        requires
            old(self).wf(),
            old(self).next_id() < u32::MAX,
        ensures
            final(self).wf(),
            r@ == TypeV::Unknown(old(self).next_id() as u32),
            final(self).next_id() == old(self).next_id() + 1,
            final(self).subst().bind == old(self).subst().bind.push(None),
            final(self).subst().order == old(self).subst().order.push(0),
            final(self).subst().clock == old(self).subst().clock,
            final(self).constraints_view().len() == old(self).constraints_view().len() + 1,
            final(self).constraints_view().drop_last() == old(self).constraints_view(),
            final(self).constraints_view().last().allowed == Set::<super::inference::TypeKind>::empty(),
            final(self).constraints_view().last().disallowed == Set::<super::inference::TypeKind>::empty(),
            final(self).keeps_nodes(old(self)),
            final(self).node_types() == old(self).node_types(),
            final(self).generic_nodes() == old(self).generic_nodes(),
            old(self).nodes_ok() ==> final(self).nodes_ok(),
    {
        let r = self.new_unknown_with_constraint(Constraints::new());
        proof {
            assert(self.constraints_view().drop_last() =~= old(self).constraints_view());
        }
        r
    }

    /// A reference to a new unknown type under no constraints.
    pub fn new_unknown_ref(&mut self) -> (r: Type)
        requires
            old(self).wf(),
            old(self).next_id() < u32::MAX,
        ensures
            final(self).wf(),
            r@ == TypeV::Ref(Box::new(TypeV::Unknown(old(self).next_id() as u32))),
            final(self).next_id() == old(self).next_id() + 1,
            final(self).subst().bind == old(self).subst().bind.push(None),
            final(self).subst().order == old(self).subst().order.push(0),
            final(self).subst().clock == old(self).subst().clock,
            final(self).constraints_view().len() == old(self).constraints_view().len() + 1,
            final(self).constraints_view().drop_last() == old(self).constraints_view(),
    {
        let u = self.new_unknown();
        Type::new_ref(u)
    }

    pub fn get_int(&self) -> (r: Type)
        ensures
            r@ == TypeV::Int,
    {
        Type::Int
    }

    pub fn get_char(&self) -> (r: Type)
        ensures
            r@ == TypeV::Char,
    {
        Type::Char
    }

    pub fn get_bool(&self) -> (r: Type)
        ensures
            r@ == TypeV::Bool,
    {
        Type::Bool
    }

    pub fn get_float(&self) -> (r: Type)
        ensures
            r@ == TypeV::Float,
    {
        Type::Float
    }

    pub fn get_unit(&self) -> (r: Type)
        ensures
            r@ == TypeV::Unit,
    {
        Type::Unit
    }
}

impl TypeMap {
    /// Follows the chain of bindings from `ty` to its end, and binds the
    /// unknown types met on the way (but the first and the last) straight to
    /// that end.
    pub fn resolve_type(&mut self, ty: Type) -> (r: Type)
        requires
            old(self).wf(),
        ensures
            final(self).wf(),
            r@ == head(old(self).subst(), ty@),
            same_meaning(old(self).subst(), final(self).subst()),
            final(self).constraints_view() == old(self).constraints_view(),
            final(self).next_id() == old(self).next_id(),
            final(self).keeps_nodes(old(self)),
    {
        let ghost s0 = self.subst();
        let ghost h0 = head(s0, ty@);
        let mut type_ids: Vec<u32> = Vec::new();
        let mut retval = ty;
        loop
            invariant_except_break
                self.wf(),
                self.subst() == s0,
                self.keeps_nodes(old(self)),
                head(s0, retval@) == h0,
                forall|k: int| 0 <= k < type_ids.len() ==> bound(s0, #[trigger] type_ids@[k])
                    && head(s0, TypeV::Unknown(type_ids@[k])) == h0,
            ensures
                self.wf(),
                self.subst() == s0,
                self.keeps_nodes(old(self)),
                retval@ == h0,
                forall|k: int| 0 <= k < type_ids.len() - 1 ==> bound(s0, #[trigger] type_ids@[k])
                    && head(s0, TypeV::Unknown(type_ids@[k])) == h0,
            decreases rank(s0, retval@),
        {
            let id: u32 = match &retval {
                Type::Unknown(id) => *id,
                _ => break,
            };
            type_ids.push(id);
            if (id as usize) < self.unifications.len() {
                match &self.unifications[id as usize] {
                    Some(next) => {
                        proof {
                            assert(bound(s0, id));
                            assert(binding(s0, id) == next@);
                            lemma_rank_step(s0, id);
                        }
                        retval = next.clone();
                    },
                    None => {
                        proof {
                            assert(!bound(s0, id));
                        }
                        break;
                    },
                }
            } else {
                break;
            }
        }
        if type_ids.len() > 1 {
            let last = type_ids.len() - 1;
            let mut j: usize = 1;
            while j < last
                invariant
                    wf(s0),
                    last == type_ids.len() - 1,
                    1 <= j <= last,
                    retval@ == h0,
                    forall|k: int| 0 <= k < type_ids.len() - 1 ==> bound(s0, #[trigger] type_ids@[k])
                        && head(s0, TypeV::Unknown(type_ids@[k])) == h0,
                    self.unifications.len() == s0.bind.len(),
                    self.order@ == s0.order,
                    self.clock@ == s0.clock,
                    self.constraints@ == old(self).constraints@,
                    self.keeps_nodes(old(self)),
                    self.next_unknown_id == old(self).next_unknown_id,
                    self.unifications.len() == self.next_unknown_id,
                    self.constraints.len() == self.next_unknown_id,
                    forall|y: u32| y < s0.bind.len() ==> #[trigger] self.subst().bind[y as int] == s0.bind[y as int]
                        || (bound(s0, y) && head(s0, TypeV::Unknown(y)) == h0 && self.subst().bind[y as int] == Some(h0)),
                decreases last - j,
            {
                let id = type_ids[j];
                proof {
                    assert(bound(s0, id));
                }
                let ghost before = self.subst();
                self.unifications.set(id as usize, Some(retval.clone()));
                proof {
                    assert forall|y: u32| y < s0.bind.len() implies #[trigger] self.subst().bind[y as int] == s0.bind[y as int]
                        || (bound(s0, y) && head(s0, TypeV::Unknown(y)) == h0 && self.subst().bind[y as int] == Some(h0)) by {
                        if y != id {
                            assert(self.subst().bind[y as int] == before.bind[y as int]);
                        }
                    }
                }
                j += 1;
            }
        }
        proof {
            lemma_shortcut(s0, self.subst(), h0);
        }
        retval
    }

    /// Resolves `ty` and every type inside it: what the bindings give.
    pub fn deep_resolve_type(&mut self, ty: Type) -> (r: Type)
        requires
            old(self).wf(),
        ensures
            final(self).wf(),
            r@ == apply(old(self).subst(), ty@),
            same_meaning(old(self).subst(), final(self).subst()),
            final(self).constraints_view() == old(self).constraints_view(),
            final(self).next_id() == old(self).next_id(),
            final(self).keeps_nodes(old(self)),
            final(self).same_nodes(old(self)),
        decreases rank(old(self).subst(), ty@), ty@,
    {
        let ghost s0 = self.subst();
        let ghost tv = ty@;
        let ty2 = self.resolve_type(ty);
        proof {
            lemma_head(s0, tv);
            if let TypeV::Unknown(x) = tv {
                if bound(s0, x) {
                    lemma_rank_step(s0, x);
                    lemma_head(s0, binding(s0, x));
                }
            }
            assert(rank(s0, ty2@) < rank(s0, tv) || ty2@ == tv);
        }
        match ty2 {
            Type::Func { lhs, rhs } => {
                let ghost s1 = self.subst();
                proof {
                    assert(decreases_to!(ty2@ => (*lhs)@));
                }
                let l = self.deep_resolve_type(*lhs);
                let ghost s2 = self.subst();
                proof {
                    lemma_same_meaning_trans(s0, s1, s2);
                    assert(decreases_to!(ty2@ => (*rhs)@));
                }
                let r = self.deep_resolve_type(*rhs);
                proof {
                    lemma_same_meaning_trans(s0, s2, self.subst());
                }
                Type::new_func(l, r)
            },
            Type::Ref(inner) => {
                proof {
                    assert(decreases_to!(ty2@ => (*inner)@));
                }
                let i = self.deep_resolve_type(*inner);
                Type::new_ref(i)
            },
            Type::Array { inner, dim_cnt } => {
                proof {
                    assert(decreases_to!(ty2@ => (*inner)@));
                }
                let i = self.deep_resolve_type(*inner);
                Type::new_array(i, dim_cnt)
            },
            Type::Tuple(types) => {
                let ghost vs = view_types(types@);
                proof {
                    lemma_view_types(types@);
                    lemma_rank_seq(s0, vs);
                    lemma_apply_seq(s0, vs);
                }
                let mut out: Vec<Type> = Vec::new();
                let mut i: usize = 0;
                while i < types.len()
                    invariant
                        self.wf(),
                        s0 == old(self).subst(),
                        tv == ty@,
                        same_meaning(s0, self.subst()),
                        self.constraints_view() == old(self).constraints_view(),
                        self.next_id() == old(self).next_id(),
                        self.keeps_nodes(old(self)),
                        vs == view_types(types@),
                        ty2@ == TypeV::Tuple(vs),
                        rank(s0, ty2@) < rank(s0, tv) || ty2@ == tv,
                        rank(s0, ty2@) == rank_seq(s0, vs),
                        vs.len() == types.len(),
                        forall|k: int| 0 <= k < types.len() ==> #[trigger] vs[k] == view_type_of(types@[k]),
                        forall|k: int| 0 <= k < vs.len() ==> #[trigger] rank(s0, vs[k]) <= rank_seq(s0, vs),
                        i <= types.len(),
                        out.len() == i,
                        forall|k: int| 0 <= k < i ==> #[trigger] super::view_type(out@[k]) == apply(s0, vs[k]),
                    decreases types.len() - i,
                {
                    let ghost si = self.subst();
                    proof {
                        assert(vs[i as int] == types@[i as int]@);
                        assert(decreases_to!(ty2@ => vs));
                        assert(decreases_to!(vs => vs[i as int]));
                        assert(decreases_to!(ty2@ => vs[i as int]));
                        assert(rank(si, types@[i as int]@) == rank(s0, types@[i as int]@));
                    }
                    let arg = types[i].clone();
                    proof {
                        assert(arg@ == vs[i as int]);
                        assert(rank(s0, arg@) <= rank(s0, ty2@));
                        assert(decreases_to!(rank(s0, tv), tv => rank(si, arg@), arg@));
                    }
                    let e = self.deep_resolve_type(arg);
                    proof {
                        lemma_same_meaning_trans(s0, si, self.subst());
                    }
                    out.push(e);
                    i += 1;
                }
                proof {
                    lemma_view_types(out@);
                    lemma_apply_seq(s0, vs);
                    assert(view_types(out@) =~= apply_seq(s0, vs));
                }
                Type::new_tuple(out)
            },
            other => other,
        }
    }
}

/// Whether the unknown type `id` occurs in `ty`.
pub fn occurs_in(id: u32, ty: &Type) -> (r: bool)
    ensures
        r == occurs(id, ty@),
    decreases ty,
{
    match ty {
        Type::Unknown(x) => *x == id,
        Type::Func { lhs, rhs } => occurs_in(id, lhs) || occurs_in(id, rhs),
        Type::Ref(inner) => occurs_in(id, inner),
        Type::Array { inner, .. } => occurs_in(id, inner),
        Type::Tuple(types) => {
            proof {
                lemma_view_types(types@);
                lemma_occurs_seq(id, view_types(types@));
            }
            let mut i: usize = 0;
            while i < types.len()
                invariant
                    *ty == Type::Tuple(*types),
                    i <= types.len(),
                    view_types(types@).len() == types.len(),
                    forall|k: int| 0 <= k < types.len() ==> #[trigger] view_types(types@)[k] == super::view_type(types@[k]),
                    occurs_seq(id, view_types(types@)) <==> exists|k: int| 0 <= k < types.len() && #[trigger] occurs(id, view_types(types@)[k]),
                    forall|k: int| 0 <= k < i ==> !#[trigger] occurs(id, super::view_type(types@[k])),
                decreases types.len() - i,
            {
                proof {
                    assert(decreases_to!(*types => types@[i as int]));
                    assert(decreases_to!(*ty => ty->0));
                    assert(ty->0 == *types);
                }
                if occurs_in(id, &types[i]) {
                    proof {
                        assert(occurs(id, view_types(types@)[i as int]));
                    }
                    return true;
                }
                i += 1;
            }
            proof {
                if occurs_seq(id, view_types(types@)) {
                    let k = choose|k: int| 0 <= k < types.len() && #[trigger] occurs(id, view_types(types@)[k]);
                    assert(!occurs(id, super::view_type(types@[k])));
                }
            }
            false
        },
        _ => false,
    }
}

/// Writes `n` in decimal.
pub fn decimal_string(n: u32) -> (r: String)
    ensures
        r@ == decimal(n as nat),
{
    decimal_u64(n as u64)
}


pub open spec fn constraints_message() -> Seq<char> {
    "Constraints violated"@
}

pub open spec fn occurs_message() -> Seq<char> {
    "Occurs check failed, recursive unknown type implied"@
}

impl TypeMap {
    /// Whether the unknown type `unknown_id` may become `resolved` under
    /// its constraints.
    pub fn fulfills_constraints(&self, unknown_id: u32, resolved: &Type) -> (r: bool)
        requires
            self.wf(),
            unknown_id < self.next_id(),
        ensures
            r == satisfies(self.constraints_view()[unknown_id as int], kind_of(resolved@)),
    {
        self.constraints[unknown_id as usize].are_satisfied_by(resolved)
    }

    /// Binds the unbound unknown type `unknown` to `resolved`, which holds
    /// no bound unknown type: refused when the constraints on `unknown` do
    /// not allow a type of that kind, or when `unknown` occurs in
    /// `resolved`. When `resolved` is itself an unknown type, it takes on
    /// the constraints of `unknown` as well.
    pub fn try_add_resolution(&mut self, unknown: Type, resolved: Type) -> (r: Result<(), String>)
        requires
            old(self).wf(),
            unknown@ is Unknown,
            (unknown@->Unknown_0) < old(self).next_id(),
            !bound(old(self).subst(), unknown@->Unknown_0),
            super::subst::resolved(old(self).subst(), resolved@),
            ids_below(resolved@, old(self).next_id()),
        ensures
            final(self).wf(),
            final(self).next_id() == old(self).next_id(),
            final(self).same_nodes(old(self)),
            ({
                let a = unknown@->Unknown_0;
                let c = old(self).constraints_view()[a as int];
                let ok = satisfies(c, kind_of(resolved@)) && !occurs(a, resolved@);
                &&& (r is Ok <==> ok)
                &&& (r matches Err(m) ==> {
                    &&& final(self).subst() == old(self).subst()
                    &&& final(self).constraints_view() == old(self).constraints_view()
                    &&& m@ == if !satisfies(c, kind_of(resolved@)) { constraints_message() } else { occurs_message() }
                })
                &&& (r is Ok ==> {
                    &&& final(self).subst() == bind_to(old(self).subst(), a, resolved@)
                    &&& final(self).constraints_view() == match resolved@ {
                        TypeV::Unknown(b) => old(self).constraints_view().update(b as int, ConstraintsV {
                            allowed: old(self).constraints_view()[b as int].allowed.union(c.allowed),
                            disallowed: old(self).constraints_view()[b as int].disallowed.union(c.disallowed),
                        }),
                        _ => old(self).constraints_view(),
                    }
                })
            }),
    {
        let unknown_id = match &unknown {
            Type::Unknown(id) => *id,
            _ => {
                proof {
                    assert(false);
                }
                0
            },
        };
        if !self.fulfills_constraints(unknown_id, &resolved) {
            return Err("Constraints violated".to_owned());
        }
        if occurs_in(unknown_id, &resolved) {
            return Err("Occurs check failed, recursive unknown type implied".to_owned());
        }
        let ghost s0 = self.subst();
        let ghost c0 = self.constraints_view();
        if let Type::Unknown(b) = &resolved {
            proof {
                assert(occurs(*b, resolved@));
            }
            let unknown_constraints = self.constraints[unknown_id as usize].clone();
            let mut merged = self.constraints[*b as usize].clone();
            merged.consolidate(&unknown_constraints);
            self.constraints.set(*b as usize, merged);
            proof {
                assert(self.constraints_view() =~= c0.update(*b as int, ConstraintsV {
                    allowed: c0[*b as int].allowed.union(c0[unknown_id as int].allowed),
                    disallowed: c0[*b as int].disallowed.union(c0[unknown_id as int].disallowed),
                }));
            }
        }
        self.unifications.set(unknown_id as usize, Some(resolved));
        proof {
            self.order@ = self.order@.update(unknown_id as int, self.clock@);
            self.clock@ = self.clock@ + 1;
            lemma_bind_to(s0, unknown_id, resolved@);
            assert(self.subst().bind =~= bind_to(s0, unknown_id, resolved@).bind);
        }
        Ok(())
    }
}

pub open spec fn view_type_of(t: Type) -> TypeV {
    t@
}


/// How a type reads, an unknown type with its name and the constraints
/// that `cs` keep for it.
pub open spec fn type_text(t: TypeV, cs: Seq<Constraints>) -> Seq<char>
    decreases t,
{
    match t {
        TypeV::Unknown(u) => "'"@ + unknown_name(u as nat)
            + constraints_text(cs[u as int].allowed_kinds(), cs[u as int].disallowed_kinds()),
        TypeV::Unit => "unit"@,
        TypeV::Int => "int"@,
        TypeV::Char => "char"@,
        TypeV::Bool => "bool"@,
        TypeV::Float => "float"@,
        TypeV::Func(l, r) => type_text(*l, cs) + " -> ("@ + type_text(*r, cs) + ")"@,
        TypeV::Ref(i) => "("@ + type_text(*i, cs) + " ref)"@,
        TypeV::Array(i, d) => type_text(*i, cs) + "["@ + dims_text(d) + "]"@,
        TypeV::Tuple(ts) => "("@ + types_text(ts, cs) + ")"@,
        TypeV::Custom(id) => id,
    }
}

/// How types read, separated by commas.
pub open spec fn types_text(ts: Seq<TypeV>, cs: Seq<Constraints>) -> Seq<char>
    decreases ts,
{
    if ts.len() == 0 {
        Seq::empty()
    } else if ts.len() == 1 {
        type_text(ts[0], cs)
    } else {
        proof {
            assert(decreases_to!(ts => ts.subrange(0, ts.len() - 1)));
        }
        types_text(ts.drop_last(), cs) + ", "@ + type_text(ts[ts.len() - 1], cs)
    }
}

impl TypeMap {
    /// The constraints kept for each unknown type, by its number.
    pub closed spec fn constraints_seq(&self) -> Seq<Constraints> {
        self.constraints@
    }

    /// How a type reads, an unknown type with its name and its
    /// constraints.
    pub fn type_text(&self, t: &Type) -> (r: String)
        requires
            self.wf(),
            ids_below(t@, self.next_id() as nat),
        ensures
            r@ == type_text(t@, self.constraints_seq()),
        decreases t,
    {
        let mut s = String::new();
        match t {
            Type::Unknown(u) => {
                proof {
                    assert(occurs(*u, t@));
                }
                string_push_str(&mut s, "'");
                let name = Type::unknown_id_to_name(*u);
                string_push_str(&mut s, name.as_str());
                let cs = self.constraints[*u as usize].text();
                string_push_str(&mut s, cs.as_str());
            },
            Type::Unit => string_push_str(&mut s, "unit"),
            Type::Int => string_push_str(&mut s, "int"),
            Type::Char => string_push_str(&mut s, "char"),
            Type::Bool => string_push_str(&mut s, "bool"),
            Type::Float => string_push_str(&mut s, "float"),
            Type::Func { lhs, rhs } => {
                proof {
                    assert forall|u: u32| #[trigger] occurs(u, lhs@) implies u < self.next_id() by {
                        assert(occurs(u, t@));
                    }
                    assert forall|u: u32| #[trigger] occurs(u, rhs@) implies u < self.next_id() by {
                        assert(occurs(u, t@));
                    }
                }
                let l = self.type_text(lhs);
                let r = self.type_text(rhs);
                string_push_str(&mut s, l.as_str());
                string_push_str(&mut s, " -> (");
                string_push_str(&mut s, r.as_str());
                string_push_str(&mut s, ")");
            },
            Type::Ref(inner) => {
                proof {
                    assert forall|u: u32| #[trigger] occurs(u, inner@) implies u < self.next_id() by {
                        assert(occurs(u, t@));
                    }
                }
                let i = self.type_text(inner);
                string_push_str(&mut s, "(");
                string_push_str(&mut s, i.as_str());
                string_push_str(&mut s, " ref)");
            },
            Type::Array { inner, dim_cnt } => {
                proof {
                    assert forall|u: u32| #[trigger] occurs(u, inner@) implies u < self.next_id() by {
                        assert(occurs(u, t@));
                    }
                }
                let i = self.type_text(inner);
                let d = dims_string(dim_cnt);
                string_push_str(&mut s, i.as_str());
                string_push_str(&mut s, "[");
                string_push_str(&mut s, d.as_str());
                string_push_str(&mut s, "]");
            },
            Type::Tuple(ts) => {
                proof {
                    lemma_view_types(ts@);
                }
                string_push_str(&mut s, "(");
                let ghost open_paren = s@;
                let mut i: usize = 0;
                while i < ts.len()
                    invariant
                        i <= ts.len(),
                        self.wf(),
                        ids_below(t@, self.next_id() as nat),
                        *t == Type::Tuple(*ts),
                        t@ == TypeV::Tuple(view_types(ts@)),
                        view_types(ts@).len() == ts@.len(),
                        forall|k: int| 0 <= k < ts.len() ==> #[trigger] view_types(ts@)[k] == ts@[k]@,
                        s@ == open_paren + types_text(view_types(ts@).take(i as int), self.constraints_seq()),
                    decreases ts.len() - i,
                {
                    proof {
                        vstd::std_specs::vec::axiom_vec_index_decreases(*ts, i as int);
                        assert(decreases_to!(*t => (*t)->Tuple_0));
                        assert forall|u: u32| #[trigger] occurs(u, ts@[i as int]@) implies u < self.next_id() by {
                            lemma_occurs_seq(u, view_types(ts@));
                            assert(occurs(u, view_types(ts@)[i as int]));
                            assert(occurs(u, t@));
                        }
                    }
                    let text = self.type_text(&ts[i]);
                    if i > 0 {
                        string_push_str(&mut s, ", ");
                    }
                    string_push_str(&mut s, text.as_str());
                    proof {
                        let vs = view_types(ts@);
                        assert(vs.take(i + 1).drop_last() =~= vs.take(i as int));
                        if i == 0 {
                            assert(types_text(vs.take(0), self.constraints_seq()) =~= Seq::<char>::empty());
                        }
                        assert(s@ =~= open_paren + types_text(vs.take(i + 1), self.constraints_seq()));
                    }
                    i += 1;
                }
                proof {
                    assert(view_types(ts@).take(ts.len() as int) =~= view_types(ts@));
                }
                string_push_str(&mut s, ")");
            },
            Type::Custom { id } => string_push_str(&mut s, id.as_str()),
        }
        proof {
            assert(s@ =~= type_text(t@, self.constraints_seq()));
        }
        s
    }
}


pub proof fn lemma_unknowns_count_seq_prefix(ts: Seq<TypeV>, i: int)
    requires
        0 < i <= ts.len(),
    ensures
        unknowns_count_seq(ts.take(i)) == unknowns_count_seq(ts.take(i - 1)) + unknowns_count(ts[i - 1]),
        unknowns_count_seq(ts.take(i)) <= unknowns_count_seq(ts),
    decreases ts.len(),
{
    assert(ts.take(i).drop_last() =~= ts.take(i - 1));
    if i < ts.len() {
        lemma_unknowns_count_seq_prefix(ts.drop_last(), i);
        assert(ts.drop_last().take(i) =~= ts.take(i));
        assert(ts.drop_last().take(i - 1) =~= ts.take(i - 1));
    } else {
        assert(ts.take(i) =~= ts);
    }
}

/// The number `u` is renamed to by the pairs, if any.
pub open spec fn renamed(mp: Seq<(u32, u32)>, u: u32) -> Option<u32>
    decreases mp.len(),
{
    if mp.len() == 0 {
        None
    } else if mp.last().0 == u {
        Some(mp.last().1)
    } else {
        renamed(mp.drop_last(), u)
    }
}

/// The type with each unknown type that the pairs name replaced by the one
/// they rename it to.
pub open spec fn rename(t: TypeV, mp: Seq<(u32, u32)>) -> TypeV
    decreases t,
{
    match t {
        TypeV::Unknown(u) => match renamed(mp, u) {
            Some(v) => TypeV::Unknown(v),
            None => TypeV::Unknown(u),
        },
        TypeV::Func(l, r) => TypeV::Func(Box::new(rename(*l, mp)), Box::new(rename(*r, mp))),
        TypeV::Ref(i) => TypeV::Ref(Box::new(rename(*i, mp))),
        TypeV::Array(i, d) => TypeV::Array(Box::new(rename(*i, mp)), d),
        TypeV::Tuple(ts) => TypeV::Tuple(rename_seq(ts, mp)),
        _ => t,
    }
}

pub open spec fn rename_seq(ts: Seq<TypeV>, mp: Seq<(u32, u32)>) -> Seq<TypeV>
    decreases ts,
{
    if ts.len() == 0 {
        Seq::empty()
    } else {
        proof {
            assert(decreases_to!(ts => ts.subrange(0, ts.len() - 1)));
        }
        rename_seq(ts.drop_last(), mp).push(rename(ts[ts.len() - 1], mp))
    }
}

/// How many times unknown types occur in a type.
pub open spec fn unknowns_count(t: TypeV) -> nat
    decreases t,
{
    match t {
        TypeV::Unknown(_) => 1,
        TypeV::Func(l, r) => unknowns_count(*l) + unknowns_count(*r),
        TypeV::Ref(i) => unknowns_count(*i),
        TypeV::Array(i, _) => unknowns_count(*i),
        TypeV::Tuple(ts) => unknowns_count_seq(ts),
        _ => 0,
    }
}

pub open spec fn unknowns_count_seq(ts: Seq<TypeV>) -> nat
    decreases ts,
{
    if ts.len() == 0 {
        0
    } else {
        proof {
            assert(decreases_to!(ts => ts.subrange(0, ts.len() - 1)));
        }
        unknowns_count_seq(ts.drop_last()) + unknowns_count(ts[ts.len() - 1])
    }
}

/// The pairs rename distinct unknown types below `base` to the new ones
/// numbered from `base` on, in order, each under the constraints of the one
/// it renames.
pub open spec fn fresh_renaming(mp: Seq<(u32, u32)>, base: nat, next: nat, cs: Seq<ConstraintsV>) -> bool {
    &&& next == base + mp.len()
    &&& cs.len() == next
    &&& forall|i: int| 0 <= i < mp.len() ==> (#[trigger] mp[i]).1 == base + i && mp[i].0 < base
    &&& forall|i: int, j: int| 0 <= i < mp.len() && 0 <= j < mp.len() && i != j ==> (#[trigger] mp[i]).0 != (#[trigger] mp[j]).0
    &&& forall|i: int| 0 <= i < mp.len() ==> cs[base + i] == cs[(#[trigger] mp[i]).0 as int]
}

/// The numbers that the pairs rename, in order.
pub open spec fn keys_of(mp: Seq<(u32, u32)>) -> Seq<u32> {
    mp.map_values(|p: (u32, u32)| p.0)
}

/// `seen` followed by the unknown types of `t` that it lacks, in the order
/// in which they first occur, left to right.
pub open spec fn first_seen(t: TypeV, seen: Seq<u32>) -> Seq<u32>
    decreases t,
{
    match t {
        TypeV::Unknown(u) => if seen.contains(u) { seen } else { seen.push(u) },
        TypeV::Func(l, r) => first_seen(*r, first_seen(*l, seen)),
        TypeV::Ref(i) => first_seen(*i, seen),
        TypeV::Array(i, _) => first_seen(*i, seen),
        TypeV::Tuple(ts) => first_seen_seq(ts, seen),
        _ => seen,
    }
}

pub open spec fn first_seen_seq(ts: Seq<TypeV>, seen: Seq<u32>) -> Seq<u32>
    decreases ts,
{
    if ts.len() == 0 {
        seen
    } else {
        proof {
            assert(decreases_to!(ts => ts.subrange(0, ts.len() - 1)));
        }
        first_seen(ts[ts.len() - 1], first_seen_seq(ts.drop_last(), seen))
    }
}

/// Pairs that rename the numbers in order to the new ones from `base` on.
pub open spec fn fresh_pairs(ks: Seq<u32>, base: nat) -> Seq<(u32, u32)> {
    Seq::new(ks.len(), |i: int| (ks[i], (base + i) as u32))
}

pub proof fn lemma_renamed(mp: Seq<(u32, u32)>, u: u32)
    ensures
        renamed(mp, u) is Some <==> exists|i: int| 0 <= i < mp.len() && (#[trigger] mp[i]).0 == u,
        renamed(mp, u) matches Some(v) ==> exists|i: int| 0 <= i < mp.len() && (#[trigger] mp[i]).0 == u && mp[i].1 == v,
    decreases mp.len(),
{
    if mp.len() > 0 {
        lemma_renamed(mp.drop_last(), u);
        if mp.last().0 != u {
            assert forall|i: int| 0 <= i < mp.len() && (#[trigger] mp[i]).0 == u implies i < mp.len() - 1
                && mp.drop_last()[i].0 == u by {}
        }
    }
}

/// Adding a pair for a number that has none keeps what the others are
/// renamed to.
pub proof fn lemma_renamed_push(mp: Seq<(u32, u32)>, p: (u32, u32), u: u32)
    ensures
        renamed(mp.push(p), u) == if p.0 == u { Some(p.1) } else { renamed(mp, u) },
{
    assert(mp.push(p).drop_last() =~= mp);
}

/// What was seen stays seen, and every unknown type of `t` is seen after it.
pub proof fn lemma_first_seen_covers(t: TypeV, seen: Seq<u32>)
    ensures
        forall|x: u32| seen.contains(x) ==> #[trigger] first_seen(t, seen).contains(x),
        forall|x: u32| #[trigger] occurs(x, t) ==> first_seen(t, seen).contains(x),
    decreases t,
{
    match t {
        TypeV::Unknown(u) => {
            let r = first_seen(t, seen);
            if !seen.contains(u) {
                assert(r == seen.push(u));
                assert forall|x: u32| seen.contains(x) implies #[trigger] r.contains(x) by {
                    let k = choose|k: int| 0 <= k < seen.len() && seen[k] == x;
                    assert(r[k] == x);
                }
                assert(r[seen.len() as int] == u);
            }
            assert forall|x: u32| #[trigger] occurs(x, t) implies r.contains(x) by {
                assert(x == u);
                if !seen.contains(u) {
                    assert(r[seen.len() as int] == u);
                }
            }
        },
        TypeV::Func(l, r) => {
            let s1 = first_seen(*l, seen);
            lemma_first_seen_covers(*l, seen);
            lemma_first_seen_covers(*r, s1);
            assert(first_seen(t, seen) == first_seen(*r, s1));
            assert forall|x: u32| seen.contains(x) implies #[trigger] first_seen(t, seen).contains(x) by {
                assert(s1.contains(x));
                assert(first_seen(*r, s1).contains(x));
            }
            assert forall|x: u32| #[trigger] occurs(x, t) implies first_seen(t, seen).contains(x) by {
                if occurs(x, *l) {
                    assert(s1.contains(x));
                    assert(first_seen(*r, s1).contains(x));
                } else {
                    assert(occurs(x, *r));
                    assert(first_seen(*r, s1).contains(x));
                }
            }
        },
        TypeV::Ref(i) => {
            lemma_first_seen_covers(*i, seen);
            assert(first_seen(t, seen) == first_seen(*i, seen));
            assert(forall|x: u32| occurs(x, t) == occurs(x, *i));
        },
        TypeV::Array(i, _) => {
            lemma_first_seen_covers(*i, seen);
            assert(first_seen(t, seen) == first_seen(*i, seen));
            assert(forall|x: u32| occurs(x, t) == occurs(x, *i));
        },
        TypeV::Tuple(ts) => {
            lemma_first_seen_seq_covers(ts, seen);
            assert(first_seen(t, seen) == first_seen_seq(ts, seen));
            assert(forall|x: u32| occurs(x, t) == occurs_seq(x, ts));
        },
        _ => {
            assert(first_seen(t, seen) == seen);
            assert(forall|x: u32| !occurs(x, t));
        },
    }
}

pub proof fn lemma_first_seen_seq_covers(ts: Seq<TypeV>, seen: Seq<u32>)
    ensures
        forall|x: u32| seen.contains(x) ==> #[trigger] first_seen_seq(ts, seen).contains(x),
        forall|x: u32| #[trigger] occurs_seq(x, ts) ==> first_seen_seq(ts, seen).contains(x),
    decreases ts,
{
    if ts.len() > 0 {
        assert(decreases_to!(ts => ts.subrange(0, ts.len() - 1)));
        let s1 = first_seen_seq(ts.drop_last(), seen);
        lemma_first_seen_seq_covers(ts.drop_last(), seen);
        lemma_first_seen_covers(ts[ts.len() - 1], s1);
        let last = ts[ts.len() - 1];
        assert(first_seen_seq(ts, seen) == first_seen(last, s1));
        assert forall|x: u32| seen.contains(x) implies #[trigger] first_seen_seq(ts, seen).contains(x) by {
            assert(s1.contains(x));
            assert(first_seen(last, s1).contains(x));
        }
        assert forall|x: u32| #[trigger] occurs_seq(x, ts) implies first_seen_seq(ts, seen).contains(x) by {
            if occurs_seq(x, ts.drop_last()) {
                assert(s1.contains(x));
                assert(first_seen(last, s1).contains(x));
            } else {
                assert(occurs(x, last));
                assert(first_seen(last, s1).contains(x));
            }
        }
    }
}

/// Each unknown type of a renamed type comes from one of the type: what
/// the pairs rename that one to, or that one itself where they do not.
pub proof fn lemma_rename_occurs(t: TypeV, mp: Seq<(u32, u32)>, u: u32)
    requires
        occurs(u, rename(t, mp)),
    ensures
        exists|x: u32| #[trigger] occurs(x, t) && (renamed(mp, x) == Some(u) || (renamed(mp, x) is None && x == u)),
    decreases t,
{
    match t {
        TypeV::Unknown(x) => {
            assert(occurs(x, t));
        },
        TypeV::Func(l, r) => {
            if occurs(u, rename(*l, mp)) {
                lemma_rename_occurs(*l, mp, u);
                let x = choose|x: u32| #[trigger] occurs(x, *l) && (renamed(mp, x) == Some(u) || (renamed(mp, x) is None && x == u));
                assert(occurs(x, t));
            } else {
                lemma_rename_occurs(*r, mp, u);
                let x = choose|x: u32| #[trigger] occurs(x, *r) && (renamed(mp, x) == Some(u) || (renamed(mp, x) is None && x == u));
                assert(occurs(x, t));
            }
        },
        TypeV::Ref(i) => {
            lemma_rename_occurs(*i, mp, u);
            let x = choose|x: u32| #[trigger] occurs(x, *i) && (renamed(mp, x) == Some(u) || (renamed(mp, x) is None && x == u));
            assert(occurs(x, t));
        },
        TypeV::Array(i, _) => {
            lemma_rename_occurs(*i, mp, u);
            let x = choose|x: u32| #[trigger] occurs(x, *i) && (renamed(mp, x) == Some(u) || (renamed(mp, x) is None && x == u));
            assert(occurs(x, t));
        },
        TypeV::Tuple(ts) => {
            lemma_rename_seq_occurs(ts, mp, u);
            let x = choose|x: u32| #[trigger] occurs_seq(x, ts) && (renamed(mp, x) == Some(u) || (renamed(mp, x) is None && x == u));
            assert(occurs(x, t));
        },
        _ => {},
    }
}

pub proof fn lemma_rename_seq_occurs(ts: Seq<TypeV>, mp: Seq<(u32, u32)>, u: u32)
    requires
        occurs_seq(u, rename_seq(ts, mp)),
    ensures
        exists|x: u32| #[trigger] occurs_seq(x, ts) && (renamed(mp, x) == Some(u) || (renamed(mp, x) is None && x == u)),
    decreases ts,
{
    assert(ts.len() > 0);
    assert(decreases_to!(ts => ts.subrange(0, ts.len() - 1)));
    let rs = rename_seq(ts, mp);
    assert(rs.drop_last() == rename_seq(ts.drop_last(), mp));
    if occurs_seq(u, rs.drop_last()) {
        lemma_rename_seq_occurs(ts.drop_last(), mp, u);
        let x = choose|x: u32| #[trigger] occurs_seq(x, ts.drop_last()) && (renamed(mp, x) == Some(u) || (renamed(mp, x) is None && x == u));
        assert(occurs_seq(x, ts));
    } else {
        lemma_rename_occurs(ts[ts.len() - 1], mp, u);
        let x = choose|x: u32| #[trigger] occurs(x, ts[ts.len() - 1]) && (renamed(mp, x) == Some(u) || (renamed(mp, x) is None && x == u));
        assert(occurs_seq(x, ts));
    }
}

/// An instance of a type names only the new unknown types, from `base` on:
/// none of the type it was made from.
pub proof fn law_instance_is_fresh(t: TypeV, base: nat, u: u32)
    requires
        base + first_seen(t, Seq::empty()).len() <= u32::MAX,
        occurs(u, rename(t, fresh_pairs(first_seen(t, Seq::empty()), base))),
    ensures
        base <= u < base + first_seen(t, Seq::empty()).len(),
{
    let ks = first_seen(t, Seq::empty());
    let mp = fresh_pairs(ks, base);
    lemma_rename_occurs(t, mp, u);
    let x = choose|x: u32| #[trigger] occurs(x, t) && (renamed(mp, x) == Some(u) || (renamed(mp, x) is None && x == u));
    lemma_first_seen_covers(t, Seq::empty());
    assert(ks.contains(x));
    let k = choose|k: int| 0 <= k < ks.len() && ks[k] == x;
    assert(mp[k].0 == x);
    lemma_renamed(mp, x);
    assert(renamed(mp, x) is Some);
    let i = choose|i: int| 0 <= i < mp.len() && (#[trigger] mp[i]).0 == x && mp[i].1 == u;
    assert(mp[i].1 == (base + i) as u32);
}

impl TypeMap {
    /// Where `u` is renamed to by the pairs, if anywhere.
    fn renamed_to(mp: &Vec<(u32, u32)>, u: u32) -> (r: Option<u32>)
        ensures
            r == renamed(mp@, u),
    {
        let mut i = mp.len();
        proof {
            assert(mp@.take(mp.len() as int) =~= mp@);
        }
        while i > 0
            invariant
                i <= mp.len(),
                renamed(mp@, u) == renamed(mp@.take(i as int), u),
            decreases i,
        {
            proof {
                assert(mp@.take(i as int).drop_last() =~= mp@.take(i - 1));
            }
            if mp[i - 1].0 == u {
                return Some(mp[i - 1].1);
            }
            i -= 1;
        }
        None
    }

    /// Makes a new unknown type for each unknown type of `ty` that the pairs
    /// do not rename yet, under the same constraints, and adds the pair.
    fn collect_unknowns(&mut self, ty: &Type, mp: &mut Vec<(u32, u32)>, Ghost(base): Ghost<nat>)
        requires
            old(self).wf(),
            ids_below(ty@, base),
            fresh_renaming(old(mp)@, base, old(self).next_id(), old(self).constraints_view()),
            old(self).next_id() + unknowns_count(ty@) < u32::MAX,
        ensures
            final(self).wf(),
            fresh_renaming(final(mp)@, base, final(self).next_id(), final(self).constraints_view()),
            old(self).next_id() <= final(self).next_id() <= old(self).next_id() + unknowns_count(ty@),
            final(self).constraints_view().take(old(self).next_id() as int) == old(self).constraints_view(),
            final(self).subst().bind.take(old(self).next_id() as int) == old(self).subst().bind,
            forall|i: int| old(self).next_id() <= i < final(self).next_id() ==> final(self).subst().bind[i] is None,
            final(self).subst().order.take(old(self).next_id() as int) == old(self).subst().order,
            final(self).subst().clock == old(self).subst().clock,
            final(self).keeps_nodes(old(self)),
            old(self).nodes_ok() ==> final(self).nodes_ok(),
            old(mp)@ == final(mp)@.take(old(mp)@.len() as int),
            forall|x: u32| #[trigger] occurs(x, ty@) ==> renamed(final(mp)@, x) is Some,
            forall|x: u32| #[trigger] renamed(final(mp)@, x) is Some ==> renamed(old(mp)@, x) is Some || occurs(x, ty@),
            forall|x: u32| renamed(old(mp)@, x) is Some ==> #[trigger] renamed(final(mp)@, x) == renamed(old(mp)@, x),
            keys_of(final(mp)@) == first_seen(ty@, keys_of(old(mp)@)),
        decreases ty,
    {
        proof {
            self.lemma_wf();
        }
        match ty {
            Type::Unknown(u) => {
                proof {
                    assert(occurs(*u, ty@));
                }
                match Self::renamed_to(mp, *u) {
                    Some(w) => {
                        proof {
                            assert(renamed(mp@, *u) == Some(w));
                            lemma_renamed(mp@, *u);
                            let k = choose|k: int| 0 <= k < mp@.len() && (#[trigger] mp@[k]).0 == *u && mp@[k].1 == w;
                            assert(keys_of(mp@)[k] == *u);
                            assert forall|x: u32| #[trigger] occurs(x, ty@) implies renamed(mp@, x) is Some by {
                                assert(x == *u);
                            }
                            assert(old(self).constraints_view().take(old(self).next_id() as int) =~= old(self).constraints_view());
                            assert(old(self).subst().bind.take(old(self).next_id() as int) =~= old(self).subst().bind);
                            assert(old(self).subst().order.take(old(self).next_id() as int) =~= old(self).subst().order);
                            assert(old(mp)@.take(old(mp)@.len() as int) =~= old(mp)@);
                        }
                    },
                    None => {
                        let c = self.constraints[*u as usize].clone();
                        let v = self.new_unknown_with_constraint(c);
                        let id = match v {
                            Type::Unknown(id) => id,
                            _ => 0,
                        };
                        let ghost before = mp@;
                        mp.push((*u, id));
                        proof {
                            let ms = mp@;
                            lemma_renamed(before, *u);
                            assert(!keys_of(before).contains(*u)) by {
                                if keys_of(before).contains(*u) {
                                    let k = choose|k: int| 0 <= k < keys_of(before).len() && keys_of(before)[k] == *u;
                                    assert(before[k].0 == *u);
                                }
                            }
                            assert(keys_of(ms) =~= keys_of(before).push(*u));
                            assert(ms.take(before.len() as int) =~= before);
                            assert forall|x: u32| #[trigger] renamed(ms, x) is Some implies renamed(before, x) is Some || occurs(x, ty@) by {
                                lemma_renamed_push(before, (*u, id), x);
                            }
                            assert forall|x: u32| renamed(before, x) is Some implies #[trigger] renamed(ms, x) == renamed(before, x) by {
                                lemma_renamed_push(before, (*u, id), x);
                            }
                            lemma_renamed_push(before, (*u, id), *u);
                            assert forall|x: u32| #[trigger] occurs(x, ty@) implies renamed(ms, x) is Some by {
                                assert(x == *u);
                            }
                            assert forall|i: int, j: int| 0 <= i < ms.len() && 0 <= j < ms.len() && i != j implies (#[trigger] ms[i]).0 != (#[trigger] ms[j]).0 by {
                                if i == ms.len() - 1 || j == ms.len() - 1 {
                                    lemma_renamed(before, *u);
                                }
                            }
                            assert(self.constraints_view().take(old(self).next_id() as int) =~= old(self).constraints_view());
                            assert(self.subst().bind.take(old(self).next_id() as int) =~= old(self).subst().bind);
                            assert(self.subst().order.take(old(self).next_id() as int) =~= old(self).subst().order);
                        }
                    },
                }
            },
            Type::Func { lhs, rhs } => {
                proof {
                    assert forall|x: u32| #[trigger] occurs(x, lhs@) implies x < base by {
                        assert(occurs(x, ty@));
                    }
                    assert forall|x: u32| #[trigger] occurs(x, rhs@) implies x < base by {
                        assert(occurs(x, ty@));
                    }
                }
                let ghost s0 = self.subst();
                let ghost c0 = self.constraints_view();
                let ghost m0 = mp@;
                self.collect_unknowns(lhs, mp, Ghost(base));
                let ghost s1 = self.subst();
                let ghost c1 = self.constraints_view();
                let ghost n1 = self.next_id();
                let ghost m1 = mp@;
                self.collect_unknowns(rhs, mp, Ghost(base));
                proof {
                    assert(self.constraints_view().take(old(self).next_id() as int) =~= c0);
                    assert(self.subst().bind.take(old(self).next_id() as int) =~= s0.bind);
                    assert(self.subst().order.take(old(self).next_id() as int) =~= s0.order);
                    assert forall|i: int| old(self).next_id() <= i < self.next_id() implies self.subst().bind[i] is None by {
                        if i < n1 {
                            assert(self.subst().bind.take(n1 as int)[i] == s1.bind[i]);
                        }
                    }
                    assert(mp@.take(m0.len() as int) =~= m0) by {
                        assert(mp@.take(m1.len() as int).take(m0.len() as int) =~= mp@.take(m0.len() as int));
                    }
                    assert forall|x: u32| #[trigger] occurs(x, ty@) implies renamed(mp@, x) is Some by {
                        if occurs(x, lhs@) {
                            assert(renamed(m1, x) is Some);
                            assert(renamed(mp@, x) == renamed(m1, x));
                        } else {
                            assert(occurs(x, rhs@));
                        }
                    }
                }
            },
            Type::Ref(inner) | Type::Array { inner, .. } => {
                proof {
                    assert forall|x: u32| #[trigger] occurs(x, inner@) implies x < base by {
                        assert(occurs(x, ty@));
                    }
                }
                self.collect_unknowns(inner, mp, Ghost(base));
                proof {
                    assert forall|x: u32| #[trigger] occurs(x, ty@) implies renamed(mp@, x) is Some by {
                        assert(occurs(x, inner@));
                    }
                }
            },
            Type::Tuple(ts) => {
                proof {
                    lemma_view_types(ts@);
                    assert(self.constraints_view().take(self.next_id() as int) =~= self.constraints_view());
                    assert(self.subst().bind.take(self.next_id() as int) =~= self.subst().bind);
                    assert(self.subst().order.take(self.next_id() as int) =~= self.subst().order);
                    assert(mp@.take(mp@.len() as int) =~= mp@);
                    assert(view_types(ts@).take(0) =~= Seq::<TypeV>::empty());
                }
                let mut i: usize = 0;
                while i < ts.len()
                    invariant
                        i <= ts.len(),
                        *ty == Type::Tuple(*ts),
                        ty@ == TypeV::Tuple(view_types(ts@)),
                        view_types(ts@).len() == ts@.len(),
                        forall|k: int| 0 <= k < ts.len() ==> #[trigger] view_types(ts@)[k] == ts@[k]@,
                        ids_below(ty@, base),
                        self.wf(),
                        fresh_renaming(mp@, base, self.next_id(), self.constraints_view()),
                        old(self).next_id() <= self.next_id() <= old(self).next_id()
                            + unknowns_count_seq(view_types(ts@).take(i as int)),
                        old(self).next_id() + unknowns_count(ty@) < u32::MAX,
                        self.constraints_view().take(old(self).next_id() as int) == old(self).constraints_view(),
                        self.subst().bind.take(old(self).next_id() as int) == old(self).subst().bind,
                        forall|k: int| old(self).next_id() <= k < self.next_id() ==> self.subst().bind[k] is None,
                        self.subst().order.take(old(self).next_id() as int) == old(self).subst().order,
                        self.subst().clock == old(self).subst().clock,
                        self.keeps_nodes(old(self)),
                        old(self).nodes_ok() ==> self.nodes_ok(),
                        old(mp)@.len() <= mp@.len(),
                        old(mp)@ == mp@.take(old(mp)@.len() as int),
                        keys_of(mp@) == first_seen_seq(view_types(ts@).take(i as int), keys_of(old(mp)@)),
                        forall|k: int, x: u32| 0 <= k < i && #[trigger] occurs(x, view_types(ts@)[k]) ==> renamed(mp@, x) is Some,
                        forall|x: u32| #[trigger] renamed(mp@, x) is Some ==> renamed(old(mp)@, x) is Some || occurs(x, ty@),
                        forall|x: u32| renamed(old(mp)@, x) is Some ==> #[trigger] renamed(mp@, x) == renamed(old(mp)@, x),
                    decreases ts.len() - i,
                {
                    proof {
                        vstd::std_specs::vec::axiom_vec_index_decreases(*ts, i as int);
                        assert(decreases_to!(*ty => (*ty)->Tuple_0));
                        let vs = view_types(ts@);
                        assert(vs.take(i + 1).drop_last() =~= vs.take(i as int));
                        lemma_unknowns_count_seq_prefix(vs, i as int + 1);
                        assert forall|x: u32| #[trigger] occurs(x, ts@[i as int]@) implies x < base by {
                            lemma_occurs_seq(x, vs);
                            assert(occurs(x, vs[i as int]));
                            assert(occurs(x, ty@));
                        }
                    }
                    let ghost s0 = self.subst();
                    let ghost c0 = self.constraints_view();
                    let ghost n0 = self.next_id();
                    let ghost m0 = mp@;
                    self.collect_unknowns(&ts[i], mp, Ghost(base));
                    proof {
                        let vs = view_types(ts@);
                        assert(self.constraints_view().take(old(self).next_id() as int) =~= c0.take(old(self).next_id() as int));
                        assert(self.subst().bind.take(old(self).next_id() as int) =~= s0.bind.take(old(self).next_id() as int));
                        assert(self.subst().order.take(old(self).next_id() as int) =~= s0.order.take(old(self).next_id() as int));
                        assert forall|k: int| old(self).next_id() <= k < self.next_id() implies self.subst().bind[k] is None by {
                            if k < n0 {
                                assert(self.subst().bind.take(n0 as int)[k] == s0.bind[k]);
                            }
                        }
                        assert(mp@.take(old(mp)@.len() as int) =~= old(mp)@) by {
                            assert(old(mp)@.len() <= m0.len() <= mp@.len());
                            assert(mp@.take(m0.len() as int).take(old(mp)@.len() as int) =~= mp@.take(old(mp)@.len() as int));
                        }
                        assert forall|x: u32| #[trigger] renamed(mp@, x) is Some implies renamed(old(mp)@, x) is Some || occurs(x, ty@) by {
                            if !(renamed(m0, x) is Some) {
                                lemma_occurs_seq(x, vs);
                                assert(occurs(x, vs[i as int]));
                            }
                        }
                        assert forall|k: int, x: u32| 0 <= k < i + 1 && #[trigger] occurs(x, vs[k]) implies renamed(mp@, x) is Some by {
                            if k < i {
                                assert(renamed(m0, x) is Some);
                            }
                        }
                    }
                    i += 1;
                }
                proof {
                    let vs = view_types(ts@);
                    assert(vs.take(ts.len() as int) =~= vs);
                    assert forall|x: u32| #[trigger] occurs(x, ty@) implies renamed(mp@, x) is Some by {
                        lemma_occurs_seq(x, vs);
                        let k = choose|k: int| 0 <= k < vs.len() && #[trigger] occurs(x, vs[k]);
                    }
                }
            },
            _ => {
                proof {
                    assert(old(self).constraints_view().take(old(self).next_id() as int) =~= old(self).constraints_view());
                    assert(old(self).subst().bind.take(old(self).next_id() as int) =~= old(self).subst().bind);
                    assert(old(self).subst().order.take(old(self).next_id() as int) =~= old(self).subst().order);
                    assert(old(mp)@.take(old(mp)@.len() as int) =~= old(mp)@);
                }
            },
        }
    }

    /// The type with each unknown type that the pairs name replaced by the
    /// one they rename it to.
    fn rename_type(ty: &Type, mp: &Vec<(u32, u32)>) -> (r: Type)
        ensures
            r@ == rename(ty@, mp@),
        decreases ty,
    {
        match ty {
            Type::Unknown(u) => match Self::renamed_to(mp, *u) {
                Some(v) => Type::Unknown(v),
                None => Type::Unknown(*u),
            },
            Type::Func { lhs, rhs } => Type::new_func(Self::rename_type(lhs, mp), Self::rename_type(rhs, mp)),
            Type::Ref(inner) => Type::new_ref(Self::rename_type(inner, mp)),
            Type::Array { inner, dim_cnt } => {
                let i = Self::rename_type(inner, mp);
                Type::new_array(i, dim_cnt.clone())
            },
            Type::Tuple(ts) => {
                proof {
                    lemma_view_types(ts@);
                }
                let mut out: Vec<Type> = Vec::new();
                let mut i: usize = 0;
                while i < ts.len()
                    invariant
                        i <= ts.len(),
                        *ty == Type::Tuple(*ts),
                        view_types(ts@).len() == ts@.len(),
                        forall|k: int| 0 <= k < ts.len() ==> #[trigger] view_types(ts@)[k] == ts@[k]@,
                        view_types(out@) == rename_seq(view_types(ts@).take(i as int), mp@),
                    decreases ts.len() - i,
                {
                    proof {
                        vstd::std_specs::vec::axiom_vec_index_decreases(*ts, i as int);
                        assert(decreases_to!(*ty => (*ty)->Tuple_0));
                    }
                    let t = Self::rename_type(&ts[i], mp);
                    let ghost before = out@;
                    out.push(t);
                    proof {
                        let vs = view_types(ts@);
                        assert(vs.take(i + 1).drop_last() =~= vs.take(i as int));
                        assert(out@.drop_last() =~= before);
                    }
                    i += 1;
                }
                proof {
                    assert(view_types(ts@).take(ts.len() as int) =~= view_types(ts@));
                }
                Type::new_tuple(out)
            },
            Type::Unit => Type::Unit,
            Type::Int => Type::Int,
            Type::Char => Type::Char,
            Type::Bool => Type::Bool,
            Type::Float => Type::Float,
            Type::Custom { id } => Type::Custom { id: id.clone() },
        }
    }

    /// A fresh copy of a type: each of its unknown types is replaced by a new
    /// one under the same constraints, the same new one wherever the old one
    /// occurs.
    pub fn instantiate(&mut self, ty: &Type) -> (r: Type)
        requires
            old(self).wf(),
            ids_below(ty@, old(self).next_id()),
            old(self).next_id() + unknowns_count(ty@) < u32::MAX,
        ensures
            final(self).wf(),
            old(self).next_id() <= final(self).next_id(),
            final(self).constraints_view().take(old(self).next_id() as int) == old(self).constraints_view(),
            final(self).subst().bind.take(old(self).next_id() as int) == old(self).subst().bind,
            forall|i: int| old(self).next_id() <= i < final(self).next_id() ==> final(self).subst().bind[i] is None,
            final(self).subst().order.take(old(self).next_id() as int) == old(self).subst().order,
            final(self).subst().clock == old(self).subst().clock,
            final(self).keeps_nodes(old(self)),
            old(self).nodes_ok() ==> final(self).nodes_ok(),
            ({
                let mp = fresh_pairs(first_seen(ty@, Seq::empty()), old(self).next_id());
                &&& final(self).next_id() == old(self).next_id() + mp.len()
                &&& fresh_renaming(mp, old(self).next_id(), final(self).next_id(), final(self).constraints_view())
                &&& forall|u: u32| #[trigger] renamed(mp, u) is Some <==> occurs(u, ty@)
                &&& r@ == rename(ty@, mp)
            }),
    {
        let mut mp: Vec<(u32, u32)> = Vec::new();
        let ghost base = self.next_id();
        proof {
            self.lemma_wf();
        }
        self.collect_unknowns(ty, &mut mp, Ghost(base));
        proof {
            assert(keys_of(Seq::<(u32, u32)>::empty()) =~= Seq::<u32>::empty());
            assert(mp@ =~= fresh_pairs(first_seen(ty@, Seq::empty()), base)) by {
                assert forall|i: int| 0 <= i < mp@.len() implies #[trigger] mp@[i] == fresh_pairs(first_seen(ty@, Seq::empty()), base)[i] by {
                    assert(keys_of(mp@)[i] == mp@[i].0);
                }
            }
            assert forall|u: u32| #[trigger] renamed(mp@, u) is Some <==> occurs(u, ty@) by {
                if renamed(mp@, u) is Some {
                    assert(renamed(Seq::<(u32, u32)>::empty(), u) is None);
                }
            }
        }
        Self::rename_type(ty, &mp)
    }
}


/// Adding unbound unknown types changes nothing of what the bindings make
/// of a type that names only the old ones.
pub proof fn lemma_apply_keeps_below(s1: Subst, s2: Subst, t: TypeV)
    requires
        wf(s1),
        wf(s2),
        s1.bind.len() <= s2.bind.len(),
        s2.bind.take(s1.bind.len() as int) == s1.bind,
        ids_below(t, s1.bind.len()),
    ensures
        apply(s2, t) == apply(s1, t),
{
    let n = s1.bind.len();
    assert forall|x: u32| #[trigger] bound(s1, x) implies bound(s2, x) && binding(s2, x) == binding(s1, x) by {
        assert(s2.bind.take(n as int)[x as int] == s2.bind[x as int]);
    }
    lemma_extension_refines(s1, s2, t);
    lemma_apply_resolved(s1, t);
    assert forall|u: u32| #[trigger] occurs(u, apply(s1, t)) implies !bound(s2, u) by {
        assert(u < n);
        assert(s2.bind.take(n as int)[u as int] == s2.bind[u as int]);
    }
    lemma_apply_id(s2, apply(s1, t));
}

/// Adding unbound unknown types to the bindings adds them, unchanged, to
/// what the bindings make of the unknown types.
pub proof fn lemma_meaning_extends(s1: Subst, s2: Subst)
    requires
        wf(s1),
        wf(s2),
        s1.bind.len() <= s2.bind.len(),
        s2.bind.take(s1.bind.len() as int) == s1.bind,
        forall|i: int| s1.bind.len() <= i < s2.bind.len() ==> #[trigger] s2.bind[i] is None,
    ensures
        meaning(s2) == meaning(s1) + Seq::new((s2.bind.len() - s1.bind.len()) as nat,
            |i: int| TypeV::Unknown((s1.bind.len() + i) as u32)),
{
    let n = s1.bind.len();
    let ext = Seq::new((s2.bind.len() - n) as nat, |i: int| TypeV::Unknown((n + i) as u32));
    assert forall|x: int| 0 <= x < s2.bind.len() implies #[trigger] meaning(s2)[x] == (meaning(s1) + ext)[x] by {
        let u = x as u32;
        if x < n {
            assert forall|v: u32| #[trigger] occurs(v, TypeV::Unknown(u)) implies v < n by {}
            lemma_apply_keeps_below(s1, s2, TypeV::Unknown(u));
        } else {
            assert(s2.bind[x] is None);
            assert(!bound(s2, u));
        }
    }
    assert(meaning(s2) =~= meaning(s1) + ext);
}

impl TypeMap {
    /// Records a new node of type `ty`, not generic, and gives its number.
    pub fn insert(&mut self, ty: Type) -> (node: usize)
        requires
            old(self).nodes_ok(),
            ids_below(ty@, old(self).next_id()),
        ensures
            final(self).nodes_ok(),
            node == old(self).node_types().len(),
            final(self).node_types() == old(self).node_types().push(ty@),
            final(self).generic_nodes() == old(self).generic_nodes().push(None),
            final(self).subst() == old(self).subst(),
            final(self).constraints_view() == old(self).constraints_view(),
            final(self).next_id() == old(self).next_id(),
            final(self).wf() == old(self).wf(),
    {
        let node = self.node_type_map.len();
        let ghost tv = ty@;
        self.node_type_map.push(ty);
        self.instantiations.push(None);
        proof {
            assert(self.node_types() =~= old(self).node_types().push(tv));
            assert(self.generic_nodes() =~= old(self).generic_nodes().push(None));
            assert forall|i: int| 0 <= i < self.node_type_map.len() implies ids_below(#[trigger] self.node_type_map@[i]@, self.next_unknown_id as nat) by {
                if i < node {
                    assert(self.node_type_map@[i] == old(self).node_type_map@[i]);
                }
            }
        }
        node
    }

    /// The type of `node`, where it is a node.
    pub fn get_node_type(&self, node: usize) -> (r: Option<Type>)
        ensures
            r is Some <==> node < self.node_types().len(),
            r matches Some(t) ==> t@ == self.node_types()[node as int],
    {
        if node < self.node_type_map.len() {
            Some(self.node_type_map[node].clone())
        } else {
            None
        }
    }

    /// Marks `node` generic: each later use of it gets a fresh instance of
    /// its type.
    pub fn mark_generic(&mut self, node: usize)
        requires
            old(self).nodes_ok(),
            node < old(self).node_types().len(),
        ensures
            final(self).nodes_ok(),
            final(self).generic_nodes() == old(self).generic_nodes().update(node as int, Some(Seq::<TypeV>::empty())),
            final(self).node_types() == old(self).node_types(),
            final(self).subst() == old(self).subst(),
            final(self).constraints_view() == old(self).constraints_view(),
            final(self).next_id() == old(self).next_id(),
            final(self).wf() == old(self).wf(),
    {
        self.instantiations.set(node, Some(Vec::new()));
        proof {
            assert(view_types(Seq::<Type>::empty()) =~= Seq::<TypeV>::empty());
            assert(self.generic_nodes() =~= old(self).generic_nodes().update(node as int, Some(Seq::<TypeV>::empty())));
        }
    }

    /// The type of `node` for one more use of it: the type itself where the
    /// node is not generic, else a fresh instance of what the bindings make
    /// of it, which is recorded among the node's instances.
    pub fn get_node_type_or_instantiation(&mut self, node: usize) -> (r: Type)
        requires
            old(self).wf(),
            old(self).nodes_ok(),
            node < old(self).node_types().len(),
            old(self).next_id() + unknowns_count(apply(old(self).subst(), old(self).node_types()[node as int])) < u32::MAX,
        ensures
            final(self).wf(),
            final(self).nodes_ok(),
            final(self).node_types() == old(self).node_types(),
            old(self).generic_nodes()[node as int] is None ==> {
                &&& r@ == old(self).node_types()[node as int]
                &&& final(self).subst() == old(self).subst()
                &&& final(self).generic_nodes() == old(self).generic_nodes()
                &&& final(self).constraints_view() == old(self).constraints_view()
                &&& final(self).next_id() == old(self).next_id()
            },
            old(self).generic_nodes()[node as int] matches Some(insts) ==> {
                let t = apply(old(self).subst(), old(self).node_types()[node as int]);
                &&& final(self).generic_nodes() == old(self).generic_nodes().update(node as int, Some(insts.push(r@)))
                &&& old(self).next_id() <= final(self).next_id()
                &&& final(self).constraints_view().take(old(self).next_id() as int) == old(self).constraints_view()
                &&& forall|i: int| old(self).next_id() <= i < final(self).next_id() ==> #[trigger] final(self).subst().bind[i] is None
                &&& forall|ty: TypeV| ids_below(ty, old(self).next_id()) ==> #[trigger] apply(final(self).subst(), ty) == apply(old(self).subst(), ty)
                &&& ({
                    let mp = fresh_pairs(first_seen(t, Seq::empty()), old(self).next_id());
                    &&& final(self).next_id() == old(self).next_id() + mp.len()
                    &&& fresh_renaming(mp, old(self).next_id(), final(self).next_id(), final(self).constraints_view())
                    &&& forall|u: u32| #[trigger] renamed(mp, u) is Some <==> occurs(u, t)
                    &&& r@ == rename(t, mp)
                })
            },
    {
        let ty = self.node_type_map[node].clone();
        if self.instantiations[node].is_none() {
            return ty;
        }
        let ghost s0 = self.subst();
        let ghost tv = ty@;
        proof {
            self.lemma_wf();
            lemma_apply_resolved(s0, tv);
            assert(ids_below(tv, self.next_id()));
        }
        let resolved = self.deep_resolve_type(ty);
        let ghost s1 = self.subst();
        proof {
            assert forall|u: u32| #[trigger] occurs(u, resolved@) implies u < self.next_id() by {}
        }
        let instance = self.instantiate(&resolved);
        let taken = self.instantiations[node].take();
        let mut list = match taken {
            Some(l) => l,
            None => Vec::new(),
        };
        let ghost before = list@;
        let copy = instance.clone();
        list.push(copy);
        self.instantiations.set(node, Some(list));
        proof {
            assert(taken == old(self).instantiations@[node as int]);
            assert(view_types(before.push(copy)) =~= view_types(before).push(instance@)) by {
                lemma_view_types(before.push(copy));
                lemma_view_types(before);
            }
            assert(self.generic_nodes() =~= old(self).generic_nodes().update(node as int, Some(view_types(before).push(instance@))));
            assert forall|t: TypeV| ids_below(t, old(self).next_id()) implies #[trigger] apply(self.subst(), t) == apply(s0, t) by {
                assert(apply(s1, t) == apply(s0, t));
                self.lemma_wf();
                lemma_apply_keeps_below(s1, self.subst(), t);
            }
        }
        instance
    }
}


/// The number of unknown types a type names, or the largest `u32` where it
/// is not smaller.
pub open spec fn capped_count(t: TypeV) -> nat {
    if unknowns_count(t) < u32::MAX { unknowns_count(t) } else { u32::MAX as nat }
}

/// How many times unknown types occur in `t`, counted up to `u32::MAX`.
pub fn count_unknowns(t: &Type) -> (r: u64)
    ensures
        r == capped_count(t@),
    decreases t,
{
    match t {
        Type::Unknown(_) => 1,
        Type::Func { lhs, rhs } => {
            let a = count_unknowns(lhs);
            let b = count_unknowns(rhs);
            if a + b < 4294967295u64 { a + b } else { 4294967295u64 }
        },
        Type::Ref(inner) => count_unknowns(inner),
        Type::Array { inner, .. } => count_unknowns(inner),
        Type::Tuple(ts) => {
            let mut total: u64 = 0;
            let mut i: usize = 0;
            while i < ts.len()
                invariant
                    *t == Type::Tuple(*ts),
                    i <= ts.len(),
                    total == if unknowns_count_seq(view_types(ts@).take(i as int)) < u32::MAX {
                        unknowns_count_seq(view_types(ts@).take(i as int))
                    } else {
                        u32::MAX as nat
                    },
                decreases ts.len() - i,
            {
                proof {
                    lemma_view_types(ts@);
                    lemma_unknowns_count_seq_prefix(view_types(ts@), i + 1);
                    assert(decreases_to!(*ts => ts@[i as int]));
                    assert(decreases_to!(*t => t->Tuple_0));
                    assert(t->Tuple_0 == *ts);
                }
                let c = count_unknowns(&ts[i]);
                total = if total + c < 4294967295u64 { total + c } else { 4294967295u64 };
                i += 1;
            }
            proof {
                lemma_view_types(ts@);
                assert(view_types(ts@).take(ts.len() as int) =~= view_types(ts@));
            }
            total
        },
        _ => 0,
    }
}

impl TypeMap {
    /// The number of nodes.
    pub fn node_count(&self) -> (r: usize)
        ensures
            r == self.node_types().len(),
    {
        self.node_type_map.len()
    }

    /// Whether `k` more unknown types can be made.
    pub fn has_room(&self, k: u64) -> (r: bool)
        ensures
            r == (self.next_id() + k < u32::MAX),
    {
        k < 4294967295u64 && (self.next_unknown_id as u64) + k < 4294967295u64
    }

    /// The type of `node` for one more use of it, as
    /// `get_node_type_or_instantiation` gives it, or `None` where a fresh
    /// instance would need more unknown types than can be numbered.
    pub fn node_type_or_instance(&mut self, node: usize) -> (r: Option<Type>)
        requires
            old(self).wf(),
            old(self).nodes_ok(),
            node < old(self).node_types().len(),
        ensures
            final(self).wf(),
            final(self).nodes_ok(),
            final(self).node_types() == old(self).node_types(),
            final(self).generic_nodes().len() == old(self).generic_nodes().len(),
            old(self).next_id() <= final(self).next_id(),
            old(self).generic_nodes()[node as int] is None ==> (r matches Some(t) && t@ == old(self).node_types()[node as int]
                && final(self).next_id() == old(self).next_id()),
            r matches Some(t) ==> ids_below(t@, final(self).next_id()),
            instance_spec(old(self).node_types(), old(self).generic_nodes(), meaning(old(self).subst()),
                old(self).constraints_view(), node as int) == match r {
                Some(t) => Some((meaning(final(self).subst()), final(self).constraints_view(), final(self).generic_nodes(), t@)),
                None => None::<(Seq<TypeV>, Seq<ConstraintsV>, Seq<Option<Seq<TypeV>>>, TypeV)>,
            },
    {
        proof {
            self.lemma_generic_len();
            self.lemma_node_ids(node as int);
            self.lemma_wf();
        }
        if self.instantiations[node].is_none() {
            let t = self.node_type_map[node].clone();
            return Some(t);
        }
        let ghost s0 = self.subst();
        let ty = self.node_type_map[node].clone();
        proof {
            assert(ty@ == self.node_types()[node as int]);
        }
        let resolved = self.deep_resolve_type(ty);
        proof {
            self.lemma_same_nodes_ok(old(self));
        }
        let c = count_unknowns(&resolved);
        proof {
            lemma_apply_meaning(s0, old(self).node_types()[node as int]);
            lemma_same_meaning_meaning(s0, self.subst());
        }
        if !self.has_room(c) {
            return None;
        }
        let ghost s1 = self.subst();
        let ghost n1 = self.next_id();
        proof {
            assert(apply(s1, self.node_types()[node as int]) == apply(s0, old(self).node_types()[node as int]));
        }
        let t = self.get_node_type_or_instantiation(node);
        proof {
            let tt = apply(s1, self.node_types()[node as int]);
            assert(self.generic_nodes()[node as int] is Some) by {
                assert(old(self).generic_nodes()[node as int] == instances_view(old(self).instantiations@[node as int]));
            }
            let mp = fresh_pairs(first_seen(tt, Seq::empty()), n1);
            self.lemma_wf();
            assert forall|u: u32| #[trigger] occurs(u, t@) implies u < self.next_id() by {
                law_instance_is_fresh(tt, n1, u);
            }
            assert(meaning(self.subst()) =~= meaning(s1) + Seq::new((self.next_id() - n1) as nat,
                |i: int| TypeV::Unknown((n1 + i) as u32))) by {
                assert forall|x: int| 0 <= x < self.next_id() implies #[trigger] meaning(self.subst())[x]
                    == (meaning(s1) + Seq::new((self.next_id() - n1) as nat, |i: int| TypeV::Unknown((n1 + i) as u32)))[x] by {
                    let u = x as u32;
                    if x < n1 {
                        assert forall|v: u32| #[trigger] occurs(v, TypeV::Unknown(u)) implies v < n1 by {}
                    } else {
                        assert(self.subst().bind[x] is None);
                        assert(!super::subst::bound(self.subst(), u));
                    }
                }
            }
            let cs0 = old(self).constraints_view();
            let cs2 = self.constraints_view();
            assert(cs2 =~= cs0 + Seq::new(mp.len(), |i: int| cs0[mp[i].0 as int])) by {
                assert forall|i: int| 0 <= i < cs2.len() implies cs2[i] == (cs0 + Seq::new(mp.len(), |i: int| cs0[mp[i].0 as int]))[i] by {
                    if i < n1 {
                        assert(cs2.take(n1 as int)[i] == cs2[i]);
                    } else {
                        let j = i - n1;
                        assert(cs2[n1 + j] == cs2[mp[j].0 as int]);
                        assert(cs2.take(n1 as int)[mp[j].0 as int] == cs2[mp[j].0 as int]);
                    }
                }
            }
        }
        Some(t)
    }
}


/// What one more use of a node gives, over what the bindings make of the
/// unknown types (`mean`), their constraints (`cs`) and the generic marks:
/// the node's type where it is not generic; else a fresh instance of what
/// the bindings make of its type, with new unknown types under copies of the
/// constraints and the instance recorded, or `None` where the new unknown
/// types could not all be numbered. Gives the new meaning, constraints and
/// marks, and the type.
pub open spec fn instance_spec(nodes: Seq<TypeV>, generic: Seq<Option<Seq<TypeV>>>, mean: Seq<TypeV>,
    cs: Seq<ConstraintsV>, node: int) -> Option<(Seq<TypeV>, Seq<ConstraintsV>, Seq<Option<Seq<TypeV>>>, TypeV)>
{
    match generic[node] {
        None => Some((mean, cs, generic, nodes[node])),
        Some(insts) => {
            let t = apply_m(mean, nodes[node]);
            if mean.len() + capped_count(t) < u32::MAX {
                let base = mean.len();
                let mp = fresh_pairs(first_seen(t, Seq::empty()), base);
                let r = rename(t, mp);
                Some((
                    mean + Seq::new(mp.len(), |i: int| TypeV::Unknown((base + i) as u32)),
                    cs + Seq::new(mp.len(), |i: int| cs[mp[i].0 as int]),
                    generic.update(node, Some(insts.push(r))),
                    r,
                ))
            } else {
                None
            }
        },
    }
}

} // verus!
