pub mod types;
pub mod sem_table;
pub mod pattern;
pub mod expr;
pub mod analysis;
pub mod gen;

use vstd::prelude::*;
use crate::parse::ast::Span;
use crate::parse::ast::def::{Constr, TDef, Typedef};
use crate::parse::ast::annotation::{annotated_type, annotated_types, lemma_annotated_types};
use self::types::{Type, TypeV, curried, view_types, lemma_view_types};
use self::types::subst::{ids_below, occurs, occurs_seq, lemma_occurs_seq};
use self::sem_table::SemTable;
use self::analysis::keeps_names;
pub use self::analysis::sem;

verus! {

/// What semantic analysis can find wrong with a program.
#[derive(Debug)]
pub enum SemanticError {
    LookupError { id: String, span: Span },
    InferenceError {
        msg: String,
        lhs: Type,
        rhs: Type,
        lhs_resolved: Type,
        rhs_resolved: Type,
        span: Span,
        unification_reason: String,
    },
    GeneralError { msg: String, span: Span },
    /// Analysis reached a case that is not implemented yet: two array types
    /// of compatible dimension counts whose element types unify, where it is
    /// not yet decided which dimension count to keep.
    NotYetImplemented { msg: String, span: Span },
}

pub type SemResult<T> = Result<T, SemanticError>;


/// The names in scope and the types of the nodes.
pub struct Names {
    pub scopes: Seq<Map<Seq<char>, usize>>,
    pub nodes: Seq<TypeV>,
}

pub open spec fn names_of(t: SemTable) -> Names {
    Names { scopes: t.scopes_view(), nodes: t.tmap().node_types() }
}

/// A new node of type `t`, bound to `name` in the innermost scope.
pub open spec fn bind_node(n: Names, name: Seq<char>, t: TypeV) -> Names {
    Names {
        scopes: n.scopes.update(n.scopes.len() - 1, n.scopes.last().insert(name, n.nodes.len() as usize)),
        nodes: n.nodes.push(t),
    }
}

/// Each defined type becomes a node of its own custom type, bound to its
/// name, in order.
pub open spec fn tdefs_bound(tdefs: Seq<TDef>, n: Names) -> Names
    decreases tdefs.len(),
{
    if tdefs.len() == 0 {
        n
    } else {
        let t = tdefs.last();
        bind_node(tdefs_bound(tdefs.drop_last(), n), t.id@, TypeV::Custom(t.id@))
    }
}

/// The type of a constructor of the type `owner`: the function from its
/// argument types, curried, to `owner`.
pub open spec fn constr_type(c: Constr, owner: TypeV) -> TypeV {
    curried(annotated_types(c.types@), owner)
}

/// Each constructor becomes a node of its type, bound to its name, in order.
pub open spec fn constrs_bound(cs: Seq<Constr>, owner: TypeV, n: Names) -> Names
    decreases cs.len(),
{
    if cs.len() == 0 {
        n
    } else {
        bind_node(constrs_bound(cs.drop_last(), owner, n), cs.last().id@, constr_type(cs.last(), owner))
    }
}

/// The constructors of each defined type, type after type.
pub open spec fn all_constrs_bound(tdefs: Seq<TDef>, n: Names) -> Names
    decreases tdefs.len(),
{
    if tdefs.len() == 0 {
        n
    } else {
        let t = tdefs.last();
        constrs_bound(t.constrs@, TypeV::Custom(t.id@), all_constrs_bound(tdefs.drop_last(), n))
    }
}

/// What analysing a type definition does: first the defined types, then
/// their constructors, are bound.
pub open spec fn typedef_bound(tdefs: Seq<TDef>, n: Names) -> Names {
    all_constrs_bound(tdefs, tdefs_bound(tdefs, n))
}

/// A type written in the program names no unknown type.
pub proof fn lemma_annotated_no_unknowns(a: crate::parse::ast::annotation::TypeAnnotation, u: u32)
    ensures
        !occurs(u, annotated_type(a)),
    decreases a,
{
    match a {
        crate::parse::ast::annotation::TypeAnnotation::Func { lhs, rhs } => {
            lemma_annotated_no_unknowns(*lhs, u);
            lemma_annotated_no_unknowns(*rhs, u);
        },
        crate::parse::ast::annotation::TypeAnnotation::Ref(inner) => lemma_annotated_no_unknowns(*inner, u),
        crate::parse::ast::annotation::TypeAnnotation::Array { inner, .. } => lemma_annotated_no_unknowns(*inner, u),
        crate::parse::ast::annotation::TypeAnnotation::Tuple(types) => {
            let ts = annotated_types(types@);
            lemma_annotated_types(types@);
            lemma_occurs_seq(u, ts);
            assert forall|i: int| 0 <= i < ts.len() implies !#[trigger] occurs(u, ts[i]) by {
                assert(decreases_to!(a => types));
                assert(decreases_to!(types => types@[i]));
                lemma_annotated_no_unknowns(types@[i], u);
            }
        },
        _ => {},
    }
}

/// A curried function names the unknown types of its parts only.
pub proof fn lemma_curried_ids(args: Seq<TypeV>, ret: TypeV, n: nat)
    requires
        forall|i: int| 0 <= i < args.len() ==> ids_below(#[trigger] args[i], n),
        ids_below(ret, n),
    ensures
        ids_below(curried(args, ret), n),
    decreases args.len(),
{
    if args.len() > 0 {
        let l = args[args.len() - 1];
        assert(ids_below(l, n));
        let f = TypeV::Func(Box::new(l), Box::new(ret));
        assert forall|u: u32| #[trigger] occurs(u, f) implies u < n by {
            assert(occurs(u, f) == (occurs(u, l) || occurs(u, ret)));
            if occurs(u, l) {
                assert(u < n);
            } else {
                assert(occurs(u, ret));
            }
        }
        assert forall|i: int| 0 <= i < args.drop_last().len() implies ids_below(#[trigger] args.drop_last()[i], n) by {
            assert(args.drop_last()[i] == args[i]);
        }
        lemma_curried_ids(args.drop_last(), f, n);
    }
}

impl SemTable {
    /// Binds the names of a type definition in the innermost scope: each
    /// defined type to a node of its own custom type, then each constructor
    /// to a node of its function type.
    #[verifier::spinoff_prover]
    pub fn sem_typedef(&mut self, typedef: &Typedef) -> (r: SemResult<()>)
        requires
            old(self).wf(),
            old(self).scopes_view().len() > 0,
        ensures
            r is Ok,
            final(self).wf(),
            final(self).scopes_view().len() == old(self).scopes_view().len(),
            keeps_names(old(self).scopes_view(), final(self).scopes_view()),
            names_of(*final(self)) == typedef_bound(typedef.tdefs@, names_of(*old(self))),
            final(self).tmap().subst() == old(self).tmap().subst(),
            final(self).tmap().constraints_view() == old(self).tmap().constraints_view(),
            final(self).tmap().next_id() == old(self).tmap().next_id(),
            final(self).tmap().generic_nodes() == old(self).tmap().generic_nodes()
                + Seq::new((final(self).tmap().node_types().len() - old(self).tmap().node_types().len()) as nat, |i: int| None::<Seq<TypeV>>),
    {
        let ghost n0 = names_of(*self);
        let ghost g0 = self.tmap().generic_nodes();
        proof {
            self.types.lemma_generic_len();
        }
        let tdefs = &typedef.tdefs;
        let mut tdef_nodes: Vec<usize> = Vec::new();
        let mut k: usize = 0;
        proof {
            assert(tdefs@.take(0) =~= Seq::<TDef>::empty());
        }
        while k < tdefs.len()
            invariant
                k <= tdefs.len(),
                self.wf(),
                self.scopes_view().len() == old(self).scopes_view().len(),
                keeps_names(old(self).scopes_view(), self.scopes_view()),
                n0 == names_of(*old(self)),
                names_of(*self) == tdefs_bound(tdefs@.take(k as int), n0),
                tdef_nodes.len() == k,
                forall|i: int| 0 <= i < k ==> #[trigger] tdef_nodes@[i] == n0.nodes.len() + i,
                self.scopes_view().len() > 0,
                self.tmap().node_types().len() == n0.nodes.len() + k,
                g0 == old(self).tmap().generic_nodes(),
                g0.len() == n0.nodes.len(),
                self.tmap().generic_nodes() == g0 + Seq::new(k as nat, |i: int| None::<Seq<TypeV>>),
                forall|i: int| 0 <= i < k ==> #[trigger] self.tmap().node_types()[n0.nodes.len() + i] == TypeV::Custom(tdefs@[i].id@),
                self.tmap().subst() == old(self).tmap().subst(),
                self.tmap().constraints_view() == old(self).tmap().constraints_view(),
                self.tmap().next_id() == old(self).tmap().next_id(),
            decreases tdefs.len() - k,
        {
            proof {
                assert(tdefs@.take(k + 1).drop_last() =~= tdefs@.take(k as int));
                assert(forall|u: u32| !#[trigger] occurs(u, TypeV::Custom(tdefs@[k as int].id@)));
            }
            let node = self.types.insert(Type::Custom { id: tdefs[k].id.clone() });
            self.insert_scope_binding(tdefs[k].id.as_str(), node);
            tdef_nodes.push(node);
            proof {
                assert(self.tmap().generic_nodes() =~= g0 + Seq::new(k as nat + 1, |i: int| None::<Seq<TypeV>>));
            }
            k += 1;
        }
        proof {
            assert(tdefs@.take(tdefs.len() as int) =~= tdefs@);
            assert(tdefs@.take(0) =~= Seq::<TDef>::empty());
        }
        let ghost n1 = names_of(*self);
        let mut k: usize = 0;
        while k < tdefs.len()
            invariant
                k <= tdefs.len(),
                self.wf(),
                self.scopes_view().len() == old(self).scopes_view().len(),
                keeps_names(old(self).scopes_view(), self.scopes_view()),
                n1 == tdefs_bound(tdefs@, n0),
                self.scopes_view().len() > 0,
                n1.nodes.len() == n0.nodes.len() + tdefs.len(),
                g0 == old(self).tmap().generic_nodes(),
                g0.len() == n0.nodes.len(),
                self.tmap().generic_nodes() == g0 + Seq::new((self.tmap().node_types().len() - n0.nodes.len()) as nat, |i: int| None::<Seq<TypeV>>),
                names_of(*self) == all_constrs_bound(tdefs@.take(k as int), n1),
                self.tmap().node_types().len() >= n1.nodes.len(),
                self.tmap().node_types().take(n1.nodes.len() as int) == n1.nodes,
                tdef_nodes.len() == tdefs.len(),
                forall|i: int| 0 <= i < tdefs.len() ==> #[trigger] tdef_nodes@[i] == n0.nodes.len() + i,
                forall|i: int| 0 <= i < tdefs.len() ==> #[trigger] n1.nodes[n0.nodes.len() + i] == TypeV::Custom(tdefs@[i].id@),
                self.tmap().subst() == old(self).tmap().subst(),
                self.tmap().constraints_view() == old(self).tmap().constraints_view(),
                self.tmap().next_id() == old(self).tmap().next_id(),
            decreases tdefs.len() - k,
        {
            let tdef = &tdefs[k];
            let tdef_type = match self.types.get_node_type(tdef_nodes[k]) {
                Some(t) => t,
                None => Type::Unit,
            };
            proof {
                assert(self.tmap().node_types().take(n1.nodes.len() as int)[tdef_nodes@[k as int] as int]
                    == self.tmap().node_types()[tdef_nodes@[k as int] as int]);
                assert(tdef_type@ == TypeV::Custom(tdef.id@));
                assert(tdefs@.take(k + 1).drop_last() =~= tdefs@.take(k as int));
                assert(tdef.constrs@.take(0) =~= Seq::<Constr>::empty());
            }
            let ghost m0 = names_of(*self);
            let constrs = &tdef.constrs;
            let mut j: usize = 0;
            while j < constrs.len()
                invariant
                    j <= constrs.len(),
                    self.wf(),
                    self.scopes_view().len() == old(self).scopes_view().len(),
                    keeps_names(old(self).scopes_view(), self.scopes_view()),
                keeps_names(old(self).scopes_view(), self.scopes_view()),
                    names_of(*self) == constrs_bound(constrs@.take(j as int), TypeV::Custom(tdef.id@), m0),
                    self.scopes_view().len() > 0,
                    tdef_type@ == TypeV::Custom(tdef.id@),
                    m0.nodes.len() <= self.tmap().node_types().len(),
                    self.tmap().node_types().take(m0.nodes.len() as int) == m0.nodes,
                    g0.len() == n0.nodes.len(),
                    n0.nodes.len() <= m0.nodes.len(),
                    self.tmap().generic_nodes() == g0 + Seq::new((self.tmap().node_types().len() - n0.nodes.len()) as nat, |i: int| None::<Seq<TypeV>>),
                    self.tmap().subst() == old(self).tmap().subst(),
                    self.tmap().constraints_view() == old(self).tmap().constraints_view(),
                    self.tmap().next_id() == old(self).tmap().next_id(),
                decreases constrs.len() - j,
            {
                let constr = &constrs[j];
                let ty = if constr.types.len() > 0 {
                    let mut arg_types: Vec<Type> = Vec::new();
                    let mut a: usize = 0;
                    while a < constr.types.len()
                        invariant
                            a <= constr.types.len(),
                            view_types(arg_types@) == annotated_types(constr.types@.take(a as int)),
                        decreases constr.types.len() - a,
                    {
                        let t = Type::from_annotation(&constr.types[a]);
                        let ghost before = arg_types@;
                        arg_types.push(t);
                        proof {
                            assert(constr.types@.take(a + 1).drop_last() =~= constr.types@.take(a as int));
                            assert(arg_types@.drop_last() =~= before);
                        }
                        a += 1;
                    }
                    proof {
                        assert(constr.types@.take(constr.types.len() as int) =~= constr.types@);
                    }
                    Type::new_multi_arg_func(arg_types, tdef_type.clone())
                } else {
                    proof {
                        assert(annotated_types(constr.types@) =~= Seq::<TypeV>::empty());
                    }
                    tdef_type.clone()
                };
                proof {
                    assert(ty@ == constr_type(*constr, TypeV::Custom(tdef.id@)));
                    let args = annotated_types(constr.types@);
                    lemma_annotated_types(constr.types@);
                    assert forall|i: int| 0 <= i < args.len() implies ids_below(#[trigger] args[i], self.tmap().next_id()) by {
                        assert forall|u: u32| !#[trigger] occurs(u, args[i]) by {
                            lemma_annotated_no_unknowns(constr.types@[i], u);
                        }
                    }
                    assert(forall|u: u32| !#[trigger] occurs(u, TypeV::Custom(tdef.id@)));
                    lemma_curried_ids(args, TypeV::Custom(tdef.id@), self.tmap().next_id());
                    assert(constrs@.take(j + 1).drop_last() =~= constrs@.take(j as int));
                }
                let ghost before_nodes = self.tmap().node_types();
                let node = self.types.insert(ty);
                self.insert_scope_binding(constr.id.as_str(), node);
                proof {
                    assert(self.tmap().generic_nodes() =~= g0 + Seq::new((self.tmap().node_types().len() - n0.nodes.len()) as nat, |i: int| None::<Seq<TypeV>>));
                    assert(self.tmap().node_types().take(m0.nodes.len() as int) =~= m0.nodes) by {
                        assert(before_nodes.take(m0.nodes.len() as int) == m0.nodes);
                        assert(self.tmap().node_types() == before_nodes.push(ty@));
                    }
                }
                j += 1;
            }
            proof {
                assert(constrs@.take(constrs.len() as int) =~= constrs@);
                assert(self.tmap().node_types().take(n1.nodes.len() as int) =~= n1.nodes) by {
                    assert(self.tmap().node_types().take(m0.nodes.len() as int).take(n1.nodes.len() as int)
                        =~= self.tmap().node_types().take(n1.nodes.len() as int));
                }
            }
            k += 1;
        }
        proof {
            assert(tdefs@.take(tdefs.len() as int) =~= tdefs@);
        }
        Ok(())
    }
}

} // verus!
