use vstd::prelude::*;
use crate::parse::ast::Span;
use crate::parse::ast::expr::{Binop, BinopKind, Unop, UnopKind};
use super::SemResult;
use super::sem_table::SemTable;
use super::pattern::{GenState, UnifV, unif_view, gen_state, group_within, lemma_group_grows, lemma_group_push};
use super::types::inference::{extends, lemma_extends_trans, lemma_extends_refl, lemma_extends_push};
use super::types::subst::{ids_below, occurs};
use super::types::{Type, TypeV};
use super::types::inference::{Constraints, ConstraintsV, InferenceGroup, Unification, TypeKind, group_ok};
use super::types::type_map::TypeMap;

verus! {

broadcast use lemma_extends_trans, lemma_extends_refl, lemma_extends_push;

/// `b` is `a`, or `a` with one new unbound unknown type under `c`.
pub open spec fn made_unknown(a: TypeMap, b: TypeMap, c: Option<ConstraintsV>) -> bool {
    match c {
        None => {
            &&& b.subst() == a.subst()
            &&& b.constraints_view() == a.constraints_view()
            &&& b.next_id() == a.next_id()
        },
        Some(cv) => {
            &&& b.next_id() == a.next_id() + 1
            &&& b.subst().bind == a.subst().bind.push(None)
            &&& b.subst().order == a.subst().order.push(0)
            &&& b.subst().clock == a.subst().clock
            &&& b.constraints_view() == a.constraints_view().push(cv)
        },
    }
}

pub open spec fn no_constraints() -> ConstraintsV {
    ConstraintsV { allowed: Set::empty(), disallowed: Set::empty() }
}

pub open spec fn numeric_constraints() -> ConstraintsV {
    ConstraintsV { allowed: set![TypeKind::Int, TypeKind::Float], disallowed: Set::empty() }
}

pub open spec fn comparable_constraints() -> ConstraintsV {
    ConstraintsV { allowed: set![TypeKind::Int, TypeKind::Float, TypeKind::Char], disallowed: Set::empty() }
}

pub open spec fn no_array_or_func_constraints() -> ConstraintsV {
    ConstraintsV { allowed: Set::empty(), disallowed: set![TypeKind::Array, TypeKind::Func] }
}

/// The constraints of the unknown type that a binary operator makes, if it
/// makes one.
pub open spec fn binop_unknown(op: BinopKind) -> Option<ConstraintsV> {
    match op {
        BinopKind::Add | BinopKind::Sub | BinopKind::Mul | BinopKind::Div | BinopKind::Pow => Some(numeric_constraints()),
        BinopKind::NatEq | BinopKind::NatNotEq | BinopKind::StrEq | BinopKind::StrNotEq => Some(no_array_or_func_constraints()),
        BinopKind::Lt | BinopKind::Gt | BinopKind::LEq | BinopKind::GEq => Some(comparable_constraints()),
        BinopKind::Assign => Some(no_constraints()),
        _ => None,
    }
}

pub open spec fn push_unif(st: GenState, lhs: TypeV, rhs: TypeV, span: Span, msg: Seq<char>) -> GenState {
    GenState { group: st.group.push(UnifV { lhs, rhs, span, msg }), ..st }
}

/// What analysing a binary operation whose operands have the types `lt` and
/// `rt` does: the unifications it adds and the type it gives. Where the
/// operator makes an unknown type, it is the one numbered `st.next`.
pub open spec fn binop_gen(op: BinopKind, lt: TypeV, rt: TypeV, span: Span, st: GenState) -> (GenState, TypeV) {
    let u = TypeV::Unknown(st.next as u32);
    let st1 = GenState { next: st.next + 1, ..st };
    match op {
        BinopKind::Add | BinopKind::Sub | BinopKind::Mul | BinopKind::Div | BinopKind::Pow => (
            push_unif(
                push_unif(st1, lt, u, span, "binary '+-*/ **' left operand must be numeric"@),
                rt, u, span, "binary '+-*/ **' right operand must be numeric"@,
            ),
            rt,
        ),
        BinopKind::Mod => (
            push_unif(
                push_unif(st, lt, TypeV::Int, span, "mod left operand must be an integer"@),
                rt, TypeV::Int, span, "mod right operand must be an integer"@,
            ),
            TypeV::Int,
        ),
        BinopKind::NatEq | BinopKind::NatNotEq | BinopKind::StrEq | BinopKind::StrNotEq => (
            push_unif(
                push_unif(st1, lt, u, span, "cannot equality compare arrays or functions"@),
                rt, u, span, "cannot equality compare arrays or functions"@,
            ),
            TypeV::Bool,
        ),
        BinopKind::Lt | BinopKind::Gt | BinopKind::LEq | BinopKind::GEq => (
            push_unif(
                push_unif(st1, lt, u, span, "only int/float/char are ordered"@),
                rt, u, span, "only int/float/char are ordered"@,
            ),
            TypeV::Bool,
        ),
        BinopKind::And | BinopKind::Or => (
            push_unif(
                push_unif(st, lt, TypeV::Bool, span, "'&&, ||' operands must be booleans"@),
                rt, TypeV::Bool, span, "'&&, ||' operands must be booleans"@,
            ),
            TypeV::Bool,
        ),
        BinopKind::Semicolon => (st, rt),
        BinopKind::Assign => (
            push_unif(
                push_unif(st1, lt, TypeV::Ref(Box::new(u)), span, "lhs of ':=' operator must be a reference"@),
                rt, u, span, "rhs of ':=' operator must be same as pointed at by lhs"@,
            ),
            TypeV::Unit,
        ),
    }
}

/// The constraints of the unknown type that a unary operator makes, if it
/// makes one.
pub open spec fn unop_unknown(op: UnopKind) -> Option<ConstraintsV> {
    match op {
        UnopKind::Plus | UnopKind::Minus => Some(numeric_constraints()),
        UnopKind::Not => None,
        _ => Some(no_constraints()),
    }
}

/// What analysing a unary operation whose operand has the type `ot` does.
pub open spec fn unop_gen(op: UnopKind, ot: TypeV, span: Span, st: GenState) -> (GenState, TypeV) {
    let u = TypeV::Unknown(st.next as u32);
    let st1 = GenState { next: st.next + 1, ..st };
    match op {
        UnopKind::Plus | UnopKind::Minus => (push_unif(st1, ot, u, span, "unary '+/-' operand must be numeric"@), ot),
        UnopKind::Not => (push_unif(st, ot, TypeV::Bool, span, "unary 'not' operand must be boolean"@), TypeV::Bool),
        UnopKind::Deref => (push_unif(st1, ot, TypeV::Ref(Box::new(u)), span, "cannot dereference non-reference"@), u),
        UnopKind::Delete => (push_unif(st1, ot, TypeV::Ref(Box::new(u)), span, "cannot delete non-reference"@), TypeV::Unit),
    }
}

/// The group after one more unification of types below the bound stays
/// below it, where it was.
proof fn lemma_keep_within(g0: Seq<Unification>, g1: Seq<Unification>, n: nat, m: nat, ok: bool)
    requires
        n <= m,
        g1 == g0.push(g1.last()),
        ok ==> group_ok(g0, m),
        ok ==> ids_below(g1.last().lhs@, m) && ids_below(g1.last().rhs@, m),
    ensures
        ok ==> group_ok(g1, m),
{
    if ok {
        lemma_group_push(g0, g1.last(), m);
    }
}

pub proof fn lemma_push_view(g0: Seq<Unification>, u: Unification)
    ensures
        g0.push(u).map_values(|x: Unification| unif_view(x)) == g0.map_values(|x: Unification| unif_view(x)).push(unif_view(u)),
{
    assert(g0.push(u).map_values(|x: Unification| unif_view(x)) =~= g0.map_values(|x: Unification| unif_view(x)).push(unif_view(u)));
}

impl SemTable {
    /// Makes a new unknown type under `c` for the analysis.
    fn fresh_unknown(&mut self, c: Constraints) -> (r: Type)
        requires
            old(self).wf(),
            old(self).tmap().next_id() < u32::MAX,
        ensures
            final(self).wf(),
            r@ == TypeV::Unknown(old(self).tmap().next_id() as u32),
            made_unknown(old(self).tmap(), final(self).tmap(), Some(c@)),
            final(self).scopes_view() == old(self).scopes_view(),
            final(self).tmap().node_types() == old(self).tmap().node_types(),
            final(self).tmap().generic_nodes() == old(self).tmap().generic_nodes(),
    {
        let r = self.types.new_unknown_with_constraint(c);
        proof {
            assert(self.scopes_view() == old(self).scopes_view());
            assert(self.tmap().node_types() == old(self).tmap().node_types());
            assert(self.tmap().nodes_ok());
            assert(self.tmap().wf());
        }
        r
    }

    /// The analysis of a binary operation at `span` whose operands have the
    /// types `lhs_type` and `rhs_type`: adds the unifications the operator
    /// asks of them and gives the type of the operation.
    #[verifier::spinoff_prover]
    pub fn sem_binop(&mut self, inf_group: &mut InferenceGroup, binop: &Binop, span: &Span, lhs_type: Type, rhs_type: Type)
        -> (r: SemResult<Type>)
        requires
            old(self).wf(),
            old(self).tmap().next_id() < u32::MAX,
        ensures
            final(self).wf(),
            r is Ok,
            ({
                let (st, t) = binop_gen(binop.op, lhs_type@, rhs_type@, *span, gen_state(*old(self), *old(inf_group)));
                &&& gen_state(*final(self), *final(inf_group)) == st
                &&& r->Ok_0@ == t
            }),
            made_unknown(old(self).tmap(), final(self).tmap(), binop_unknown(binop.op)),
            final(self).tmap().generic_nodes() == old(self).tmap().generic_nodes(),
            group_within(*old(inf_group), *old(self)) && ids_below(lhs_type@, old(self).tmap().next_id())
                && ids_below(rhs_type@, old(self).tmap().next_id()) ==> group_within(*final(inf_group), *final(self)),
            extends(old(inf_group).items(), final(inf_group).items()),
    {
        let ghost ok0 = group_within(*inf_group, *self) && ids_below(lhs_type@, self.tmap().next_id())
            && ids_below(rhs_type@, self.tmap().next_id());
        let ghost g0 = inf_group.items();
        let ghost st0 = gen_state(*self, *inf_group);
        let (c, lmsg, rmsg): (Constraints, &'static str, &'static str) = match binop.op {
            BinopKind::Add | BinopKind::Sub | BinopKind::Mul | BinopKind::Div | BinopKind::Pow => (
                Constraints::allow_numeric(),
                "binary '+-*/ **' left operand must be numeric",
                "binary '+-*/ **' right operand must be numeric",
            ),
            BinopKind::NatEq | BinopKind::NatNotEq | BinopKind::StrEq | BinopKind::StrNotEq => (
                Constraints::disallow_array_and_func(),
                "cannot equality compare arrays or functions",
                "cannot equality compare arrays or functions",
            ),
            BinopKind::Lt | BinopKind::Gt | BinopKind::LEq | BinopKind::GEq => (
                Constraints::allow_comparables(),
                "only int/float/char are ordered",
                "only int/float/char are ordered",
            ),
            BinopKind::Assign => (
                Constraints::new(),
                "lhs of ':=' operator must be a reference",
                "rhs of ':=' operator must be same as pointed at by lhs",
            ),
            BinopKind::Mod => (Constraints::new(), "mod left operand must be an integer", "mod right operand must be an integer"),
            _ => (Constraints::new(), "'&&, ||' operands must be booleans", "'&&, ||' operands must be booleans"),
        };
        proof {
            assert(c@ == numeric_constraints() || c@ == no_array_or_func_constraints() || c@ == comparable_constraints()
                || c@ == no_constraints()) by {
                assert(numeric_constraints().allowed =~= set![TypeKind::Int, TypeKind::Float]);
            }
            if binop_unknown(binop.op) is Some {
                assert(c@ == binop_unknown(binop.op)->0) by {
                    assert(set![TypeKind::Int, TypeKind::Float] =~= numeric_constraints().allowed);
                }
            }
        }
        match binop.op {
            BinopKind::Mod => {
                inf_group.insert_unification(lhs_type, self.types.get_int(), lmsg, span);
                proof { lemma_push_view(g0, inf_group.items().last()); lemma_keep_within(g0, inf_group.items(), old(self).tmap().next_id(), self.tmap().next_id(), ok0); }
                let ghost g1 = inf_group.items();
                inf_group.insert_unification(rhs_type, self.types.get_int(), rmsg, span);
                proof { lemma_push_view(g1, inf_group.items().last()); lemma_keep_within(g1, inf_group.items(), old(self).tmap().next_id(), self.tmap().next_id(), ok0); }
                Ok(self.types.get_int())
            },
            BinopKind::And | BinopKind::Or => {
                inf_group.insert_unification(lhs_type, self.types.get_bool(), lmsg, span);
                proof { lemma_push_view(g0, inf_group.items().last()); lemma_keep_within(g0, inf_group.items(), old(self).tmap().next_id(), self.tmap().next_id(), ok0); }
                let ghost g1 = inf_group.items();
                inf_group.insert_unification(rhs_type, self.types.get_bool(), rmsg, span);
                proof { lemma_push_view(g1, inf_group.items().last()); lemma_keep_within(g1, inf_group.items(), old(self).tmap().next_id(), self.tmap().next_id(), ok0); }
                Ok(self.types.get_bool())
            },
            BinopKind::Semicolon => Ok(rhs_type),
            BinopKind::Assign => {
                let unknown = self.fresh_unknown(c);
                let unknown_ref = Type::new_ref(unknown.clone());
                proof {
                    assert forall|u: u32| #[trigger] occurs(u, unknown_ref@) implies u < self.tmap().next_id() by {
                        assert(occurs(u, unknown@));
                    }
                }
                inf_group.insert_unification(lhs_type, unknown_ref, lmsg, span);
                proof { lemma_push_view(g0, inf_group.items().last()); lemma_keep_within(g0, inf_group.items(), old(self).tmap().next_id(), self.tmap().next_id(), ok0); }
                let ghost g1 = inf_group.items();
                inf_group.insert_unification(rhs_type, unknown, rmsg, span);
                proof { lemma_push_view(g1, inf_group.items().last()); lemma_keep_within(g1, inf_group.items(), old(self).tmap().next_id(), self.tmap().next_id(), ok0); }
                Ok(self.types.get_unit())
            },
            _ => {
                let unknown = self.fresh_unknown(c);
                let rt = rhs_type.clone();
                inf_group.insert_unification(lhs_type, unknown.clone(), lmsg, span);
                proof { lemma_push_view(g0, inf_group.items().last()); lemma_keep_within(g0, inf_group.items(), old(self).tmap().next_id(), self.tmap().next_id(), ok0); }
                let ghost g1 = inf_group.items();
                inf_group.insert_unification(rhs_type, unknown, rmsg, span);
                proof { lemma_push_view(g1, inf_group.items().last()); lemma_keep_within(g1, inf_group.items(), old(self).tmap().next_id(), self.tmap().next_id(), ok0); }
                match binop.op {
                    BinopKind::Add | BinopKind::Sub | BinopKind::Mul | BinopKind::Div | BinopKind::Pow => Ok(rt),
                    _ => Ok(self.types.get_bool()),
                }
            },
        }
    }

    /// The analysis of a unary operation at `span` whose operand has the
    /// type `op_type`: adds the unification the operator asks of it and
    /// gives the type of the operation.
    #[verifier::spinoff_prover]
    pub fn sem_unop(&mut self, inf_group: &mut InferenceGroup, unop: &Unop, span: &Span, op_type: Type) -> (r: SemResult<Type>)
        requires
            old(self).wf(),
            old(self).tmap().next_id() < u32::MAX,
        ensures
            final(self).wf(),
            r is Ok,
            ({
                let (st, t) = unop_gen(unop.op, op_type@, *span, gen_state(*old(self), *old(inf_group)));
                &&& gen_state(*final(self), *final(inf_group)) == st
                &&& r->Ok_0@ == t
            }),
            made_unknown(old(self).tmap(), final(self).tmap(), unop_unknown(unop.op)),
            final(self).tmap().generic_nodes() == old(self).tmap().generic_nodes(),
            group_within(*old(inf_group), *old(self)) && ids_below(op_type@, old(self).tmap().next_id())
                ==> group_within(*final(inf_group), *final(self)),
            extends(old(inf_group).items(), final(inf_group).items()),
    {
        let ghost ok0 = group_within(*inf_group, *self) && ids_below(op_type@, self.tmap().next_id());
        let ghost g0 = inf_group.items();
        match unop.op {
            UnopKind::Plus | UnopKind::Minus => {
                let unknown_numeric = self.fresh_unknown(Constraints::allow_numeric());
                proof {
                    assert(set![TypeKind::Int, TypeKind::Float] =~= numeric_constraints().allowed);
                }
                let t = op_type.clone();
                inf_group.insert_unification(op_type, unknown_numeric, "unary '+/-' operand must be numeric", span);
                proof { lemma_push_view(g0, inf_group.items().last()); lemma_keep_within(g0, inf_group.items(), old(self).tmap().next_id(), self.tmap().next_id(), ok0); }
                Ok(t)
            },
            UnopKind::Not => {
                inf_group.insert_unification(op_type, self.types.get_bool(), "unary 'not' operand must be boolean", span);
                proof { lemma_push_view(g0, inf_group.items().last()); lemma_keep_within(g0, inf_group.items(), old(self).tmap().next_id(), self.tmap().next_id(), ok0); }
                Ok(self.types.get_bool())
            },
            UnopKind::Deref => {
                let inner = self.fresh_unknown(Constraints::new());
                let unknown_ref = Type::new_ref(inner.clone());
                proof {
                    assert forall|u: u32| #[trigger] occurs(u, unknown_ref@) implies u < self.tmap().next_id() by {
                        assert(occurs(u, inner@));
                    }
                }
                inf_group.insert_unification(op_type, unknown_ref, "cannot dereference non-reference", span);
                proof { lemma_push_view(g0, inf_group.items().last()); lemma_keep_within(g0, inf_group.items(), old(self).tmap().next_id(), self.tmap().next_id(), ok0); }
                Ok(inner)
            },
            UnopKind::Delete => {
                let inner = self.fresh_unknown(Constraints::new());
                let ghost iv = inner@;
                let unknown_ref = Type::new_ref(inner);
                proof {
                    assert forall|u: u32| #[trigger] occurs(u, unknown_ref@) implies u < self.tmap().next_id() by {
                        assert(occurs(u, iv));
                    }
                }
                inf_group.insert_unification(op_type, unknown_ref, "cannot delete non-reference", span);
                proof { lemma_push_view(g0, inf_group.items().last()); lemma_keep_within(g0, inf_group.items(), old(self).tmap().next_id(), self.tmap().next_id(), ok0); }
                Ok(self.types.get_unit())
            },
        }
    }
}

} // verus!

verus! {

/// The type an operation gets from its operator, whatever the types of its
/// operands: `mod` gives an integer and asks both operands to be integers;
/// `+ - * / **` give the type of their right operand, and ask both operands
/// to be one new unknown type that only an integer or a float may fill, so
/// that their result is numeric; the order comparisons, the equality tests,
/// `&&` and `||` give a boolean, the comparisons asking both operands to be
/// one integer, float or character type, the equality tests one type that
/// is no array and no function, `&&` and `||` two booleans; `:=` gives the
/// unit type; `;` gives the type of its right operand.
pub proof fn law_binop_result_types(op: BinopKind, lt: TypeV, rt: TypeV, span: Span, st: GenState)
    ensures
        ({
            let (s, t) = binop_gen(op, lt, rt, span, st);
            let n = st.group.len() as int;
            let u = TypeV::Unknown(st.next as u32);
            &&& op is Mod ==> {
                &&& t == TypeV::Int
                &&& s.group.len() == n + 2
                &&& s.group[n].lhs == lt && s.group[n].rhs == TypeV::Int
                &&& s.group[n + 1].lhs == rt && s.group[n + 1].rhs == TypeV::Int
            }
            &&& (op is Add || op is Sub || op is Mul || op is Div || op is Pow) ==> {
                &&& t == rt
                &&& s.next == st.next + 1
                &&& s.group.len() == n + 2
                &&& s.group[n].lhs == lt && s.group[n].rhs == u
                &&& s.group[n + 1].lhs == rt && s.group[n + 1].rhs == u
                &&& binop_unknown(op) == Some(ConstraintsV { allowed: set![TypeKind::Int, TypeKind::Float], disallowed: Set::empty() })
            }
            &&& (op is Lt || op is Gt || op is LEq || op is GEq || op is StrEq || op is StrNotEq
                || op is NatEq || op is NatNotEq || op is And || op is Or) ==> t == TypeV::Bool
            &&& (op is Lt || op is Gt || op is LEq || op is GEq) ==> {
                &&& s.group.len() == n + 2
                &&& s.group[n].lhs == lt && s.group[n].rhs == u
                &&& s.group[n + 1].lhs == rt && s.group[n + 1].rhs == u
                &&& binop_unknown(op) == Some(ConstraintsV { allowed: set![TypeKind::Int, TypeKind::Float, TypeKind::Char], disallowed: Set::empty() })
            }
            &&& (op is StrEq || op is StrNotEq || op is NatEq || op is NatNotEq) ==> {
                &&& s.group.len() == n + 2
                &&& s.group[n].lhs == lt && s.group[n].rhs == u
                &&& s.group[n + 1].lhs == rt && s.group[n + 1].rhs == u
                &&& binop_unknown(op) == Some(ConstraintsV { allowed: Set::empty(), disallowed: set![TypeKind::Array, TypeKind::Func] })
            }
            &&& (op is And || op is Or) ==> {
                &&& s.group.len() == n + 2
                &&& s.group[n].lhs == lt && s.group[n].rhs == TypeV::Bool
                &&& s.group[n + 1].lhs == rt && s.group[n + 1].rhs == TypeV::Bool
            }
            &&& op is Assign ==> t == TypeV::Unit
            &&& op is Semicolon ==> t == rt
        }),
{
}

/// The type a unary operation gets from its operator, whatever the type of
/// its operand: `not` gives a boolean and asks a boolean; `+` and `-` give
/// the operand's type and ask it to be a new unknown type that only an
/// integer or a float may fill; `!` asks a reference to a new unknown type
/// and gives that type; `delete` asks a reference and gives the unit type.
pub proof fn law_unop_result_types(op: UnopKind, ot: TypeV, span: Span, st: GenState)
    ensures
        ({
            let (s, t) = unop_gen(op, ot, span, st);
            let n = st.group.len() as int;
            let u = TypeV::Unknown(st.next as u32);
            &&& s.group.len() == n + 1
            &&& s.group[n].lhs == ot
            &&& op is Not ==> t == TypeV::Bool && s.group[n].rhs == TypeV::Bool
            &&& (op is Plus || op is Minus) ==> t == ot && s.group[n].rhs == u
                && unop_unknown(op) == Some(ConstraintsV { allowed: set![TypeKind::Int, TypeKind::Float], disallowed: Set::empty() })
            &&& op is Deref ==> t == u && s.group[n].rhs == TypeV::Ref(Box::new(u))
            &&& op is Delete ==> t == TypeV::Unit && s.group[n].rhs == TypeV::Ref(Box::new(u))
        }),
{
}

} // verus!

