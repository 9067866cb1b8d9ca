use vstd::prelude::*;
use crate::lex::token::TokenKind;
use crate::pass::sem::types::{Type, TypeV};
use crate::pass::sem::types::inference::ArrayDims;

verus! {

/// A type as the program writes it.
#[derive(Debug)]
pub enum TypeAnnotation {
    Unit,
    Int,
    Char,
    Bool,
    Float,
    Func { lhs: Box<TypeAnnotation>, rhs: Box<TypeAnnotation> },
    Ref(Box<TypeAnnotation>),
    Array { inner: Box<TypeAnnotation>, dim_cnt: u32 },
    Tuple(Vec<TypeAnnotation>),
    Custom { id: String },
}

/// The type that an annotation stands for; arrays of it have exactly the
/// written number of dimensions.
pub open spec fn annotated_type(a: TypeAnnotation) -> TypeV
    decreases a,
{
    match a {
        TypeAnnotation::Unit => TypeV::Unit,
        TypeAnnotation::Int => TypeV::Int,
        TypeAnnotation::Char => TypeV::Char,
        TypeAnnotation::Bool => TypeV::Bool,
        TypeAnnotation::Float => TypeV::Float,
        TypeAnnotation::Func { lhs, rhs } => TypeV::Func(Box::new(annotated_type(*lhs)), Box::new(annotated_type(*rhs))),
        TypeAnnotation::Ref(inner) => TypeV::Ref(Box::new(annotated_type(*inner))),
        TypeAnnotation::Array { inner, dim_cnt } => TypeV::Array(Box::new(annotated_type(*inner)), ArrayDims::Known(dim_cnt)),
        TypeAnnotation::Tuple(types) => TypeV::Tuple(annotated_types(types@)),
        TypeAnnotation::Custom { id } => TypeV::Custom(id@),
    }
}

pub open spec fn annotated_types(ts: Seq<TypeAnnotation>) -> Seq<TypeV>
    decreases ts,
{
    if ts.len() == 0 {
        Seq::empty()
    } else {
        proof {
            assert(decreases_to!(ts => ts.subrange(0, ts.len() - 1)));
        }
        annotated_types(ts.drop_last()).push(annotated_type(ts[ts.len() - 1]))
    }
}

impl View for TypeAnnotation {
    type V = TypeV;

    open spec fn view(&self) -> TypeV {
        annotated_type(*self)
    }
}

pub proof fn lemma_annotated_types(ts: Seq<TypeAnnotation>)
    ensures
        annotated_types(ts).len() == ts.len(),
        forall|i: int| 0 <= i < ts.len() ==> #[trigger] annotated_types(ts)[i] == annotated_type(ts[i]),
    decreases ts.len(),
{
    if ts.len() > 0 {
        lemma_annotated_types(ts.drop_last());
        assert forall|i: int| 0 <= i < ts.len() implies #[trigger] annotated_types(ts)[i] == annotated_type(ts[i]) by {
            if i < ts.len() - 1 {
                assert(ts.drop_last()[i] == ts[i]);
            }
        }
    }
}

pub proof fn lemma_annotated_types_push(ts: Seq<TypeAnnotation>, t: TypeAnnotation)
    ensures
        annotated_types(ts.push(t)) == annotated_types(ts).push(annotated_type(t)),
{
    assert(ts.push(t).drop_last() =~= ts);
}

/// The token kinds that name a basic type.
pub open spec fn is_basic_type_token(k: TokenKind) -> bool {
    k == TokenKind::Unit || k == TokenKind::Int || k == TokenKind::Char || k == TokenKind::Bool || k == TokenKind::Float
}

impl TypeAnnotation {
    /// The one type of a one-element list, else the tuple of the list.
    pub fn maybe_tuple(types: Vec<TypeAnnotation>) -> (r: Self)
        ensures
            types@.len() == 1 ==> r == types@[0],
            types@.len() != 1 ==> r == TypeAnnotation::Tuple(types),
    {
        if types.len() == 1 {
            let mut types = types;
            types.pop().unwrap()
        } else {
            TypeAnnotation::Tuple(types)
        }
    }

    /// The basic type a token kind names.
    pub fn from_token_kind(token_kind: &TokenKind) -> (r: Self)
        requires
            is_basic_type_token(*token_kind),
        ensures
            *token_kind == TokenKind::Unit ==> r is Unit,
            *token_kind == TokenKind::Int ==> r is Int,
            *token_kind == TokenKind::Char ==> r is Char,
            *token_kind == TokenKind::Bool ==> r is Bool,
            *token_kind == TokenKind::Float ==> r is Float,
    {
        match token_kind {
            TokenKind::Unit => TypeAnnotation::Unit,
            TokenKind::Int => TypeAnnotation::Int,
            TokenKind::Char => TypeAnnotation::Char,
            TokenKind::Bool => TypeAnnotation::Bool,
            _ => TypeAnnotation::Float,
        }
    }
}

impl Type {
    /// The type an annotation stands for.
    pub fn from_annotation(annotation: &TypeAnnotation) -> (r: Type)
        ensures
            r@ == annotation@,
        decreases annotation,
    {
        match annotation {
            TypeAnnotation::Unit => Type::Unit,
            TypeAnnotation::Int => Type::Int,
            TypeAnnotation::Char => Type::Char,
            TypeAnnotation::Bool => Type::Bool,
            TypeAnnotation::Float => Type::Float,
            TypeAnnotation::Func { lhs, rhs } => Type::new_func(Type::from_annotation(lhs), Type::from_annotation(rhs)),
            TypeAnnotation::Ref(inner) => Type::new_ref(Type::from_annotation(inner)),
            TypeAnnotation::Array { inner, dim_cnt } => Type::new_known_array(Type::from_annotation(inner), *dim_cnt),
            TypeAnnotation::Tuple(types) => {
                let mut out: Vec<Type> = Vec::new();
                let mut i: usize = 0;
                while i < types.len()
                    invariant
                        *annotation == TypeAnnotation::Tuple(*types),
                        i <= types.len(),
                        out.len() == i,
                        forall|k: int| 0 <= k < i ==> #[trigger] crate::pass::sem::types::view_type(out@[k]) == annotated_type(types@[k]),
                    decreases types.len() - i,
                {
                    proof {
                        assert(decreases_to!(*types => types@[i as int]));
                        assert(decreases_to!(*annotation => annotation->Tuple_0));
                        assert(annotation->Tuple_0 == *types);
                    }
                    let t = Type::from_annotation(&types[i]);
                    out.push(t);
                    i += 1;
                }
                proof {
                    crate::pass::sem::types::lemma_view_types(out@);
                    lemma_annotated_types(types@);
                    assert(crate::pass::sem::types::view_types(out@) =~= annotated_types(types@));
                }
                Type::new_tuple(out)
            },
            TypeAnnotation::Custom { id } => Type::Custom { id: id.clone() },
        }
    }
}

} // verus!
