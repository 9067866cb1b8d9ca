use vstd::prelude::*;
use super::annotation::TypeAnnotation;
use super::expr::Expr;
use super::Span;

verus! {

/// A definition at the top of a program.
#[derive(Debug)]
pub enum Definition {
    Let(Letdef),
    Type(Typedef),
}

/// A group of value definitions, recursive or not.
#[derive(Debug)]
pub struct Letdef {
    pub rec: bool,
    pub defs: Vec<Def>,
    pub span: Span,
}

/// What a value definition defines: a constant, a mutable variable, a
/// mutable array, or a function.
#[derive(Debug)]
pub enum DefKind {
    Const { expr: Expr },
    Variable,
    Array { dims: Vec<Expr> },
    Function { pars: Vec<Par>, expr: Expr },
}

/// A value definition: its name, its type if written, and what it defines.
#[derive(Debug)]
pub struct Def {
    pub id: String,
    pub type_: Option<TypeAnnotation>,
    pub kind: DefKind,
    pub span: Span,
}

/// A parameter of a function definition, with its type if written.
#[derive(Debug)]
pub struct Par {
    pub id: String,
    pub type_: Option<TypeAnnotation>,
    pub span: Span,
}

/// A group of type definitions made together.
#[derive(Debug)]
pub struct Typedef {
    pub tdefs: Vec<TDef>,
    pub span: Span,
}

/// One type definition: its name and its constructors.
#[derive(Debug)]
pub struct TDef {
    pub id: String,
    pub constrs: Vec<Constr>,
    pub span: Span,
}

/// A constructor: its name and the types of its arguments.
#[derive(Debug)]
pub struct Constr {
    pub id: String,
    pub types: Vec<TypeAnnotation>,
    pub span: Span,
}

} // verus!
