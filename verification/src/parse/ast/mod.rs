pub mod annotation;
pub mod def;
pub mod expr;
pub mod view;
pub mod print;

use vstd::prelude::*;
use crate::lex::token::Position;
use self::def::Definition;

verus! {

/// Where a piece of source text starts and ends.
#[derive(Debug)]
pub struct Span {
    pub start: Position,
    pub end: Position,
}

impl Span {
    pub fn new(start: Position, end: Position) -> (r: Self)
        ensures
            r.start == start,
            r.end == end,
    {
        Self { start, end }
    }
}

impl Clone for Span {
    fn clone(&self) -> (r: Self)
        ensures
            r == *self,
    {
        Span { start: self.start.clone(), end: self.end.clone() }
    }
}

impl Default for Span {
    fn default() -> (r: Self)
        ensures
            r.start.line == 0 && r.start.column == 0 && r.start.filename@ == Seq::<char>::empty(),
            r.end.line == 0 && r.end.column == 0 && r.end.filename@ == Seq::<char>::empty(),
    {
        Span { start: Position::default(), end: Position::default() }
    }
}

/// A whole program: its definitions, in order.
#[derive(Debug)]
pub struct Program {
    pub definitions: Vec<Definition>,
    pub span: Span,
}

impl Program {
    pub fn new(definitions: Vec<Definition>, from: Position, to: Position) -> (r: Self)
        ensures
            r.definitions == definitions,
            r.span == (Span { start: from, end: to }),
    {
        Program { definitions, span: Span::new(from, to) }
    }
}

} // verus!
