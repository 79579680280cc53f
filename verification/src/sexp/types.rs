//! S-expression values.

use vstd::prelude::*;
use crate::error::Position;

verus! {

/// A symbol such as `foo` or `+`.
#[derive(Debug, Clone)]
pub struct Symbol {
    pub value: String,
    pub pos: Position,
}

/// A keyword such as `:name` (the name is stored without the colon).
#[derive(Debug, Clone)]
pub struct Keyword {
    pub name: String,
    pub pos: Position,
}

/// A string literal, with its escapes resolved.
#[derive(Debug, Clone)]
pub struct StringLit {
    pub value: String,
    pub pos: Position,
}

/// A number, kept as the text it was written with.
#[derive(Debug, Clone)]
pub struct Number {
    pub value: String,
    pub pos: Position,
}

/// The `nil` literal.
#[derive(Debug, Clone)]
pub struct Nil {
    pub pos: Position,
}

/// A parenthesised list.
#[derive(Debug)]
pub struct List {
    pub elements: Vec<SExp>,
    pub pos: Position,
}

/// An S-expression.
#[derive(Debug)]
pub enum SExp {
    Symbol(Symbol),
    Keyword(Keyword),
    String(StringLit),
    Number(Number),
    Nil(Nil),
    List(List),
}

/// The abstract value of an S-expression: strings as character sequences.
pub enum SExpV {
    Symbol(Seq<char>, Position),
    Keyword(Seq<char>, Position),
    Str(Seq<char>, Position),
    Number(Seq<char>, Position),
    Nil(Position),
    List(Seq<SExpV>, Position),
}

impl SExpV {
    pub open spec fn pos(self) -> Position {
        match self {
            SExpV::Symbol(_, p) => p,
            SExpV::Keyword(_, p) => p,
            SExpV::Str(_, p) => p,
            SExpV::Number(_, p) => p,
            SExpV::Nil(p) => p,
            SExpV::List(_, p) => p,
        }
    }
}

/// The abstract value of one S-expression.
pub open spec fn sexp_view(e: SExp) -> SExpV
    decreases e,
{
    match e {
        SExp::Symbol(s) => SExpV::Symbol(s.value@, s.pos),
        SExp::Keyword(k) => SExpV::Keyword(k.name@, k.pos),
        SExp::String(s) => SExpV::Str(s.value@, s.pos),
        SExp::Number(n) => SExpV::Number(n.value@, n.pos),
        SExp::Nil(n) => SExpV::Nil(n.pos),
        SExp::List(l) => SExpV::List(seq_view(l.elements@), l.pos),
    }
}

/// The abstract values of a sequence of S-expressions.
pub open spec fn seq_view(s: Seq<SExp>) -> Seq<SExpV>
    decreases s,
{
    if s.len() == 0 {
        Seq::empty()
    } else {
        seq![sexp_view(s[0])] + seq_view(s.subrange(1, s.len() as int))
    }
}

impl View for SExp {
    type V = SExpV;

    open spec fn view(&self) -> SExpV {
        sexp_view(*self)
    }
}

impl View for List {
    type V = Seq<SExpV>;

    open spec fn view(&self) -> Seq<SExpV> {
        seq_view(self.elements@)
    }
}

impl SExp {
    /// The position where this expression starts.
    pub fn position(&self) -> (p: Position)
        ensures
            p == self@.pos(),
    {
        match self {
            SExp::Symbol(s) => s.pos,
            SExp::Keyword(k) => k.pos,
            SExp::String(s) => s.pos,
            SExp::Number(n) => n.pos,
            SExp::Nil(n) => n.pos,
            SExp::List(l) => l.pos,
        }
    }
}

} // verus!
