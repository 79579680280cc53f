//! Expressions, macro calls and literals.

use vstd::prelude::*;
use crate::ast::{AttrVec, NodeId, Path, PathV, QSelf, Span};

verus! {

/// Spans of an opening and a closing delimiter.
#[derive(Debug, Clone, Copy, PartialEq, Eq, Structural)]
pub struct DelSpan {
    pub open: Span,
    pub close: Span,
}

impl DelSpan {
    pub fn new(open: Span, close: Span) -> (d: Self)
        ensures
            d == (DelSpan { open, close }),
    {
        DelSpan { open, close }
    }
}

/// A delimiter around macro arguments.
#[derive(Debug, Clone, Copy, PartialEq, Eq, Structural)]
pub enum Delimiter {
    Paren,
    Brace,
    Bracket,
    Invisible,
}

/// Tokens, kept as their source text.
#[derive(Debug, Clone, PartialEq)]
pub enum TokenStream {
    Empty,
    Source(String),
}

pub enum TokenStreamV {
    Empty,
    Source(Seq<char>),
}

impl View for TokenStream {
    type V = TokenStreamV;

    open spec fn view(&self) -> TokenStreamV {
        match self {
            TokenStream::Empty => TokenStreamV::Empty,
            TokenStream::Source(s) => TokenStreamV::Source(s@),
        }
    }
}

/// Arguments of a macro call.
#[derive(Debug, Clone, PartialEq)]
pub enum MacArgs {
    Empty,
    Delimited { dspan: DelSpan, delim: Delimiter, tokens: TokenStream },
    Eq { eq_span: Span, tokens: TokenStream },
}

pub enum MacArgsV {
    Empty,
    Delimited { dspan: DelSpan, delim: Delimiter, tokens: TokenStreamV },
    Eq { eq_span: Span, tokens: TokenStreamV },
}

impl View for MacArgs {
    type V = MacArgsV;

    open spec fn view(&self) -> MacArgsV {
        match self {
            MacArgs::Empty => MacArgsV::Empty,
            MacArgs::Delimited { dspan, delim, tokens } => MacArgsV::Delimited {
                dspan: *dspan,
                delim: *delim,
                tokens: tokens@,
            },
            MacArgs::Eq { eq_span, tokens } => MacArgsV::Eq { eq_span: *eq_span, tokens: tokens@ },
        }
    }
}

/// A macro call such as `println!("hi")`.
#[derive(Debug, Clone, PartialEq)]
pub struct MacCall {
    pub path: Path,
    pub args: MacArgs,
    pub prior_type_ascription: Option<(Span, bool)>,
}

pub struct MacCallV {
    pub path: PathV,
    pub args: MacArgsV,
    pub prior_type_ascription: Option<(Span, bool)>,
}

impl View for MacCall {
    type V = MacCallV;

    open spec fn view(&self) -> MacCallV {
        MacCallV {
            path: self.path@,
            args: self.args@,
            prior_type_ascription: self.prior_type_ascription,
        }
    }
}

impl MacCall {
    pub fn new(path: Path, args: MacArgs) -> (m: Self)
        ensures
            m@ == (MacCallV { path: path@, args: args@, prior_type_ascription: None }),
    {
        MacCall { path, args, prior_type_ascription: None }
    }
}

/// A literal.
#[derive(Debug, Clone, PartialEq)]
pub struct Lit {
    pub kind: LitKind,
    pub span: Span,
}

#[derive(Debug, Clone, PartialEq)]
pub enum LitKind {
    Str(String),
    Int(i128),
    Bool(bool),
    Char(char),
}

pub enum LitKindV {
    Str(Seq<char>),
    Int(i128),
    Bool(bool),
    Char(char),
}

pub struct LitV {
    pub kind: LitKindV,
    pub span: Span,
}

impl View for LitKind {
    type V = LitKindV;

    open spec fn view(&self) -> LitKindV {
        match self {
            LitKind::Str(s) => LitKindV::Str(s@),
            LitKind::Int(i) => LitKindV::Int(*i),
            LitKind::Bool(b) => LitKindV::Bool(*b),
            LitKind::Char(c) => LitKindV::Char(*c),
        }
    }
}

impl View for Lit {
    type V = LitV;

    open spec fn view(&self) -> LitV {
        LitV { kind: self.kind@, span: self.span }
    }
}

/// Kinds of expressions.
#[derive(Debug, Clone, PartialEq)]
pub enum ExprKind {
    MacCall(MacCall),
    Lit(Lit),
    Path(Option<QSelf>, Path),
}

pub enum ExprKindV {
    MacCall(MacCallV),
    Lit(LitV),
    Path(Option<QSelf>, PathV),
}

impl View for ExprKind {
    type V = ExprKindV;

    open spec fn view(&self) -> ExprKindV {
        match self {
            ExprKind::MacCall(m) => ExprKindV::MacCall(m@),
            ExprKind::Lit(l) => ExprKindV::Lit(l@),
            ExprKind::Path(q, p) => ExprKindV::Path(*q, p@),
        }
    }
}

/// An expression.
#[derive(Debug, Clone, PartialEq)]
pub struct Expr {
    pub id: NodeId,
    pub kind: ExprKind,
    pub span: Span,
    pub attrs: AttrVec,
    pub tokens: Option<TokenStream>,
}

pub struct ExprV {
    pub id: NodeId,
    pub kind: ExprKindV,
    pub span: Span,
    pub attrs_len: nat,
    pub tokens: Option<TokenStreamV>,
}

impl View for Expr {
    type V = ExprV;

    open spec fn view(&self) -> ExprV {
        ExprV {
            id: self.id,
            kind: self.kind@,
            span: self.span,
            attrs_len: self.attrs@.len(),
            tokens: crate::ast::opt_tokens_view(self.tokens),
        }
    }
}

} // verus!
