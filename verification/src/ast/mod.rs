//! The Rust AST, as far as the S-expression form covers it.

pub mod expr;
pub mod item;
pub mod stmt;

pub use expr::{
    DelSpan, Delimiter, Expr, ExprKind, ExprKindV, ExprV, Lit, LitKind, LitKindV, LitV, MacArgs,
    MacArgsV, MacCall, MacCallV, TokenStream, TokenStreamV,
};
pub use item::{
    BindingMode, Block, BlockCheckMode, BlockV, Fn, FnDecl, FnDeclV, FnHeader, FnHeaderV,
    FnRetTy, FnRetTyV, FnSig, FnSigV, FnV, GenericParam, Generics, Item, ItemKind, ItemKindV,
    ItemV, Mutability, Param, ParamV, Pat, PatKind, PatKindV, PatV, QSelf, Ty, TyKind, TyKindV,
    TyV, WhereClause, WherePredicate,
};
pub use stmt::{
    Local, LocalInit, LocalKind, MacCallStmt, MacStmtStyle, Stmt, StmtKind, StmtKindV, StmtV,
};

use vstd::prelude::*;

verus! {


/// A source span: byte range and syntax context.
#[derive(Debug, Clone, Copy, PartialEq, Eq, Structural)]
pub struct Span {
    pub lo: u32,
    pub hi: u32,
    pub ctxt: u32,
}

impl Span {
    /// The span of nodes that have no source location.
    pub fn dummy() -> (s: Self)
        ensures
            s == dummy_span(),
    {
        Span { lo: 0, hi: 0, ctxt: 0 }
    }

    pub fn new(lo: u32, hi: u32) -> (s: Self)
        ensures
            s == (Span { lo, hi, ctxt: 0 }),
    {
        Span { lo, hi, ctxt: 0 }
    }

    pub fn with_ctxt(lo: u32, hi: u32, ctxt: u32) -> (s: Self)
        ensures
            s == (Span { lo, hi, ctxt }),
    {
        Span { lo, hi, ctxt }
    }
}

pub open spec fn dummy_span() -> Span {
    Span { lo: 0, hi: 0, ctxt: 0 }
}

/// Identifier of an AST node.
#[derive(Debug, Clone, Copy, PartialEq, Eq, Structural)]
pub struct NodeId(pub u32);

/// Spans of a module.
#[derive(Debug, Clone, Copy, PartialEq, Eq, Structural)]
pub struct ModSpans {
    pub inner_span: Span,
    pub inject_use_span: Span,
}

impl ModSpans {
    pub fn new(inner_span: Span) -> (m: Self)
        ensures
            m == (ModSpans { inner_span, inject_use_span: dummy_span() }),
    {
        ModSpans { inner_span, inject_use_span: Span::dummy() }
    }
}

/// An attribute (not modelled in detail).
#[derive(Debug, Clone, Copy, PartialEq, Eq, Structural)]
pub struct Attribute {}

pub type AttrVec = Vec<Attribute>;

/// An identifier with its span.
#[derive(Debug, Clone, PartialEq)]
pub struct Ident {
    pub name: String,
    pub span: Span,
}

pub struct IdentV {
    pub name: Seq<char>,
    pub span: Span,
}

impl View for Ident {
    type V = IdentV;

    open spec fn view(&self) -> IdentV {
        IdentV { name: self.name@, span: self.span }
    }
}

impl Ident {
    pub fn new(name: &str, span: Span) -> (i: Self)
        ensures
            i@ == (IdentV { name: name@, span }),
    {
        Ident { name: name.to_owned(), span }
    }
}

/// Generic arguments of a path segment (not modelled in detail).
#[derive(Debug, Clone, Copy, PartialEq, Eq, Structural)]
pub struct GenericArgs {}

/// One segment of a path.
#[derive(Debug, Clone, PartialEq)]
pub struct PathSegment {
    pub ident: Ident,
    pub id: NodeId,
    pub args: Option<GenericArgs>,
}

pub struct PathSegmentV {
    pub ident: IdentV,
    pub id: NodeId,
    pub args: Option<GenericArgs>,
}

impl View for PathSegment {
    type V = PathSegmentV;

    open spec fn view(&self) -> PathSegmentV {
        PathSegmentV { ident: self.ident@, id: self.id, args: self.args }
    }
}

/// A path such as `std::collections::HashMap`.
#[derive(Debug, Clone, PartialEq)]
pub struct Path {
    pub span: Span,
    pub segments: Vec<PathSegment>,
    pub tokens: Option<crate::ast::expr::TokenStream>,
}

pub struct PathV {
    pub span: Span,
    pub segments: Seq<PathSegmentV>,
    pub tokens: Option<TokenStreamV>,
}

pub open spec fn segments_view(s: Seq<PathSegment>) -> Seq<PathSegmentV> {
    s.map_values(|p: PathSegment| p@)
}

pub open spec fn opt_tokens_view(t: Option<TokenStream>) -> Option<TokenStreamV> {
    match t {
        Some(ts) => Some(ts@),
        None => None,
    }
}

impl View for Path {
    type V = PathV;

    open spec fn view(&self) -> PathV {
        PathV {
            span: self.span,
            segments: segments_view(self.segments@),
            tokens: opt_tokens_view(self.tokens),
        }
    }
}

impl Path {
    /// The single-segment path naming `ident`.
    pub fn from_ident(ident: Ident) -> (p: Self)
        ensures
            p@ == (PathV {
                span: ident.span,
                segments: seq![PathSegmentV { ident: ident@, id: NodeId(0), args: None }],
                tokens: None,
            }),
    {
        let span = ident.span;
        let mut segments: Vec<PathSegment> = Vec::new();
        segments.push(PathSegment { ident, id: NodeId(0), args: None });
        let p = Path { span, segments, tokens: None };
        assert(p@.segments =~= seq![PathSegmentV { ident: ident@, id: NodeId(0), args: None }]);
        p
    }
}

/// Visibility of an item.
#[derive(Debug, Clone, Copy, PartialEq, Eq, Structural)]
pub enum Visibility {
    Public,
    Inherited,
}

/// Whether an item is `default`.
#[derive(Debug, Clone, Copy, PartialEq, Eq, Structural)]
pub enum Defaultness {
    Default,
    Final,
}

/// Safety of a function.
#[derive(Debug, Clone, Copy, PartialEq, Eq, Structural)]
pub enum Safety {
    Default,
    Safe,
    Unsafe,
}

/// Constness of a function.
#[derive(Debug, Clone, Copy, PartialEq, Eq, Structural)]
pub enum Constness {
    Const,
    NotConst,
}

/// `async` or `gen` on a function.
#[derive(Debug, Clone, Copy, PartialEq, Eq, Structural)]
pub enum CoroutineKind {
    Async,
    Gen,
}

/// The ABI of a function.
#[derive(Debug, Clone, PartialEq)]
pub enum Extern {
    NoExtern,
    Implicit,
    Explicit(String),
}

pub enum ExternV {
    NoExtern,
    Implicit,
    Explicit(Seq<char>),
}

impl View for Extern {
    type V = ExternV;

    open spec fn view(&self) -> ExternV {
        match self {
            Extern::NoExtern => ExternV::NoExtern,
            Extern::Implicit => ExternV::Implicit,
            Extern::Explicit(s) => ExternV::Explicit(s@),
        }
    }
}

/// A whole crate.
#[derive(Debug)]
pub struct Crate {
    pub attrs: AttrVec,
    pub items: Vec<Item>,
    pub spans: ModSpans,
    pub id: NodeId,
    pub is_placeholder: bool,
}

pub struct CrateV {
    pub attrs_len: nat,
    pub items: Seq<ItemV>,
    pub spans: ModSpans,
    pub id: NodeId,
    pub is_placeholder: bool,
}

pub open spec fn items_view(s: Seq<Item>) -> Seq<ItemV> {
    s.map_values(|i: Item| i@)
}

impl View for Crate {
    type V = CrateV;

    open spec fn view(&self) -> CrateV {
        CrateV {
            attrs_len: self.attrs@.len(),
            items: items_view(self.items@),
            spans: self.spans,
            id: self.id,
            is_placeholder: self.is_placeholder,
        }
    }
}

impl Crate {
    pub fn new(items: Vec<Item>, spans: ModSpans, id: NodeId) -> (c: Self)
        ensures
            c@ == (CrateV {
                attrs_len: 0,
                items: items_view(items@),
                spans,
                id,
                is_placeholder: false,
            }),
    {
        Crate { attrs: Vec::new(), items, spans, id, is_placeholder: false }
    }
}

} // verus!
