//! Items, functions, types, patterns and blocks.

use vstd::prelude::*;
use crate::ast::{
    dummy_span, opt_tokens_view, AttrVec, Constness, CoroutineKind, Defaultness, Extern, ExternV,
    Ident, IdentV, NodeId, Path, PathV, Safety, Span, Visibility,
};
use crate::ast::expr::{TokenStream, TokenStreamV};
use crate::ast::stmt::{Stmt, StmtV};

verus! {

/// Item (top-level declaration).
#[derive(Debug)]
pub struct Item {
    pub attrs: AttrVec,
    pub id: NodeId,
    pub span: Span,
    pub vis: Visibility,
    pub ident: Ident,
    pub kind: ItemKind,
    pub tokens: Option<TokenStream>,
}

/// Item kind.
#[derive(Debug)]
pub enum ItemKind {
    Fn(Box<Fn>),
}

/// Function item.
#[derive(Debug)]
pub struct Fn {
    pub defaultness: Defaultness,
    pub sig: FnSig,
    pub generics: Generics,
    pub body: Option<Block>,
}

/// Function signature.
#[derive(Debug)]
pub struct FnSig {
    pub header: FnHeader,
    pub decl: FnDecl,
    pub span: Span,
}

/// Function header.
#[derive(Debug, Clone, PartialEq)]
pub struct FnHeader {
    pub safety: Safety,
    pub coroutine_kind: Option<CoroutineKind>,
    pub constness: Constness,
    pub ext: Extern,
}

/// Function declaration (parameters and return type).
#[derive(Debug)]
pub struct FnDecl {
    pub inputs: Vec<Param>,
    pub output: FnRetTy,
}

/// Function parameter.
#[derive(Debug)]
pub struct Param {
    pub attrs: AttrVec,
    pub ty: Ty,
    pub pat: Pat,
    pub id: NodeId,
    pub span: Span,
    pub is_placeholder: bool,
}

/// Function return type.
#[derive(Debug, Clone, PartialEq)]
pub enum FnRetTy {
    /// No return type (unit).
    Default(Span),
    /// Explicit return type.
    Ty(Ty),
}

/// Generics.
#[derive(Debug, Clone, PartialEq)]
pub struct Generics {
    pub params: Vec<GenericParam>,
    pub where_clause: WhereClause,
    pub span: Span,
}

impl Generics {
    pub fn empty() -> (g: Self)
        ensures
            g.params@.len() == 0,
            g.where_clause.predicates@.len() == 0,
            !g.where_clause.has_where_token,
            g.where_clause.span == dummy_span(),
            g.span == dummy_span(),
    {
        Self { params: Vec::new(), where_clause: WhereClause::empty(), span: Span::dummy() }
    }
}

/// Generic parameter (not modelled in detail).
#[derive(Debug, Clone, Copy, PartialEq, Eq, Structural)]
pub struct GenericParam {}

/// Where clause.
#[derive(Debug, Clone, PartialEq)]
pub struct WhereClause {
    pub has_where_token: bool,
    pub predicates: Vec<WherePredicate>,
    pub span: Span,
}

impl WhereClause {
    pub fn empty() -> (w: Self)
        ensures
            !w.has_where_token,
            w.predicates@.len() == 0,
            w.span == dummy_span(),
    {
        Self { has_where_token: false, predicates: Vec::new(), span: Span::dummy() }
    }
}

/// Where predicate (not modelled in detail).
#[derive(Debug, Clone, Copy, PartialEq, Eq, Structural)]
pub struct WherePredicate {}

/// Type.
#[derive(Debug, Clone, PartialEq)]
pub struct Ty {
    pub id: NodeId,
    pub kind: TyKind,
    pub span: Span,
    pub tokens: Option<TokenStream>,
}

/// Type kind.
#[derive(Debug, Clone, PartialEq)]
pub enum TyKind {
    /// Path types such as `i32` or `String`.
    Path(Option<QSelf>, Path),
}

/// Qualified self (not modelled in detail).
#[derive(Debug, Clone, Copy, PartialEq, Eq, Structural)]
pub struct QSelf {}

/// Pattern.
#[derive(Debug)]
pub struct Pat {
    pub id: NodeId,
    pub kind: PatKind,
    pub span: Span,
    pub tokens: Option<TokenStream>,
}

/// Pattern kind.
#[derive(Debug)]
pub enum PatKind {
    Ident { binding_mode: BindingMode, ident: Ident, sub: Option<Box<Pat>> },
}

/// Binding mode.
#[derive(Debug, Clone, Copy, PartialEq, Eq, Structural)]
pub enum BindingMode {
    ByRef(Mutability),
    ByValue(Mutability),
}

/// Mutability.
#[derive(Debug, Clone, Copy, PartialEq, Eq, Structural)]
pub enum Mutability {
    Mut,
    Not,
}

/// Block.
#[derive(Debug)]
pub struct Block {
    pub stmts: Vec<Stmt>,
    pub id: NodeId,
    pub rules: BlockCheckMode,
    pub span: Span,
    pub tokens: Option<TokenStream>,
    pub could_be_bare_literal: bool,
}

/// Block check mode.
#[derive(Debug, Clone, Copy, PartialEq, Eq, Structural)]
pub enum BlockCheckMode {
    Default,
    Unsafe,
}

impl Block {
    pub fn new(stmts: Vec<Stmt>, id: NodeId, span: Span) -> (b: Self)
        ensures
            b@ == (BlockV {
                stmts: stmts_view(stmts@),
                id,
                rules: BlockCheckMode::Default,
                span,
                tokens: None,
                could_be_bare_literal: false,
            }),
    {
        Self {
            stmts,
            id,
            rules: BlockCheckMode::Default,
            span,
            tokens: None,
            could_be_bare_literal: false,
        }
    }
}

// ---------------------------------------------------------------------------
// Abstract values
// ---------------------------------------------------------------------------

pub struct BlockV {
    pub stmts: Seq<StmtV>,
    pub id: NodeId,
    pub rules: BlockCheckMode,
    pub span: Span,
    pub tokens: Option<TokenStreamV>,
    pub could_be_bare_literal: bool,
}

pub open spec fn stmts_view(s: Seq<Stmt>) -> Seq<StmtV> {
    s.map_values(|t: Stmt| t@)
}

impl View for Block {
    type V = BlockV;

    open spec fn view(&self) -> BlockV {
        BlockV {
            stmts: stmts_view(self.stmts@),
            id: self.id,
            rules: self.rules,
            span: self.span,
            tokens: opt_tokens_view(self.tokens),
            could_be_bare_literal: self.could_be_bare_literal,
        }
    }
}

pub struct TyV {
    pub id: NodeId,
    pub kind: TyKindV,
    pub span: Span,
    pub tokens: Option<TokenStreamV>,
}

pub enum TyKindV {
    Path(Option<QSelf>, PathV),
}

impl View for Ty {
    type V = TyV;

    open spec fn view(&self) -> TyV {
        TyV {
            id: self.id,
            kind: match self.kind {
                TyKind::Path(q, p) => TyKindV::Path(q, p@),
            },
            span: self.span,
            tokens: opt_tokens_view(self.tokens),
        }
    }
}

pub struct PatV {
    pub id: NodeId,
    pub kind: PatKindV,
    pub span: Span,
    pub tokens: Option<TokenStreamV>,
}

pub enum PatKindV {
    Ident { binding_mode: BindingMode, ident: IdentV, has_sub: bool },
}

impl View for Pat {
    type V = PatV;

    open spec fn view(&self) -> PatV {
        PatV {
            id: self.id,
            kind: match self.kind {
                PatKind::Ident { binding_mode, ident, sub } => PatKindV::Ident {
                    binding_mode,
                    ident: ident@,
                    has_sub: sub is Some,
                },
            },
            span: self.span,
            tokens: opt_tokens_view(self.tokens),
        }
    }
}

pub struct ParamV {
    pub attrs_len: nat,
    pub ty: TyV,
    pub pat: PatV,
    pub id: NodeId,
    pub span: Span,
    pub is_placeholder: bool,
}

impl View for Param {
    type V = ParamV;

    open spec fn view(&self) -> ParamV {
        ParamV {
            attrs_len: self.attrs@.len(),
            ty: self.ty@,
            pat: self.pat@,
            id: self.id,
            span: self.span,
            is_placeholder: self.is_placeholder,
        }
    }
}

pub enum FnRetTyV {
    Default(Span),
    Ty(TyV),
}

impl View for FnRetTy {
    type V = FnRetTyV;

    open spec fn view(&self) -> FnRetTyV {
        match self {
            FnRetTy::Default(s) => FnRetTyV::Default(*s),
            FnRetTy::Ty(t) => FnRetTyV::Ty(t@),
        }
    }
}

pub struct FnDeclV {
    pub inputs: Seq<ParamV>,
    pub output: FnRetTyV,
}

pub open spec fn params_view(s: Seq<Param>) -> Seq<ParamV> {
    s.map_values(|p: Param| p@)
}

impl View for FnDecl {
    type V = FnDeclV;

    open spec fn view(&self) -> FnDeclV {
        FnDeclV { inputs: params_view(self.inputs@), output: self.output@ }
    }
}

pub struct FnHeaderV {
    pub safety: Safety,
    pub coroutine_kind: Option<CoroutineKind>,
    pub constness: Constness,
    pub ext: ExternV,
}

impl View for FnHeader {
    type V = FnHeaderV;

    open spec fn view(&self) -> FnHeaderV {
        FnHeaderV {
            safety: self.safety,
            coroutine_kind: self.coroutine_kind,
            constness: self.constness,
            ext: self.ext@,
        }
    }
}

pub struct FnSigV {
    pub header: FnHeaderV,
    pub decl: FnDeclV,
    pub span: Span,
}

impl View for FnSig {
    type V = FnSigV;

    open spec fn view(&self) -> FnSigV {
        FnSigV { header: self.header@, decl: self.decl@, span: self.span }
    }
}

/// The generics of a function, which the S-expression form always leaves empty.
pub open spec fn generics_empty(g: Generics) -> bool {
    &&& g.params@.len() == 0
    &&& g.where_clause.predicates@.len() == 0
    &&& !g.where_clause.has_where_token
    &&& g.where_clause.span == dummy_span()
    &&& g.span == dummy_span()
}

pub struct FnV {
    pub defaultness: Defaultness,
    pub sig: FnSigV,
    pub generics_empty: bool,
    pub body: Option<BlockV>,
}

impl View for Fn {
    type V = FnV;

    open spec fn view(&self) -> FnV {
        FnV {
            defaultness: self.defaultness,
            sig: self.sig@,
            generics_empty: generics_empty(self.generics),
            body: match self.body {
                Some(b) => Some(b@),
                None => None,
            },
        }
    }
}

pub enum ItemKindV {
    Fn(FnV),
}

impl View for ItemKind {
    type V = ItemKindV;

    open spec fn view(&self) -> ItemKindV {
        match self {
            ItemKind::Fn(f) => ItemKindV::Fn((**f)@),
        }
    }
}

pub struct ItemV {
    pub attrs_len: nat,
    pub id: NodeId,
    pub span: Span,
    pub vis: Visibility,
    pub ident: IdentV,
    pub kind: ItemKindV,
    pub tokens: Option<TokenStreamV>,
}

impl View for Item {
    type V = ItemV;

    open spec fn view(&self) -> ItemV {
        ItemV {
            attrs_len: self.attrs@.len(),
            id: self.id,
            span: self.span,
            vis: self.vis,
            ident: self.ident@,
            kind: self.kind@,
            tokens: opt_tokens_view(self.tokens),
        }
    }
}

} // verus!
