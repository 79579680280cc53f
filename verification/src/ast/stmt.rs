//! Statements.

use vstd::prelude::*;
use crate::ast::{AttrVec, NodeId, Span};
use crate::ast::expr::{Expr, ExprV, MacCall, TokenStream};
use crate::ast::item::{Block, Item, Pat, Ty};

verus! {

/// Statement.
#[derive(Debug)]
pub struct Stmt {
    pub id: NodeId,
    pub kind: StmtKind,
    pub span: Span,
}

/// Statement kind.
#[derive(Debug)]
pub enum StmtKind {
    Expr(Expr),
    Semi(Expr),
    Let(Box<Local>),
    Item(Item),
    MacCall(MacCallStmt),
    Empty,
}

/// Local variable declaration (let binding).
#[derive(Debug)]
pub struct Local {
    pub pat: Pat,
    pub ty: Option<Ty>,
    pub kind: LocalKind,
    pub span: Span,
    pub attrs: AttrVec,
    pub tokens: Option<TokenStream>,
}

/// Local kind.
#[derive(Debug)]
pub enum LocalKind {
    Decl,
    Init(LocalInit),
    InitElse(LocalInit, Block),
}

/// Local initialization.
#[derive(Debug)]
pub struct LocalInit {
    pub expr: Expr,
    pub els: Option<Block>,
}

/// Macro call statement.
#[derive(Debug)]
pub struct MacCallStmt {
    pub mac: MacCall,
    pub style: MacStmtStyle,
    pub attrs: AttrVec,
    pub tokens: Option<TokenStream>,
}

/// Macro statement style.
#[derive(Debug, Clone, Copy, PartialEq, Eq, Structural)]
pub enum MacStmtStyle {
    Semicolon,
    Braces,
    NoBraces,
}

/// The abstract value of a statement kind; bindings, nested items and macro statements,
/// which the S-expression builder does not produce, are only told apart by their kind.
pub enum StmtKindV {
    Expr(ExprV),
    Semi(ExprV),
    Let,
    Item,
    MacCall,
    Empty,
}

pub struct StmtV {
    pub id: NodeId,
    pub kind: StmtKindV,
    pub span: Span,
}

impl View for StmtKind {
    type V = StmtKindV;

    open spec fn view(&self) -> StmtKindV {
        match self {
            StmtKind::Expr(e) => StmtKindV::Expr(e@),
            StmtKind::Semi(e) => StmtKindV::Semi(e@),
            StmtKind::Let(_) => StmtKindV::Let,
            StmtKind::Item(_) => StmtKindV::Item,
            StmtKind::MacCall(_) => StmtKindV::MacCall,
            StmtKind::Empty => StmtKindV::Empty,
        }
    }
}

impl View for Stmt {
    type V = StmtV;

    open spec fn view(&self) -> StmtV {
        StmtV { id: self.id, kind: self.kind@, span: self.span }
    }
}

} // verus!
