//! What the AST builder produces from an S-expression.
//!
//! Each builder is described by a spec function over the expression's value and the next
//! free node id.  Its outcome is `None` where the builder would index the head of an empty
//! node list (which the builders leave to their callers to rule out), `Some(Err(e))` for a
//! reported error and `Some(Ok((value, next_id)))` for success.

use vstd::prelude::*;
use crate::ast::{
    dummy_span, Constness, CrateV, Defaultness, ExternV, IdentV, ModSpans, NodeId, PathSegmentV,
    PathV, Safety, Span, Visibility,
};
use crate::ast::expr::{DelSpan, Delimiter, ExprKindV, ExprV, MacArgsV, MacCallV, TokenStreamV};
use crate::ast::item::{
    BindingMode, BlockCheckMode, BlockV, FnDeclV, FnHeaderV, FnRetTyV, FnSigV, FnV, ItemKindV,
    ItemV, Mutability, ParamV, PatKindV, PatV, TyKindV, TyV,
};
use crate::ast::stmt::{StmtKindV, StmtV};
use crate::builder::helpers::{
    expected_err, kw_lookup, kwargs_spec, parse_i128_spec, wrong_kind,
};
use crate::error::{ParseErrorV, Position};
use crate::sexp::types::SExpV;

verus! {

/// Keyword arguments as a sequence of pairs.
pub type Kw = Seq<(Seq<char>, SExpV)>;

/// `None`: the builder would fail on an empty node list; otherwise its result.
pub type Check<T> = Option<Result<T, ParseErrorV>>;

/// `None`: the builder would fail on an empty node list; otherwise its result together with
/// the next free node id.
pub type Outcome<T> = Option<Result<(T, u32), ParseErrorV>>;

/// The node id after `c`, wrapping around after `u32::MAX`.
pub open spec fn bump(c: u32) -> u32 {
    if c == u32::MAX {
        0
    } else {
        (c + 1) as u32
    }
}

pub open spec fn missing(field: Seq<char>, pos: Position) -> ParseErrorV {
    expected_err(field, "missing"@, pos)
}

pub open spec fn list_of(e: SExpV) -> Result<(Seq<SExpV>, Position), ParseErrorV> {
    match e {
        SExpV::List(es, p) => Ok((es, p)),
        _ => Err(wrong_kind("list"@, e)),
    }
}

/// The head symbol of a node list.
pub open spec fn head_of(es: Seq<SExpV>) -> Check<(Seq<char>, Position)> {
    if es.len() == 0 {
        None
    } else {
        match es[0] {
            SExpV::Symbol(v, p) => Some(Ok((v, p))),
            _ => Some(Err(wrong_kind("symbol"@, es[0]))),
        }
    }
}

/// A node `(name :k v ...)`: its keyword arguments and position.
pub open spec fn node_spec(e: SExpV, name: Seq<char>) -> Check<(Kw, Position)> {
    match list_of(e) {
        Err(x) => Some(Err(x)),
        Ok((es, p)) => match head_of(es) {
            None => None,
            Some(Err(x)) => Some(Err(x)),
            Some(Ok((v, sp))) => if v != name {
                Some(Err(expected_err(name, v, sp)))
            } else {
                match kwargs_spec(es, p) {
                    Ok(kw) => Some(Ok((kw, p))),
                    Err(x) => Some(Err(x)),
                }
            },
        },
    }
}

/// A list whose keyword arguments are read without looking at its head.
pub open spec fn kw_list_spec(e: SExpV) -> Result<(Kw, Position), ParseErrorV> {
    match list_of(e) {
        Err(x) => Err(x),
        Ok((es, p)) => match kwargs_spec(es, p) {
            Ok(kw) => Ok((kw, p)),
            Err(x) => Err(x),
        },
    }
}

pub open spec fn number_spec(e: SExpV) -> Result<i128, ParseErrorV> {
    match e {
        SExpV::Number(v, p) => match parse_i128_spec(v) {
            Some(n) => Ok(n),
            None => Err(expected_err("valid number"@, v, p)),
        },
        _ => Err(wrong_kind("number"@, e)),
    }
}

pub open spec fn string_spec(e: SExpV) -> Result<Seq<char>, ParseErrorV> {
    match e {
        SExpV::Str(v, _) => Ok(v),
        _ => Err(wrong_kind("string"@, e)),
    }
}

pub open spec fn symbol_spec(e: SExpV) -> Result<Seq<char>, ParseErrorV> {
    match e {
        SExpV::Symbol(v, _) => Ok(v),
        _ => Err(wrong_kind("symbol"@, e)),
    }
}

/// An optional number field read as a `u32` (truncating), with a default.
pub open spec fn u32_field(v: Option<SExpV>, default: u32) -> Result<u32, ParseErrorV> {
    match v {
        None => Ok(default),
        Some(x) => match number_spec(x) {
            Ok(n) => Ok(n as u32),
            Err(e) => Err(e),
        },
    }
}

/// An `:id` field: the given number, or else a fresh id.
pub open spec fn id_field(v: Option<SExpV>, c: u32) -> Result<(NodeId, u32), ParseErrorV> {
    match v {
        None => Ok((NodeId(c), bump(c))),
        Some(x) => match number_spec(x) {
            Ok(n) => Ok((NodeId(n as u32), c)),
            Err(e) => Err(e),
        },
    }
}

/// `(Span :lo N :hi N)`; an empty list is the dummy span.
pub open spec fn span_spec(e: SExpV) -> Result<Span, ParseErrorV> {
    match list_of(e) {
        Err(x) => Err(x),
        Ok((es, p)) => if es.len() == 0 {
            Ok(dummy_span())
        } else {
            match es[0] {
                SExpV::Symbol(v, sp) => if v != "Span"@ {
                    Err(expected_err("Span"@, v, sp))
                } else {
                    match kwargs_spec(es, p) {
                        Err(x) => Err(x),
                        Ok(kw) => match u32_field(kw_lookup(kw, "lo"@), 0) {
                            Err(x) => Err(x),
                            Ok(lo) => match u32_field(kw_lookup(kw, "hi"@), 0) {
                                Err(x) => Err(x),
                                Ok(hi) => Ok(Span { lo, hi, ctxt: 0 }),
                            },
                        },
                    }
                },
                _ => Err(wrong_kind("symbol"@, es[0])),
            }
        },
    }
}

/// An optional `:span` field.
pub open spec fn span_field(v: Option<SExpV>) -> Result<Span, ParseErrorV> {
    match v {
        None => Ok(dummy_span()),
        Some(x) => span_spec(x),
    }
}

/// `(ModSpans :inner-span SPAN)`.
pub open spec fn mod_spans_spec(e: SExpV) -> Result<ModSpans, ParseErrorV> {
    match kw_list_spec(e) {
        Err(x) => Err(x),
        Ok((kw, _)) => match span_field(kw_lookup(kw, "inner-span"@)) {
            Err(x) => Err(x),
            Ok(s) => Ok(ModSpans { inner_span: s, inject_use_span: dummy_span() }),
        },
    }
}

// ---------------------------------------------------------------------------
// Expressions
// ---------------------------------------------------------------------------

/// `(Ident :name "..." :span SPAN)`.
pub open spec fn ident_spec(e: SExpV) -> Check<IdentV> {
    match node_spec(e, "Ident"@) {
        None => None,
        Some(Err(x)) => Some(Err(x)),
        Some(Ok((kw, p))) => match kw_lookup(kw, "name"@) {
            None => Some(Err(missing(":name field"@, p))),
            Some(n) => match string_spec(n) {
                Err(x) => Some(Err(x)),
                Ok(name) => match span_field(kw_lookup(kw, "span"@)) {
                    Err(x) => Some(Err(x)),
                    Ok(span) => Some(Ok(IdentV { name, span })),
                },
            },
        },
    }
}

/// `(PathSegment :ident IDENT :id N)`.
pub open spec fn path_segment_spec(e: SExpV, c: u32) -> Outcome<PathSegmentV> {
    match node_spec(e, "PathSegment"@) {
        None => None,
        Some(Err(x)) => Some(Err(x)),
        Some(Ok((kw, p))) => match kw_lookup(kw, "ident"@) {
            None => Some(Err(missing(":ident field"@, p))),
            Some(i) => match ident_spec(i) {
                None => None,
                Some(Err(x)) => Some(Err(x)),
                Some(Ok(ident)) => match id_field(kw_lookup(kw, "id"@), c) {
                    Err(x) => Some(Err(x)),
                    Ok((id, c2)) => Some(Ok((PathSegmentV { ident, id, args: None }, c2))),
                },
            },
        },
    }
}

/// A sequence of path segments, built left to right.
pub open spec fn segments_spec(es: Seq<SExpV>, c: u32) -> Outcome<Seq<PathSegmentV>>
    decreases es.len(),
{
    if es.len() == 0 {
        Some(Ok((Seq::empty(), c)))
    } else {
        match path_segment_spec(es[0], c) {
            None => None,
            Some(Err(x)) => Some(Err(x)),
            Some(Ok((s, c1))) => match segments_spec(es.drop_first(), c1) {
                None => None,
                Some(Err(x)) => Some(Err(x)),
                Some(Ok((ss, c2))) => Some(Ok((seq![s] + ss, c2))),
            },
        }
    }
}

/// `(Path :segments (SEGMENT ...) :span SPAN)`.
pub open spec fn path_spec(e: SExpV, c: u32) -> Outcome<PathV> {
    match node_spec(e, "Path"@) {
        None => None,
        Some(Err(x)) => Some(Err(x)),
        Some(Ok((kw, _))) => match (match kw_lookup(kw, "segments"@) {
            None => Some(Ok((Seq::empty(), c))),
            Some(l) => match list_of(l) {
                Err(x) => Some(Err(x)),
                Ok((ss, _)) => segments_spec(ss, c),
            },
        }) {
            None => None,
            Some(Err(x)) => Some(Err(x)),
            Some(Ok((segments, c1))) => match span_field(kw_lookup(kw, "span"@)) {
                Err(x) => Some(Err(x)),
                Ok(span) => Some(Ok((PathV { span, segments, tokens: None }, c1))),
            },
        },
    }
}

/// `(DelSpan :open SPAN :close SPAN)` (the head is not checked).
pub open spec fn del_span_spec(e: SExpV) -> Result<DelSpan, ParseErrorV> {
    match kw_list_spec(e) {
        Err(x) => Err(x),
        Ok((kw, _)) => match span_field(kw_lookup(kw, "open"@)) {
            Err(x) => Err(x),
            Ok(open) => match span_field(kw_lookup(kw, "close"@)) {
                Err(x) => Err(x),
                Ok(close) => Ok(DelSpan { open, close }),
            },
        },
    }
}

/// `Paren`, `Brace`, `Bracket` or `Invisible`.
pub open spec fn delimiter_spec(e: SExpV) -> Result<Delimiter, ParseErrorV> {
    match e {
        SExpV::Symbol(v, p) => if v == "Paren"@ {
            Ok(Delimiter::Paren)
        } else if v == "Brace"@ {
            Ok(Delimiter::Brace)
        } else if v == "Bracket"@ {
            Ok(Delimiter::Bracket)
        } else if v == "Invisible"@ {
            Ok(Delimiter::Invisible)
        } else {
            Err(expected_err("Paren, Brace, Bracket, or Invisible"@, v, p))
        },
        _ => Err(wrong_kind("symbol"@, e)),
    }
}

/// `(TokenStream :source "...")`.
pub open spec fn token_stream_spec(e: SExpV) -> Check<TokenStreamV> {
    match list_of(e) {
        Err(x) => Some(Err(x)),
        Ok((es, p)) => match head_of(es) {
            None => None,
            Some(Err(x)) => Some(Err(x)),
            Some(Ok((v, sp))) => if v == "TokenStream"@ {
                match kwargs_spec(es, p) {
                    Err(x) => Some(Err(x)),
                    Ok(kw) => match kw_lookup(kw, "source"@) {
                        None => Some(Ok(TokenStreamV::Empty)),
                        Some(s) => match string_spec(s) {
                            Err(x) => Some(Err(x)),
                            Ok(src) => Some(Ok(TokenStreamV::Source(src))),
                        },
                    },
                }
            } else {
                Some(Err(expected_err("TokenStream"@, v, sp)))
            },
        },
    }
}

/// `(Empty)` or `(Delimited :dspan DELSPAN :delim DELIM :tokens TOKENS)`.
pub open spec fn mac_args_spec(e: SExpV) -> Check<MacArgsV> {
    match list_of(e) {
        Err(x) => Some(Err(x)),
        Ok((es, p)) => match head_of(es) {
            None => None,
            Some(Err(x)) => Some(Err(x)),
            Some(Ok((v, sp))) => if v == "Empty"@ {
                Some(Ok(MacArgsV::Empty))
            } else if v == "Delimited"@ {
                match kwargs_spec(es, p) {
                    Err(x) => Some(Err(x)),
                    Ok(kw) => match (match kw_lookup(kw, "dspan"@) {
                        None => Ok(DelSpan { open: dummy_span(), close: dummy_span() }),
                        Some(d) => del_span_spec(d),
                    }) {
                        Err(x) => Some(Err(x)),
                        Ok(dspan) => match (match kw_lookup(kw, "delim"@) {
                            None => Ok(Delimiter::Paren),
                            Some(d) => delimiter_spec(d),
                        }) {
                            Err(x) => Some(Err(x)),
                            Ok(delim) => match kw_lookup(kw, "tokens"@) {
                                None => Some(Ok(MacArgsV::Delimited { dspan, delim, tokens: TokenStreamV::Empty })),
                                Some(t) => match token_stream_spec(t) {
                                    None => None,
                                    Some(Err(x)) => Some(Err(x)),
                                    Some(Ok(tokens)) => Some(Ok(MacArgsV::Delimited { dspan, delim, tokens })),
                                },
                            },
                        },
                    },
                }
            } else {
                Some(Err(expected_err("Empty or Delimited"@, v, sp)))
            },
        },
    }
}

/// The fields of `(MacCall :path PATH :args ARGS)`.
pub open spec fn mac_call_spec(es: Seq<SExpV>, p: Position, c: u32) -> Outcome<MacCallV> {
    match kwargs_spec(es, p) {
        Err(x) => Some(Err(x)),
        Ok(kw) => match kw_lookup(kw, "path"@) {
            None => Some(Err(missing(":path field"@, p))),
            Some(pe) => match path_spec(pe, c) {
                None => None,
                Some(Err(x)) => Some(Err(x)),
                Some(Ok((path, c1))) => match kw_lookup(kw, "args"@) {
                    None => Some(Ok((MacCallV { path, args: MacArgsV::Empty, prior_type_ascription: None }, c1))),
                    Some(a) => match mac_args_spec(a) {
                        None => None,
                        Some(Err(x)) => Some(Err(x)),
                        Some(Ok(args)) => Some(Ok((MacCallV { path, args, prior_type_ascription: None }, c1))),
                    },
                },
            },
        },
    }
}

/// An expression kind; only macro calls are supported.
pub open spec fn expr_kind_spec(e: SExpV, c: u32) -> Outcome<ExprKindV> {
    match list_of(e) {
        Err(x) => Some(Err(x)),
        Ok((es, p)) => match head_of(es) {
            None => None,
            Some(Err(x)) => Some(Err(x)),
            Some(Ok((v, sp))) => if v == "MacCall"@ {
                match mac_call_spec(es, p, c) {
                    None => None,
                    Some(Err(x)) => Some(Err(x)),
                    Some(Ok((m, c1))) => Some(Ok((ExprKindV::MacCall(m), c1))),
                }
            } else {
                Some(Err(expected_err("MacCall (only supported in Phase 1)"@, v, sp)))
            },
        },
    }
}

/// `(Expr :kind KIND :span SPAN :id N)`.
pub open spec fn expr_spec(e: SExpV, c: u32) -> Outcome<ExprV> {
    match node_spec(e, "Expr"@) {
        None => None,
        Some(Err(x)) => Some(Err(x)),
        Some(Ok((kw, p))) => match kw_lookup(kw, "kind"@) {
            None => Some(Err(missing(":kind field"@, p))),
            Some(k) => match expr_kind_spec(k, c) {
                None => None,
                Some(Err(x)) => Some(Err(x)),
                Some(Ok((kind, c1))) => match span_field(kw_lookup(kw, "span"@)) {
                    Err(x) => Some(Err(x)),
                    Ok(span) => match id_field(kw_lookup(kw, "id"@), c1) {
                        Err(x) => Some(Err(x)),
                        Ok((id, c2)) => Some(Ok((ExprV { id, kind, span, attrs_len: 0, tokens: None }, c2))),
                    },
                },
            },
        },
    }
}

// ---------------------------------------------------------------------------
// Statements and blocks
// ---------------------------------------------------------------------------

/// A statement kind: `(Empty)`, `(Expr :expr EXPR)` or `(Semi :expr EXPR)`.
pub open spec fn stmt_kind_spec(e: SExpV, c: u32) -> Outcome<StmtKindV> {
    match list_of(e) {
        Err(x) => Some(Err(x)),
        Ok((es, p)) => match head_of(es) {
            None => None,
            Some(Err(x)) => Some(Err(x)),
            Some(Ok((v, sp))) => if v == "Empty"@ {
                Some(Ok((StmtKindV::Empty, c)))
            } else if v == "Expr"@ || v == "Semi"@ {
                match kwargs_spec(es, p) {
                    Err(x) => Some(Err(x)),
                    Ok(kw) => match kw_lookup(kw, "expr"@) {
                        None => Some(Err(missing(":expr field"@, p))),
                        Some(x) => match expr_spec(x, c) {
                            None => None,
                            Some(Err(err)) => Some(Err(err)),
                            Some(Ok((ex, c1))) => Some(Ok((if v == "Expr"@ {
                                StmtKindV::Expr(ex)
                            } else {
                                StmtKindV::Semi(ex)
                            }, c1))),
                        },
                    },
                }
            } else {
                Some(Err(expected_err("Empty, Expr, or Semi"@, v, sp)))
            },
        },
    }
}

/// `(Stmt :kind KIND :span SPAN :id N)`.
pub open spec fn stmt_spec(e: SExpV, c: u32) -> Outcome<StmtV> {
    match node_spec(e, "Stmt"@) {
        None => None,
        Some(Err(x)) => Some(Err(x)),
        Some(Ok((kw, p))) => match kw_lookup(kw, "kind"@) {
            None => Some(Err(missing(":kind field"@, p))),
            Some(k) => match stmt_kind_spec(k, c) {
                None => None,
                Some(Err(x)) => Some(Err(x)),
                Some(Ok((kind, c1))) => match span_field(kw_lookup(kw, "span"@)) {
                    Err(x) => Some(Err(x)),
                    Ok(span) => match id_field(kw_lookup(kw, "id"@), c1) {
                        Err(x) => Some(Err(x)),
                        Ok((id, c2)) => Some(Ok((StmtV { id, kind, span }, c2))),
                    },
                },
            },
        },
    }
}

/// A sequence of statements, built left to right.
pub open spec fn stmts_spec(es: Seq<SExpV>, c: u32) -> Outcome<Seq<StmtV>>
    decreases es.len(),
{
    if es.len() == 0 {
        Some(Ok((Seq::empty(), c)))
    } else {
        match stmt_spec(es[0], c) {
            None => None,
            Some(Err(x)) => Some(Err(x)),
            Some(Ok((s, c1))) => match stmts_spec(es.drop_first(), c1) {
                None => None,
                Some(Err(x)) => Some(Err(x)),
                Some(Ok((ss, c2))) => Some(Ok((seq![s] + ss, c2))),
            },
        }
    }
}

/// `(Block :stmts (STMT ...) :span SPAN :id N)`.
pub open spec fn block_spec(e: SExpV, c: u32) -> Outcome<BlockV> {
    match node_spec(e, "Block"@) {
        None => None,
        Some(Err(x)) => Some(Err(x)),
        Some(Ok((kw, _))) => match (match kw_lookup(kw, "stmts"@) {
            None => Some(Ok((Seq::empty(), c))),
            Some(l) => match list_of(l) {
                Err(x) => Some(Err(x)),
                Ok((ss, _)) => stmts_spec(ss, c),
            },
        }) {
            None => None,
            Some(Err(x)) => Some(Err(x)),
            Some(Ok((stmts, c1))) => match span_field(kw_lookup(kw, "span"@)) {
                Err(x) => Some(Err(x)),
                Ok(span) => match id_field(kw_lookup(kw, "id"@), c1) {
                    Err(x) => Some(Err(x)),
                    Ok((id, c2)) => Some(
                        Ok(
                            (
                                BlockV {
                                    stmts,
                                    id,
                                    rules: BlockCheckMode::Default,
                                    span,
                                    tokens: None,
                                    could_be_bare_literal: false,
                                },
                                c2,
                            ),
                        ),
                    ),
                },
            },
        },
    }
}

// ---------------------------------------------------------------------------
// Items
// ---------------------------------------------------------------------------

/// `(Public)` or `(Inherited)`.
pub open spec fn visibility_spec(e: SExpV) -> Check<Visibility> {
    match list_of(e) {
        Err(x) => Some(Err(x)),
        Ok((es, _)) => match head_of(es) {
            None => None,
            Some(Err(x)) => Some(Err(x)),
            Some(Ok((v, sp))) => if v == "Public"@ {
                Some(Ok(Visibility::Public))
            } else if v == "Inherited"@ {
                Some(Ok(Visibility::Inherited))
            } else {
                Some(Err(expected_err("Public or Inherited"@, v, sp)))
            },
        },
    }
}

pub open spec fn default_header() -> FnHeaderV {
    FnHeaderV {
        safety: Safety::Default,
        coroutine_kind: None,
        constness: Constness::NotConst,
        ext: ExternV::NoExtern,
    }
}

/// `(FnHeader :safety S :constness C)` (the head is not checked; unknown values fall back
/// to the defaults).
pub open spec fn fn_header_spec(e: SExpV) -> Result<FnHeaderV, ParseErrorV> {
    match kw_list_spec(e) {
        Err(x) => Err(x),
        Ok((kw, _)) => match (match kw_lookup(kw, "safety"@) {
            None => Ok(Safety::Default),
            Some(s) => match symbol_spec(s) {
                Err(x) => Err(x),
                Ok(v) => Ok(
                    if v == "Safe"@ {
                        Safety::Safe
                    } else if v == "Unsafe"@ {
                        Safety::Unsafe
                    } else {
                        Safety::Default
                    },
                ),
            },
        }) {
            Err(x) => Err(x),
            Ok(safety) => match (match kw_lookup(kw, "constness"@) {
                None => Ok(Constness::NotConst),
                Some(s) => match symbol_spec(s) {
                    Err(x) => Err(x),
                    Ok(v) => Ok(
                        if v == "Const"@ {
                            Constness::Const
                        } else {
                            Constness::NotConst
                        },
                    ),
                },
            }) {
                Err(x) => Err(x),
                Ok(constness) => Ok(
                    FnHeaderV { safety, coroutine_kind: None, constness, ext: ExternV::NoExtern },
                ),
            },
        },
    }
}

/// The placeholder parameter built for every `(Param ...)`: `param: i32`, taking three
/// fresh ids (type, pattern, parameter).
pub open spec fn placeholder_param(c: u32) -> ParamV {
    ParamV {
        attrs_len: 0,
        ty: TyV {
            id: NodeId(c),
            kind: TyKindV::Path(
                None,
                PathV {
                    span: dummy_span(),
                    segments: seq![
                        PathSegmentV {
                            ident: IdentV { name: "i32"@, span: dummy_span() },
                            id: NodeId(0),
                            args: None,
                        },
                    ],
                    tokens: None,
                },
            ),
            span: dummy_span(),
            tokens: None,
        },
        pat: PatV {
            id: NodeId(bump(c)),
            kind: PatKindV::Ident {
                binding_mode: BindingMode::ByValue(Mutability::Not),
                ident: IdentV { name: "param"@, span: dummy_span() },
                has_sub: false,
            },
            span: dummy_span(),
            tokens: None,
        },
        id: NodeId(bump(bump(c))),
        span: dummy_span(),
        is_placeholder: false,
    }
}

/// A parameter: its keyword arguments are checked, and a placeholder is built.
pub open spec fn param_spec(e: SExpV, c: u32) -> Result<(ParamV, u32), ParseErrorV> {
    match kw_list_spec(e) {
        Err(x) => Err(x),
        Ok(_) => Ok((placeholder_param(c), bump(bump(bump(c))))),
    }
}

pub open spec fn params_spec(es: Seq<SExpV>, c: u32) -> Result<(Seq<ParamV>, u32), ParseErrorV>
    decreases es.len(),
{
    if es.len() == 0 {
        Ok((Seq::empty(), c))
    } else {
        match param_spec(es[0], c) {
            Err(x) => Err(x),
            Ok((p, c1)) => match params_spec(es.drop_first(), c1) {
                Err(x) => Err(x),
                Ok((ps, c2)) => Ok((seq![p] + ps, c2)),
            },
        }
    }
}

/// `(Default)` or `(Ty ...)`; both give the unit return type.
pub open spec fn fn_ret_ty_spec(e: SExpV) -> Check<FnRetTyV> {
    match list_of(e) {
        Err(x) => Some(Err(x)),
        Ok((es, _)) => match head_of(es) {
            None => None,
            Some(Err(x)) => Some(Err(x)),
            Some(Ok((v, sp))) => if v == "Default"@ || v == "Ty"@ {
                Some(Ok(FnRetTyV::Default(dummy_span())))
            } else {
                Some(Err(expected_err("Default or Ty"@, v, sp)))
            },
        },
    }
}

/// `(FnDecl :inputs (PARAM ...) :output RET)` (the head is not checked).
pub open spec fn fn_decl_spec(e: SExpV, c: u32) -> Outcome<FnDeclV> {
    match kw_list_spec(e) {
        Err(x) => Some(Err(x)),
        Ok((kw, _)) => match (match kw_lookup(kw, "inputs"@) {
            None => Ok((Seq::empty(), c)),
            Some(l) => match list_of(l) {
                Err(x) => Err(x),
                Ok((ps, _)) => params_spec(ps, c),
            },
        }) {
            Err(x) => Some(Err(x)),
            Ok((inputs, c1)) => match kw_lookup(kw, "output"@) {
                None => Some(Ok((FnDeclV { inputs, output: FnRetTyV::Default(dummy_span()) }, c1))),
                Some(o) => match fn_ret_ty_spec(o) {
                    None => None,
                    Some(Err(x)) => Some(Err(x)),
                    Some(Ok(output)) => Some(Ok((FnDeclV { inputs, output }, c1))),
                },
            },
        },
    }
}

/// `(FnSig :header HEADER :decl DECL :span SPAN)`.
pub open spec fn fn_sig_spec(e: SExpV, c: u32) -> Outcome<FnSigV> {
    match node_spec(e, "FnSig"@) {
        None => None,
        Some(Err(x)) => Some(Err(x)),
        Some(Ok((kw, _))) => match (match kw_lookup(kw, "header"@) {
            None => Ok(default_header()),
            Some(h) => fn_header_spec(h),
        }) {
            Err(x) => Some(Err(x)),
            Ok(header) => match (match kw_lookup(kw, "decl"@) {
                None => Some(Ok((FnDeclV { inputs: Seq::empty(), output: FnRetTyV::Default(dummy_span()) }, c))),
                Some(d) => fn_decl_spec(d, c),
            }) {
                None => None,
                Some(Err(x)) => Some(Err(x)),
                Some(Ok((decl, c1))) => match span_field(kw_lookup(kw, "span"@)) {
                    Err(x) => Some(Err(x)),
                    Ok(span) => Some(Ok((FnSigV { header, decl, span }, c1))),
                },
            },
        },
    }
}

/// The fields of `(Fn :defaultness D :sig SIG :generics GENERICS :body BLOCK-or-nil)`.
pub open spec fn fn_spec(es: Seq<SExpV>, p: Position, c: u32) -> Outcome<FnV> {
    match kwargs_spec(es, p) {
        Err(x) => Some(Err(x)),
        Ok(kw) => match (match kw_lookup(kw, "defaultness"@) {
            None => Ok(Defaultness::Final),
            Some(d) => match symbol_spec(d) {
                Err(x) => Err(x),
                Ok(v) => Ok(
                    if v == "Default"@ {
                        Defaultness::Default
                    } else {
                        Defaultness::Final
                    },
                ),
            },
        }) {
            Err(x) => Some(Err(x)),
            Ok(defaultness) => match kw_lookup(kw, "sig"@) {
                None => Some(Err(missing(":sig field"@, p))),
                Some(s) => match fn_sig_spec(s, c) {
                    None => None,
                    Some(Err(x)) => Some(Err(x)),
                    Some(Ok((sig, c1))) => match (match kw_lookup(kw, "generics"@) {
                        None => Ok(()),
                        Some(g) => match list_of(g) {
                            Err(x) => Err(x),
                            Ok(_) => Ok(()),
                        },
                    }) {
                        Err(x) => Some(Err(x)),
                        Ok(_) => match kw_lookup(kw, "body"@) {
                            None => Some(Ok((FnV { defaultness, sig, generics_empty: true, body: None }, c1))),
                            Some(b) => if b is Nil {
                                Some(Ok((FnV { defaultness, sig, generics_empty: true, body: None }, c1)))
                            } else {
                                match block_spec(b, c1) {
                                    None => None,
                                    Some(Err(x)) => Some(Err(x)),
                                    Some(Ok((body, c2))) => Some(
                                        Ok((FnV { defaultness, sig, generics_empty: true, body: Some(body) }, c2)),
                                    ),
                                }
                            },
                        },
                    },
                },
            },
        },
    }
}

/// An item kind; only functions are supported.
pub open spec fn item_kind_spec(e: SExpV, c: u32) -> Outcome<ItemKindV> {
    match list_of(e) {
        Err(x) => Some(Err(x)),
        Ok((es, p)) => match head_of(es) {
            None => None,
            Some(Err(x)) => Some(Err(x)),
            Some(Ok((v, sp))) => if v == "Fn"@ {
                match fn_spec(es, p, c) {
                    None => None,
                    Some(Err(x)) => Some(Err(x)),
                    Some(Ok((f, c1))) => Some(Ok((ItemKindV::Fn(f), c1))),
                }
            } else {
                Some(Err(expected_err("Fn (only supported in Phase 1)"@, v, sp)))
            },
        },
    }
}

/// `(Item :vis VIS :ident IDENT :kind KIND :span SPAN :id N)`.
pub open spec fn item_spec(e: SExpV, c: u32) -> Outcome<ItemV> {
    match node_spec(e, "Item"@) {
        None => None,
        Some(Err(x)) => Some(Err(x)),
        Some(Ok((kw, p))) => match (match kw_lookup(kw, "vis"@) {
            None => Some(Ok(Visibility::Inherited)),
            Some(v) => visibility_spec(v),
        }) {
            None => None,
            Some(Err(x)) => Some(Err(x)),
            Some(Ok(vis)) => match kw_lookup(kw, "ident"@) {
                None => Some(Err(missing(":ident field"@, p))),
                Some(i) => match ident_spec(i) {
                    None => None,
                    Some(Err(x)) => Some(Err(x)),
                    Some(Ok(ident)) => match kw_lookup(kw, "kind"@) {
                        None => Some(Err(missing(":kind field"@, p))),
                        Some(k) => match item_kind_spec(k, c) {
                            None => None,
                            Some(Err(x)) => Some(Err(x)),
                            Some(Ok((kind, c1))) => match span_field(kw_lookup(kw, "span"@)) {
                                Err(x) => Some(Err(x)),
                                Ok(span) => match id_field(kw_lookup(kw, "id"@), c1) {
                                    Err(x) => Some(Err(x)),
                                    Ok((id, c2)) => Some(
                                        Ok(
                                            (
                                                ItemV {
                                                    attrs_len: 0,
                                                    id,
                                                    span,
                                                    vis,
                                                    ident,
                                                    kind,
                                                    tokens: None,
                                                },
                                                c2,
                                            ),
                                        ),
                                    ),
                                },
                            },
                        },
                    },
                },
            },
        },
    }
}

/// A sequence of items, built left to right.
pub open spec fn items_spec(es: Seq<SExpV>, c: u32) -> Outcome<Seq<ItemV>>
    decreases es.len(),
{
    if es.len() == 0 {
        Some(Ok((Seq::empty(), c)))
    } else {
        match item_spec(es[0], c) {
            None => None,
            Some(Err(x)) => Some(Err(x)),
            Some(Ok((s, c1))) => match items_spec(es.drop_first(), c1) {
                None => None,
                Some(Err(x)) => Some(Err(x)),
                Some(Ok((ss, c2))) => Some(Ok((seq![s] + ss, c2))),
            },
        }
    }
}

/// `(Crate :items (ITEM ...) :spans MODSPANS :id N)`.
pub open spec fn crate_spec(e: SExpV, c: u32) -> Outcome<CrateV> {
    match list_of(e) {
        Err(x) => Some(Err(x)),
        Ok((es, p)) => if es.len() == 0 {
            Some(Err(expected_err("Crate node"@, "empty list"@, p)))
        } else {
            match es[0] {
                SExpV::Symbol(v, sp) => if v != "Crate"@ {
                    Some(Err(expected_err("Crate"@, v, sp)))
                } else {
                    match kwargs_spec(es, p) {
                        Err(x) => Some(Err(x)),
                        Ok(kw) => match kw_lookup(kw, "items"@) {
                            None => Some(Err(expected_err(":items field"@, "missing field"@, p))),
                            Some(il) => match (match list_of(il) {
                                Err(x) => Some(Err(x)),
                                Ok((is, _)) => items_spec(is, c),
                            }) {
                                None => None,
                                Some(Err(x)) => Some(Err(x)),
                                Some(Ok((items, c1))) => match (match kw_lookup(kw, "spans"@) {
                                    None => Ok(ModSpans { inner_span: dummy_span(), inject_use_span: dummy_span() }),
                                    Some(s) => mod_spans_spec(s),
                                }) {
                                    Err(x) => Some(Err(x)),
                                    Ok(spans) => match id_field(kw_lookup(kw, "id"@), c1) {
                                        Err(x) => Some(Err(x)),
                                        Ok((id, c2)) => Some(
                                            Ok(
                                                (
                                                    CrateV {
                                                        attrs_len: 0,
                                                        items,
                                                        spans,
                                                        id,
                                                        is_placeholder: false,
                                                    },
                                                    c2,
                                                ),
                                            ),
                                        ),
                                    },
                                },
                            },
                        },
                    }
                },
                _ => Some(Err(wrong_kind("symbol"@, es[0]))),
            }
        },
    }
}

} // verus!
