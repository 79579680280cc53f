//! Building blocks, statements, expressions and paths.

use vstd::prelude::*;
use crate::ast::{segments_view, Path, PathSegment, PathSegmentV, Span};
use crate::ast::expr::{
    DelSpan, Delimiter, Expr, ExprKind, ExprKindV, ExprV, MacArgs, MacArgsV, MacCall, MacCallV,
    TokenStream, TokenStreamV,
};
use crate::ast::item::{stmts_view, Block, BlockV};
use crate::ast::stmt::{Stmt, StmtKind, StmtKindV, StmtV};
use crate::builder::ast_builder::{build_id, build_span_field, is_named, node_kwargs, AstBuilder};
use crate::builder::helpers::{expect_list, expect_string, expect_symbol, owned, parse_kwargs};
use crate::builder::spec::{block_spec, del_span_spec, delimiter_spec, expr_kind_spec, expr_spec, head_of, list_of, mac_args_spec, mac_call_spec, path_segment_spec, path_spec, segments_spec, stmt_kind_spec, stmt_spec, stmts_spec, token_stream_spec, Outcome};
use crate::error::{ParseError, ParseErrorV, Position};
use crate::sexp::types::{List, SExp, SExpV};

verus! {

pub open spec fn prepend_outcome<T>(acc: Seq<T>, o: Outcome<Seq<T>>) -> Outcome<Seq<T>> {
    match o {
        Some(Ok((xs, c))) => Some(Ok((acc + xs, c))),
        other => other,
    }
}

impl AstBuilder {
    pub fn build_block(&mut self, sexp: &SExp) -> (r: Result<Block, ParseError>)
        requires
            block_spec(sexp@, old(self).counter()) is Some,
        ensures
            match r {
                Ok(b) => block_spec(sexp@, old(self).counter()) == Some(
                    Ok::<(BlockV, u32), ParseErrorV>((b@, final(self).counter())),
                ),
                Err(e) => block_spec(sexp@, old(self).counter()) == Some(
                    Err::<(BlockV, u32), ParseErrorV>(e@),
                ),
            },
    {
        let (list, kwargs) = match node_kwargs(sexp, "Block") {
            Ok(p) => p,
            Err(e) => {
                return Err(e);
            },
        };
        let stmts = match kwargs.get("stmts") {
            Some(stmts_sexp) => {
                let stmts_list = match expect_list(stmts_sexp) {
                    Ok(l) => l,
                    Err(e) => {
                        return Err(e);
                    },
                };
                match self.build_stmts(stmts_list) {
                    Ok(s) => s,
                    Err(e) => {
                        return Err(e);
                    },
                }
            },
            None => Vec::new(),
        };
        proof {
            assert(stmts_view(Seq::<Stmt>::empty()) =~= Seq::<StmtV>::empty());
        }
        let span = match build_span_field(self, kwargs.get("span")) {
            Ok(s) => s,
            Err(e) => {
                return Err(e);
            },
        };
        let id = match build_id(self, kwargs.get("id")) {
            Ok(id) => id,
            Err(e) => {
                return Err(e);
            },
        };
        Ok(Block::new(stmts, id, span))
    }

    /// Builds the statements of a `:stmts` list, left to right.
    fn build_stmts(&mut self, list: &List) -> (r: Result<Vec<Stmt>, ParseError>)
        requires
            stmts_spec(list@, old(self).counter()) is Some,
        ensures
            match r {
                Ok(ss) => stmts_spec(list@, old(self).counter()) == Some(
                    Ok::<(Seq<StmtV>, u32), ParseErrorV>((stmts_view(ss@), final(self).counter())),
                ),
                Err(e) => stmts_spec(list@, old(self).counter()) == Some(
                    Err::<(Seq<StmtV>, u32), ParseErrorV>(e@),
                ),
            },
    {
        let ghost es = list@;
        let ghost c0 = self.counter();
        proof {
            crate::sexp::parser::lemma_seq_view_len(list.elements@);
        }
        let mut stmts: Vec<Stmt> = Vec::new();
        let mut i: usize = 0;
        proof {
            assert(es.skip(0) =~= es);
            assert(stmts_view(stmts@) =~= Seq::<StmtV>::empty());
            if let Some(Ok((xs, c))) = stmts_spec(es, c0) {
                assert(Seq::<StmtV>::empty() + xs =~= xs);
            }
        }
        while i < list.elements.len()
            invariant
                es == list@,
                c0 == old(self).counter(),
                es.len() == list.elements@.len(),
                i <= es.len(),
                stmts_spec(es, c0) is Some,
                stmts_spec(es, c0) == prepend_outcome(
                    stmts_view(stmts@),
                    stmts_spec(es.skip(i as int), self.counter()),
                ),
            decreases es.len() - i,
        {
            proof {
                crate::sexp::printer::lemma_seq_view_index(list.elements@, i as int);
                assert(es.skip(i as int)[0] == es[i as int]);
                assert(es.skip(i as int).drop_first() =~= es.skip(i + 1));
            }
            let ghost cb = self.counter();
            match self.build_stmt(&list.elements[i]) {
                Ok(s) => {
                    proof {
                        let f = |x: Stmt| x@;
                        assert(stmts@.push(s).map_values(f) =~= stmts@.map_values(f).push(s@));
                        if let Some(Ok((rest, c2))) = stmts_spec(es.skip(i + 1), self.counter()) {
                            assert(stmts_view(stmts@) + (seq![s@] + rest) =~= stmts_view(
                                stmts@.push(s),
                            ) + rest);
                        }
                    }
                    stmts.push(s);
                },
                Err(e) => {
                    proof {
                        assert(stmts_spec(es.skip(i as int), cb) == Some(Err::<(Seq<StmtV>, u32), ParseErrorV>(e@)));
                    }
                    return Err(e);
                },
            }
            i = i + 1;
        }
        proof {
            assert(es.skip(es.len() as int) =~= Seq::<SExpV>::empty());
            assert(stmts_view(stmts@) + Seq::<StmtV>::empty() =~= stmts_view(stmts@));
        }
        Ok(stmts)
    }

    pub fn build_stmt(&mut self, sexp: &SExp) -> (r: Result<Stmt, ParseError>)
        requires
            stmt_spec(sexp@, old(self).counter()) is Some,
        ensures
            match r {
                Ok(s) => stmt_spec(sexp@, old(self).counter()) == Some(
                    Ok::<(StmtV, u32), ParseErrorV>((s@, final(self).counter())),
                ),
                Err(e) => stmt_spec(sexp@, old(self).counter()) == Some(
                    Err::<(StmtV, u32), ParseErrorV>(e@),
                ),
            },
    {
        let (list, kwargs) = match node_kwargs(sexp, "Stmt") {
            Ok(p) => p,
            Err(e) => {
                return Err(e);
            },
        };
        let kind = match kwargs.get("kind") {
            Some(kind_sexp) => match self.build_stmt_kind(kind_sexp) {
                Ok(k) => k,
                Err(e) => {
                    return Err(e);
                },
            },
            None => {
                return Err(
                    ParseError::Expected {
                        expected: owned(":kind field"),
                        found: owned("missing"),
                        pos: list.pos,
                    },
                );
            },
        };
        let span = match build_span_field(self, kwargs.get("span")) {
            Ok(s) => s,
            Err(e) => {
                return Err(e);
            },
        };
        let id = match build_id(self, kwargs.get("id")) {
            Ok(id) => id,
            Err(e) => {
                return Err(e);
            },
        };
        Ok(Stmt { id, kind, span })
    }

    fn build_stmt_kind(&mut self, sexp: &SExp) -> (r: Result<StmtKind, ParseError>)
        requires
            stmt_kind_spec(sexp@, old(self).counter()) is Some,
        ensures
            match r {
                Ok(k) => stmt_kind_spec(sexp@, old(self).counter()) == Some(
                    Ok::<(StmtKindV, u32), ParseErrorV>((k@, final(self).counter())),
                ),
                Err(e) => stmt_kind_spec(sexp@, old(self).counter()) == Some(
                    Err::<(StmtKindV, u32), ParseErrorV>(e@),
                ),
            },
    {
        let list = match expect_list(sexp) {
            Ok(l) => l,
            Err(e) => {
                return Err(e);
            },
        };
        let node_type = match head_symbol(list) {
            Ok(s) => s,
            Err(e) => {
                return Err(e);
            },
        };
        if is_named(&node_type.value, "Empty") {
            return Ok(StmtKind::Empty);
        }
        let is_expr = is_named(&node_type.value, "Expr");
        if is_expr || is_named(&node_type.value, "Semi") {
            let kwargs = match parse_kwargs(list) {
                Ok(kw) => kw,
                Err(e) => {
                    return Err(e);
                },
            };
            let expr = match kwargs.get("expr") {
                Some(x) => match self.build_expr(x) {
                    Ok(e) => e,
                    Err(e) => {
                        return Err(e);
                    },
                },
                None => {
                    return Err(
                        ParseError::Expected {
                            expected: owned(":expr field"),
                            found: owned("missing"),
                            pos: list.pos,
                        },
                    );
                },
            };
            if is_expr {
                Ok(StmtKind::Expr(expr))
            } else {
                Ok(StmtKind::Semi(expr))
            }
        } else {
            Err(
                ParseError::Expected {
                    expected: owned("Empty, Expr, or Semi"),
                    found: node_type.value.clone(),
                    pos: node_type.pos,
                },
            )
        }
    }

    pub fn build_expr(&mut self, sexp: &SExp) -> (r: Result<Expr, ParseError>)
        requires
            expr_spec(sexp@, old(self).counter()) is Some,
        ensures
            match r {
                Ok(x) => expr_spec(sexp@, old(self).counter()) == Some(
                    Ok::<(ExprV, u32), ParseErrorV>((x@, final(self).counter())),
                ),
                Err(e) => expr_spec(sexp@, old(self).counter()) == Some(
                    Err::<(ExprV, u32), ParseErrorV>(e@),
                ),
            },
    {
        let (list, kwargs) = match node_kwargs(sexp, "Expr") {
            Ok(p) => p,
            Err(e) => {
                return Err(e);
            },
        };
        let kind = match kwargs.get("kind") {
            Some(kind_sexp) => match self.build_expr_kind(kind_sexp) {
                Ok(k) => k,
                Err(e) => {
                    return Err(e);
                },
            },
            None => {
                return Err(
                    ParseError::Expected {
                        expected: owned(":kind field"),
                        found: owned("missing"),
                        pos: list.pos,
                    },
                );
            },
        };
        let span = match build_span_field(self, kwargs.get("span")) {
            Ok(s) => s,
            Err(e) => {
                return Err(e);
            },
        };
        let id = match build_id(self, kwargs.get("id")) {
            Ok(id) => id,
            Err(e) => {
                return Err(e);
            },
        };
        Ok(Expr { id, kind, span, attrs: Vec::new(), tokens: None })
    }

    fn build_expr_kind(&mut self, sexp: &SExp) -> (r: Result<ExprKind, ParseError>)
        requires
            expr_kind_spec(sexp@, old(self).counter()) is Some,
        ensures
            match r {
                Ok(k) => expr_kind_spec(sexp@, old(self).counter()) == Some(
                    Ok::<(ExprKindV, u32), ParseErrorV>((k@, final(self).counter())),
                ),
                Err(e) => expr_kind_spec(sexp@, old(self).counter()) == Some(
                    Err::<(ExprKindV, u32), ParseErrorV>(e@),
                ),
            },
    {
        let list = match expect_list(sexp) {
            Ok(l) => l,
            Err(e) => {
                return Err(e);
            },
        };
        let node_type = match head_symbol(list) {
            Ok(s) => s,
            Err(e) => {
                return Err(e);
            },
        };
        if is_named(&node_type.value, "MacCall") {
            match self.build_mac_call_inner(list) {
                Ok(m) => Ok(ExprKind::MacCall(m)),
                Err(e) => Err(e),
            }
        } else {
            Err(
                ParseError::Expected {
                    expected: owned("MacCall (only supported in Phase 1)"),
                    found: node_type.value.clone(),
                    pos: node_type.pos,
                },
            )
        }
    }

    fn build_mac_call_inner(&mut self, list: &List) -> (r: Result<MacCall, ParseError>)
        requires
            mac_call_spec(list@, list.pos, old(self).counter()) is Some,
        ensures
            match r {
                Ok(m) => mac_call_spec(list@, list.pos, old(self).counter()) == Some(
                    Ok::<(MacCallV, u32), ParseErrorV>((m@, final(self).counter())),
                ),
                Err(e) => mac_call_spec(list@, list.pos, old(self).counter()) == Some(
                    Err::<(MacCallV, u32), ParseErrorV>(e@),
                ),
            },
    {
        let kwargs = match parse_kwargs(list) {
            Ok(kw) => kw,
            Err(e) => {
                return Err(e);
            },
        };
        let path = match kwargs.get("path") {
            Some(path_sexp) => match self.build_path(path_sexp) {
                Ok(p) => p,
                Err(e) => {
                    return Err(e);
                },
            },
            None => {
                return Err(
                    ParseError::Expected {
                        expected: owned(":path field"),
                        found: owned("missing"),
                        pos: list.pos,
                    },
                );
            },
        };
        let args = match kwargs.get("args") {
            Some(args_sexp) => match self.build_mac_args(args_sexp) {
                Ok(a) => a,
                Err(e) => {
                    return Err(e);
                },
            },
            None => MacArgs::Empty,
        };
        Ok(MacCall::new(path, args))
    }

    pub fn build_path(&mut self, sexp: &SExp) -> (r: Result<Path, ParseError>)
        requires
            path_spec(sexp@, old(self).counter()) is Some,
        ensures
            match r {
                Ok(p) => path_spec(sexp@, old(self).counter()) == Some(
                    Ok::<(crate::ast::PathV, u32), ParseErrorV>((p@, final(self).counter())),
                ),
                Err(e) => path_spec(sexp@, old(self).counter()) == Some(
                    Err::<(crate::ast::PathV, u32), ParseErrorV>(e@),
                ),
            },
    {
        let (_list, kwargs) = match node_kwargs(sexp, "Path") {
            Ok(p) => p,
            Err(e) => {
                return Err(e);
            },
        };
        let segments = match kwargs.get("segments") {
            Some(segments_sexp) => {
                let segments_list = match expect_list(segments_sexp) {
                    Ok(l) => l,
                    Err(e) => {
                        return Err(e);
                    },
                };
                match self.build_segments(segments_list) {
                    Ok(s) => s,
                    Err(e) => {
                        return Err(e);
                    },
                }
            },
            None => Vec::new(),
        };
        proof {
            assert(segments_view(Seq::<PathSegment>::empty()) =~= Seq::<PathSegmentV>::empty());
        }
        let span = match build_span_field(self, kwargs.get("span")) {
            Ok(s) => s,
            Err(e) => {
                return Err(e);
            },
        };
        Ok(Path { span, segments, tokens: None })
    }

    /// Builds the segments of a `:segments` list, left to right.
    fn build_segments(&mut self, list: &List) -> (r: Result<Vec<PathSegment>, ParseError>)
        requires
            segments_spec(list@, old(self).counter()) is Some,
        ensures
            match r {
                Ok(ss) => segments_spec(list@, old(self).counter()) == Some(
                    Ok::<(Seq<PathSegmentV>, u32), ParseErrorV>(
                        (segments_view(ss@), final(self).counter()),
                    ),
                ),
                Err(e) => segments_spec(list@, old(self).counter()) == Some(
                    Err::<(Seq<PathSegmentV>, u32), ParseErrorV>(e@),
                ),
            },
    {
        let ghost es = list@;
        let ghost c0 = self.counter();
        proof {
            crate::sexp::parser::lemma_seq_view_len(list.elements@);
        }
        let mut segs: Vec<PathSegment> = Vec::new();
        let mut i: usize = 0;
        proof {
            assert(es.skip(0) =~= es);
            assert(segments_view(segs@) =~= Seq::<PathSegmentV>::empty());
            if let Some(Ok((xs, c))) = segments_spec(es, c0) {
                assert(Seq::<PathSegmentV>::empty() + xs =~= xs);
            }
        }
        while i < list.elements.len()
            invariant
                es == list@,
                c0 == old(self).counter(),
                es.len() == list.elements@.len(),
                i <= es.len(),
                segments_spec(es, c0) is Some,
                segments_spec(es, c0) == prepend_outcome(
                    segments_view(segs@),
                    segments_spec(es.skip(i as int), self.counter()),
                ),
            decreases es.len() - i,
        {
            proof {
                crate::sexp::printer::lemma_seq_view_index(list.elements@, i as int);
                assert(es.skip(i as int)[0] == es[i as int]);
                assert(es.skip(i as int).drop_first() =~= es.skip(i + 1));
            }
            let ghost cb = self.counter();
            match self.build_path_segment(&list.elements[i]) {
                Ok(s) => {
                    proof {
                        let f = |x: PathSegment| x@;
                        assert(segs@.push(s).map_values(f) =~= segs@.map_values(f).push(s@));
                        if let Some(Ok((rest, c2))) = segments_spec(es.skip(i + 1), self.counter()) {
                            assert(segments_view(segs@) + (seq![s@] + rest) =~= segments_view(
                                segs@.push(s),
                            ) + rest);
                        }
                    }
                    segs.push(s);
                },
                Err(e) => {
                    proof {
                        assert(segments_spec(es.skip(i as int), cb) == Some(Err::<(Seq<PathSegmentV>, u32), ParseErrorV>(e@)));
                    }
                    return Err(e);
                },
            }
            i = i + 1;
        }
        proof {
            assert(es.skip(es.len() as int) =~= Seq::<SExpV>::empty());
            assert(segments_view(segs@) + Seq::<PathSegmentV>::empty() =~= segments_view(segs@));
        }
        Ok(segs)
    }

    fn build_path_segment(&mut self, sexp: &SExp) -> (r: Result<PathSegment, ParseError>)
        requires
            path_segment_spec(sexp@, old(self).counter()) is Some,
        ensures
            match r {
                Ok(s) => path_segment_spec(sexp@, old(self).counter()) == Some(
                    Ok::<(PathSegmentV, u32), ParseErrorV>((s@, final(self).counter())),
                ),
                Err(e) => path_segment_spec(sexp@, old(self).counter()) == Some(
                    Err::<(PathSegmentV, u32), ParseErrorV>(e@),
                ),
            },
    {
        let (list, kwargs) = match node_kwargs(sexp, "PathSegment") {
            Ok(p) => p,
            Err(e) => {
                return Err(e);
            },
        };
        let ident = match kwargs.get("ident") {
            Some(ident_sexp) => match self.build_ident(ident_sexp) {
                Ok(i) => i,
                Err(e) => {
                    return Err(e);
                },
            },
            None => {
                return Err(
                    ParseError::Expected {
                        expected: owned(":ident field"),
                        found: owned("missing"),
                        pos: list.pos,
                    },
                );
            },
        };
        let id = match build_id(self, kwargs.get("id")) {
            Ok(id) => id,
            Err(e) => {
                return Err(e);
            },
        };
        Ok(PathSegment { ident, id, args: None })
    }

    fn build_mac_args(&mut self, sexp: &SExp) -> (r: Result<MacArgs, ParseError>)
        requires
            mac_args_spec(sexp@) is Some,
        ensures
            final(self).counter() == old(self).counter(),
            match r {
                Ok(a) => mac_args_spec(sexp@) == Some(Ok::<MacArgsV, ParseErrorV>(a@)),
                Err(e) => mac_args_spec(sexp@) == Some(Err::<MacArgsV, ParseErrorV>(e@)),
            },
    {
        let list = match expect_list(sexp) {
            Ok(l) => l,
            Err(e) => {
                return Err(e);
            },
        };
        let node_type = match head_symbol(list) {
            Ok(s) => s,
            Err(e) => {
                return Err(e);
            },
        };
        if is_named(&node_type.value, "Empty") {
            Ok(MacArgs::Empty)
        } else if is_named(&node_type.value, "Delimited") {
            let kwargs = match parse_kwargs(list) {
                Ok(kw) => kw,
                Err(e) => {
                    return Err(e);
                },
            };
            let dspan = match kwargs.get("dspan") {
                Some(dspan_sexp) => match self.build_del_span(dspan_sexp) {
                    Ok(d) => d,
                    Err(e) => {
                        return Err(e);
                    },
                },
                None => DelSpan::new(Span::dummy(), Span::dummy()),
            };
            let delim = match kwargs.get("delim") {
                Some(delim_sexp) => match self.build_delimiter(delim_sexp) {
                    Ok(d) => d,
                    Err(e) => {
                        return Err(e);
                    },
                },
                None => Delimiter::Paren,
            };
            let tokens = match kwargs.get("tokens") {
                Some(tokens_sexp) => match self.build_token_stream(tokens_sexp) {
                    Ok(t) => t,
                    Err(e) => {
                        return Err(e);
                    },
                },
                None => TokenStream::Empty,
            };
            Ok(MacArgs::Delimited { dspan, delim, tokens })
        } else {
            Err(
                ParseError::Expected {
                    expected: owned("Empty or Delimited"),
                    found: node_type.value.clone(),
                    pos: node_type.pos,
                },
            )
        }
    }

    fn build_del_span(&mut self, sexp: &SExp) -> (r: Result<DelSpan, ParseError>)
        ensures
            final(self).counter() == old(self).counter(),
            match r {
                Ok(d) => del_span_spec(sexp@) == Ok::<DelSpan, ParseErrorV>(d),
                Err(e) => del_span_spec(sexp@) == Err::<DelSpan, ParseErrorV>(e@),
            },
    {
        let list = match expect_list(sexp) {
            Ok(l) => l,
            Err(e) => {
                return Err(e);
            },
        };
        let kwargs = match parse_kwargs(list) {
            Ok(kw) => kw,
            Err(e) => {
                return Err(e);
            },
        };
        let open = match build_span_field(self, kwargs.get("open")) {
            Ok(s) => s,
            Err(e) => {
                return Err(e);
            },
        };
        let close = match build_span_field(self, kwargs.get("close")) {
            Ok(s) => s,
            Err(e) => {
                return Err(e);
            },
        };
        Ok(DelSpan::new(open, close))
    }

    fn build_delimiter(&mut self, sexp: &SExp) -> (r: Result<Delimiter, ParseError>)
        ensures
            final(self).counter() == old(self).counter(),
            match r {
                Ok(d) => delimiter_spec(sexp@) == Ok::<Delimiter, ParseErrorV>(d),
                Err(e) => delimiter_spec(sexp@) == Err::<Delimiter, ParseErrorV>(e@),
            },
    {
        let sym = match expect_symbol(sexp) {
            Ok(s) => s,
            Err(e) => {
                return Err(e);
            },
        };
        if is_named(&sym.value, "Paren") {
            Ok(Delimiter::Paren)
        } else if is_named(&sym.value, "Brace") {
            Ok(Delimiter::Brace)
        } else if is_named(&sym.value, "Bracket") {
            Ok(Delimiter::Bracket)
        } else if is_named(&sym.value, "Invisible") {
            Ok(Delimiter::Invisible)
        } else {
            Err(
                ParseError::Expected {
                    expected: owned("Paren, Brace, Bracket, or Invisible"),
                    found: sym.value.clone(),
                    pos: sym.pos,
                },
            )
        }
    }

    fn build_token_stream(&mut self, sexp: &SExp) -> (r: Result<TokenStream, ParseError>)
        requires
            token_stream_spec(sexp@) is Some,
        ensures
            final(self).counter() == old(self).counter(),
            match r {
                Ok(t) => token_stream_spec(sexp@) == Some(Ok::<TokenStreamV, ParseErrorV>(t@)),
                Err(e) => token_stream_spec(sexp@) == Some(Err::<TokenStreamV, ParseErrorV>(e@)),
            },
    {
        let list = match expect_list(sexp) {
            Ok(l) => l,
            Err(e) => {
                return Err(e);
            },
        };
        let node_type = match head_symbol(list) {
            Ok(s) => s,
            Err(e) => {
                return Err(e);
            },
        };
        if is_named(&node_type.value, "TokenStream") {
            let kwargs = match parse_kwargs(list) {
                Ok(kw) => kw,
                Err(e) => {
                    return Err(e);
                },
            };
            match kwargs.get("source") {
                Some(source_sexp) => match expect_string(source_sexp) {
                    Ok(source) => Ok(TokenStream::Source(source)),
                    Err(e) => Err(e),
                },
                None => Ok(TokenStream::Empty),
            }
        } else {
            Err(
                ParseError::Expected {
                    expected: owned("TokenStream"),
                    found: node_type.value.clone(),
                    pos: node_type.pos,
                },
            )
        }
    }
}

/// The head symbol of a node list.
pub fn head_symbol(list: &List) -> (r: Result<&crate::sexp::types::Symbol, ParseError>)
    requires
        head_of(list@) is Some,
    ensures
        match r {
            Ok(s) => head_of(list@) == Some(Ok::<(Seq<char>, Position), ParseErrorV>((s.value@, s.pos))),
            Err(e) => head_of(list@) == Some(Err::<(Seq<char>, Position), ParseErrorV>(e@)),
        },
{
    proof {
        crate::sexp::parser::lemma_seq_view_len(list.elements@);
        if list.elements@.len() > 0 {
            crate::sexp::printer::lemma_seq_view_index(list.elements@, 0);
        }
    }
    expect_symbol(&list.elements[0])
}

} // verus!
