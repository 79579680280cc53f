//! The AST builder: its node-id counter, crates and spans.

use vstd::prelude::*;
use crate::ast::{items_view, Crate, Item, ModSpans, NodeId, Span};
use crate::builder::helpers::{expect_list, expect_number, expect_symbol, owned, parse_kwargs, KwArgs};
use crate::builder::spec::{bump, crate_spec, head_of, id_field, items_spec, list_of, mod_spans_spec, node_spec, span_field, span_spec, Outcome};
use crate::error::{ParseError, ParseErrorV};
use crate::sexp::types::{List, SExp, SExpV};
use crate::text::{chars_equal, chars_of};

verus! {

pub struct AstBuilder {
    next_id: u32,
}

/// Whether `s` holds exactly the characters of `lit`.
pub fn is_named(s: &String, lit: &str) -> (b: bool)
    ensures
        b == (s@ == lit@),
{
    let a = chars_of(s.as_str());
    let l = chars_of(lit);
    chars_equal(a.as_slice(), l.as_slice())
}

/// Checks that `sexp` is a node list headed by the symbol `name` and reads its keyword
/// arguments.
pub fn node_kwargs<'a>(sexp: &'a SExp, name: &str) -> (r: Result<(&'a List, KwArgs<'a>), ParseError>)
    requires
        node_spec(sexp@, name@) is Some,
    ensures
        match r {
            Ok((l, kw)) => node_spec(sexp@, name@) == Some(
                Ok::<(Seq<(Seq<char>, SExpV)>, crate::error::Position), ParseErrorV>((kw@, l.pos)),
            ),
            Err(e) => node_spec(sexp@, name@) == Some(
                Err::<(Seq<(Seq<char>, SExpV)>, crate::error::Position), ParseErrorV>(e@),
            ),
        },
{
    let list = match expect_list(sexp) {
        Ok(l) => l,
        Err(e) => {
            return Err(e);
        },
    };
    proof {
        crate::sexp::parser::lemma_seq_view_len(list.elements@);
    }
    if list.elements.len() == 0 {
        proof {
            assert(head_of(list@) is None);
        }
    }
    proof {
        crate::sexp::printer::lemma_seq_view_index(list.elements@, 0);
    }
    let node_type = match expect_symbol(&list.elements[0]) {
        Ok(s) => s,
        Err(e) => {
            return Err(e);
        },
    };
    if !is_named(&node_type.value, name) {
        return Err(
            ParseError::Expected {
                expected: owned(name),
                found: node_type.value.clone(),
                pos: node_type.pos,
            },
        );
    }
    match parse_kwargs(list) {
        Ok(kw) => Ok((list, kw)),
        Err(e) => Err(e),
    }
}

/// Reads an optional `:id` field, taking a fresh id when it is absent.
pub fn build_id(b: &mut AstBuilder, v: Option<&SExp>) -> (r: Result<NodeId, ParseError>)
    ensures
        match r {
            Ok(id) => id_field(
                match v {
                    Some(x) => Some(x@),
                    None => None,
                },
                old(b).counter(),
            ) == Ok::<(NodeId, u32), ParseErrorV>((id, final(b).counter())),
            Err(e) => id_field(
                match v {
                    Some(x) => Some(x@),
                    None => None,
                },
                old(b).counter(),
            ) == Err::<(NodeId, u32), ParseErrorV>(e@),
        },
{
    match v {
        Some(x) => match expect_number(x) {
            Ok(n) => Ok(NodeId(n as u32)),
            Err(e) => Err(e),
        },
        None => Ok(b.next_id()),
    }
}

pub open spec fn opt_view(v: Option<&SExp>) -> Option<SExpV> {
    match v {
        Some(x) => Some(x@),
        None => None,
    }
}

/// Reads an optional `:span` field.
pub fn build_span_field(b: &mut AstBuilder, v: Option<&SExp>) -> (r: Result<Span, ParseError>)
    ensures
        final(b).counter() == old(b).counter(),
        match r {
            Ok(s) => span_field(opt_view(v)) == Ok::<Span, ParseErrorV>(s),
            Err(e) => span_field(opt_view(v)) == Err::<Span, ParseErrorV>(e@),
        },
{
    match v {
        Some(x) => b.build_span(x),
        None => Ok(Span::dummy()),
    }
}

impl AstBuilder {
    /// The next node id to hand out.
    pub closed spec fn counter(&self) -> u32 {
        self.next_id
    }

    pub fn new() -> (b: Self)
        ensures
            b.counter() == 0,
    {
        Self { next_id: 0 }
    }

    /// Hands out a fresh node id (ids wrap around after `u32::MAX`).
    pub fn next_id(&mut self) -> (id: NodeId)
        ensures
            id == NodeId(old(self).counter()),
            final(self).counter() == bump(old(self).counter()),
    {
        let id = self.next_id;
        self.next_id = if self.next_id == u32::MAX {
            0
        } else {
            self.next_id + 1
        };
        NodeId(id)
    }

    pub fn build_crate(&mut self, sexp: &SExp) -> (r: Result<Crate, ParseError>)
        requires
            crate_spec(sexp@, old(self).counter()) is Some,
        ensures
            match r {
                Ok(c) => crate_spec(sexp@, old(self).counter()) == Some(
                    Ok::<(crate::ast::CrateV, u32), ParseErrorV>((c@, final(self).counter())),
                ),
                Err(e) => crate_spec(sexp@, old(self).counter()) == Some(
                    Err::<(crate::ast::CrateV, u32), ParseErrorV>(e@),
                ),
            },
    {
        let list = match expect_list(sexp) {
            Ok(l) => l,
            Err(e) => {
                return Err(e);
            },
        };
        proof {
            crate::sexp::parser::lemma_seq_view_len(list.elements@);
        }
        if list.elements.len() == 0 {
            return Err(
                ParseError::Expected {
                    expected: owned("Crate node"),
                    found: owned("empty list"),
                    pos: list.pos,
                },
            );
        }
        proof {
            crate::sexp::printer::lemma_seq_view_index(list.elements@, 0);
        }
        let node_type = match expect_symbol(&list.elements[0]) {
            Ok(s) => s,
            Err(e) => {
                return Err(e);
            },
        };
        if !is_named(&node_type.value, "Crate") {
            return Err(
                ParseError::Expected {
                    expected: owned("Crate"),
                    found: node_type.value.clone(),
                    pos: node_type.pos,
                },
            );
        }
        let kwargs = match parse_kwargs(list) {
            Ok(kw) => kw,
            Err(e) => {
                return Err(e);
            },
        };
        let items_sexp = match kwargs.get("items") {
            Some(s) => s,
            None => {
                return Err(
                    ParseError::Expected {
                        expected: owned(":items field"),
                        found: owned("missing field"),
                        pos: list.pos,
                    },
                );
            },
        };
        let items = match self.build_items_list(items_sexp) {
            Ok(i) => i,
            Err(e) => {
                return Err(e);
            },
        };
        let spans = match kwargs.get("spans") {
            Some(spans_sexp) => match self.build_mod_spans(spans_sexp) {
                Ok(s) => s,
                Err(e) => {
                    return Err(e);
                },
            },
            None => ModSpans::new(Span::dummy()),
        };
        let id = match build_id(self, kwargs.get("id")) {
            Ok(id) => id,
            Err(e) => {
                return Err(e);
            },
        };
        Ok(Crate::new(items, spans, id))
    }

    fn build_items_list(&mut self, sexp: &SExp) -> (r: Result<Vec<Item>, ParseError>)
        requires
            (match list_of(sexp@) {
                Err(x) => Some(Err(x)),
                Ok((is, _)) => items_spec(is, old(self).counter()),
            }) is Some,
        ensures
            match r {
                Ok(items) => (match list_of(sexp@) {
                    Err(x) => Some(Err(x)),
                    Ok((is, _)) => items_spec(is, old(self).counter()),
                }) == Some(
                    Ok::<(Seq<crate::ast::ItemV>, u32), ParseErrorV>(
                        (items_view(items@), final(self).counter()),
                    ),
                ),
                Err(e) => (match list_of(sexp@) {
                    Err(x) => Some(Err(x)),
                    Ok((is, _)) => items_spec(is, old(self).counter()),
                }) == Some(Err::<(Seq<crate::ast::ItemV>, u32), ParseErrorV>(e@)),
            },
    {
        let list = match expect_list(sexp) {
            Ok(l) => l,
            Err(e) => {
                return Err(e);
            },
        };
        let ghost es = list@;
        let ghost c0 = self.counter();
        proof {
            crate::sexp::parser::lemma_seq_view_len(list.elements@);
        }
        let mut items: Vec<Item> = Vec::new();
        let mut i: usize = 0;
        proof {
            assert(es.skip(0) =~= es);
            assert(items_view(items@) =~= Seq::<crate::ast::ItemV>::empty());
            if let Some(Ok((xs, c))) = items_spec(es, c0) {
                assert(Seq::<crate::ast::ItemV>::empty() + xs =~= xs);
            }
        }
        while i < list.elements.len()
            invariant
                es == list@,
                c0 == old(self).counter(),
                (match list_of(sexp@) {
                    Ok((is, _)) => is == es,
                    Err(_) => false,
                }),
                es.len() == list.elements@.len(),
                i <= es.len(),
                items_spec(es, c0) is Some,
                items_spec(es, c0) == prepend_items(items_view(items@), items_spec(es.skip(i as int), self.counter())),
            decreases es.len() - i,
        {
            proof {
                crate::sexp::printer::lemma_seq_view_index(list.elements@, i as int);
                assert(es.skip(i as int)[0] == es[i as int]);
                assert(es.skip(i as int).drop_first() =~= es.skip(i + 1));
            }
            let ghost cb = self.counter();
            match self.build_item(&list.elements[i]) {
                Ok(item) => {
                    proof {
                        let f = |x: Item| x@;
                        assert(items@.push(item).map_values(f) =~= items@.map_values(f).push(item@));
                        if let Some(Ok((rest, c2))) = items_spec(es.skip(i + 1), self.counter()) {
                            assert(items_view(items@) + (seq![item@] + rest) =~= items_view(items@.push(item)) + rest);
                        }
                    }
                    items.push(item);
                },
                Err(e) => {
                    proof {
                        assert(items_spec(es.skip(i as int), cb) == Some(Err::<(Seq<crate::ast::ItemV>, u32), ParseErrorV>(e@)));
                    }
                    return Err(e);
                },
            }
            i = i + 1;
        }
        proof {
            assert(es.skip(es.len() as int) =~= Seq::<SExpV>::empty());
            assert(items_view(items@) + Seq::<crate::ast::ItemV>::empty() =~= items_view(items@));
        }
        Ok(items)
    }

    fn build_mod_spans(&mut self, sexp: &SExp) -> (r: Result<ModSpans, ParseError>)
        ensures
            final(self).counter() == old(self).counter(),
            match r {
                Ok(m) => mod_spans_spec(sexp@) == Ok::<ModSpans, ParseErrorV>(m),
                Err(e) => mod_spans_spec(sexp@) == Err::<ModSpans, ParseErrorV>(e@),
            },
    {
        let list = match expect_list(sexp) {
            Ok(l) => l,
            Err(e) => {
                return Err(e);
            },
        };
        let kwargs = match parse_kwargs(list) {
            Ok(kw) => kw,
            Err(e) => {
                return Err(e);
            },
        };
        let inner_span = match build_span_field(self, kwargs.get("inner-span")) {
            Ok(s) => s,
            Err(e) => {
                return Err(e);
            },
        };
        Ok(ModSpans::new(inner_span))
    }

    pub fn build_span(&mut self, sexp: &SExp) -> (r: Result<Span, ParseError>)
        ensures
            final(self).counter() == old(self).counter(),
            match r {
                Ok(s) => span_spec(sexp@) == Ok::<Span, ParseErrorV>(s),
                Err(e) => span_spec(sexp@) == Err::<Span, ParseErrorV>(e@),
            },
    {
        let list = match expect_list(sexp) {
            Ok(l) => l,
            Err(e) => {
                return Err(e);
            },
        };
        proof {
            crate::sexp::parser::lemma_seq_view_len(list.elements@);
        }
        if list.elements.len() == 0 {
            return Ok(Span::dummy());
        }
        proof {
            crate::sexp::printer::lemma_seq_view_index(list.elements@, 0);
        }
        let node_type = match expect_symbol(&list.elements[0]) {
            Ok(s) => s,
            Err(e) => {
                return Err(e);
            },
        };
        if !is_named(&node_type.value, "Span") {
            return Err(
                ParseError::Expected {
                    expected: owned("Span"),
                    found: node_type.value.clone(),
                    pos: node_type.pos,
                },
            );
        }
        let kwargs = match parse_kwargs(list) {
            Ok(kw) => kw,
            Err(e) => {
                return Err(e);
            },
        };
        let lo = match kwargs.get("lo") {
            Some(s) => match expect_number(s) {
                Ok(n) => n as u32,
                Err(e) => {
                    return Err(e);
                },
            },
            None => 0,
        };
        let hi = match kwargs.get("hi") {
            Some(s) => match expect_number(s) {
                Ok(n) => n as u32,
                Err(e) => {
                    return Err(e);
                },
            },
            None => 0,
        };
        Ok(Span::new(lo, hi))
    }
}

pub open spec fn prepend_items(acc: Seq<crate::ast::ItemV>, o: Outcome<Seq<crate::ast::ItemV>>) -> Outcome<
    Seq<crate::ast::ItemV>,
> {
    match o {
        Some(Ok((xs, c))) => Some(Ok((acc + xs, c))),
        other => other,
    }
}

impl Default for AstBuilder {
    fn default() -> (b: Self)
        ensures
            b.counter() == 0,
    {
        Self::new()
    }
}

} // verus!
