//! Building items, functions and their signatures.

use vstd::prelude::*;
use crate::ast::{Constness, Defaultness, Extern, Ident, IdentV, Path, Safety, Span, Visibility};
use crate::ast::item::{
    params_view, BindingMode, Fn, FnDecl, FnDeclV, FnHeader, FnHeaderV, FnRetTy, FnRetTyV, FnSig,
    FnSigV, FnV, Generics, Item, ItemKind, ItemKindV, ItemV, Mutability, Param, ParamV, Pat,
    PatKind, Ty, TyKind,
};
use crate::builder::ast_builder::{build_id, build_span_field, is_named, node_kwargs, AstBuilder};
use crate::builder::expr::head_symbol;
use crate::builder::helpers::{
    expect_list, expect_string, expect_symbol, is_nil, owned, parse_kwargs,
};
use crate::builder::spec::{fn_decl_spec, fn_header_spec, fn_ret_ty_spec, fn_sig_spec, fn_spec, ident_spec, item_kind_spec, item_spec, param_spec, params_spec, placeholder_param, visibility_spec};
use crate::error::{ParseError, ParseErrorV};
use crate::sexp::types::{List, SExp, SExpV};

verus! {

impl AstBuilder {
    pub fn build_item(&mut self, sexp: &SExp) -> (r: Result<Item, ParseError>)
        requires
            item_spec(sexp@, old(self).counter()) is Some,
        ensures
            match r {
                Ok(i) => item_spec(sexp@, old(self).counter()) == Some(
                    Ok::<(ItemV, u32), ParseErrorV>((i@, final(self).counter())),
                ),
                Err(e) => item_spec(sexp@, old(self).counter()) == Some(
                    Err::<(ItemV, u32), ParseErrorV>(e@),
                ),
            },
    {
        let (list, kwargs) = match node_kwargs(sexp, "Item") {
            Ok(p) => p,
            Err(e) => {
                return Err(e);
            },
        };
        let vis = match kwargs.get("vis") {
            Some(vis_sexp) => match self.build_visibility(vis_sexp) {
                Ok(v) => v,
                Err(e) => {
                    return Err(e);
                },
            },
            None => Visibility::Inherited,
        };
        let ident = match kwargs.get("ident") {
            Some(ident_sexp) => match self.build_ident(ident_sexp) {
                Ok(i) => i,
                Err(e) => {
                    return Err(e);
                },
            },
            None => {
                return Err(
                    ParseError::Expected {
                        expected: owned(":ident field"),
                        found: owned("missing"),
                        pos: list.pos,
                    },
                );
            },
        };
        let kind = match kwargs.get("kind") {
            Some(kind_sexp) => match self.build_item_kind(kind_sexp) {
                Ok(k) => k,
                Err(e) => {
                    return Err(e);
                },
            },
            None => {
                return Err(
                    ParseError::Expected {
                        expected: owned(":kind field"),
                        found: owned("missing"),
                        pos: list.pos,
                    },
                );
            },
        };
        let span = match build_span_field(self, kwargs.get("span")) {
            Ok(s) => s,
            Err(e) => {
                return Err(e);
            },
        };
        let id = match build_id(self, kwargs.get("id")) {
            Ok(id) => id,
            Err(e) => {
                return Err(e);
            },
        };
        Ok(Item { attrs: Vec::new(), id, span, vis, ident, kind, tokens: None })
    }

    pub fn build_visibility(&mut self, sexp: &SExp) -> (r: Result<Visibility, ParseError>)
        requires
            visibility_spec(sexp@) is Some,
        ensures
            final(self).counter() == old(self).counter(),
            match r {
                Ok(v) => visibility_spec(sexp@) == Some(Ok::<Visibility, ParseErrorV>(v)),
                Err(e) => visibility_spec(sexp@) == Some(Err::<Visibility, ParseErrorV>(e@)),
            },
    {
        let list = match expect_list(sexp) {
            Ok(l) => l,
            Err(e) => {
                return Err(e);
            },
        };
        let node_type = match head_symbol(list) {
            Ok(s) => s,
            Err(e) => {
                return Err(e);
            },
        };
        if is_named(&node_type.value, "Public") {
            Ok(Visibility::Public)
        } else if is_named(&node_type.value, "Inherited") {
            Ok(Visibility::Inherited)
        } else {
            Err(
                ParseError::Expected {
                    expected: owned("Public or Inherited"),
                    found: node_type.value.clone(),
                    pos: node_type.pos,
                },
            )
        }
    }

    pub fn build_ident(&mut self, sexp: &SExp) -> (r: Result<Ident, ParseError>)
        requires
            ident_spec(sexp@) is Some,
        ensures
            final(self).counter() == old(self).counter(),
            match r {
                Ok(i) => ident_spec(sexp@) == Some(Ok::<IdentV, ParseErrorV>(i@)),
                Err(e) => ident_spec(sexp@) == Some(Err::<IdentV, ParseErrorV>(e@)),
            },
    {
        let (list, kwargs) = match node_kwargs(sexp, "Ident") {
            Ok(p) => p,
            Err(e) => {
                return Err(e);
            },
        };
        let name = match kwargs.get("name") {
            Some(name_sexp) => match expect_string(name_sexp) {
                Ok(n) => n,
                Err(e) => {
                    return Err(e);
                },
            },
            None => {
                return Err(
                    ParseError::Expected {
                        expected: owned(":name field"),
                        found: owned("missing"),
                        pos: list.pos,
                    },
                );
            },
        };
        let span = match build_span_field(self, kwargs.get("span")) {
            Ok(s) => s,
            Err(e) => {
                return Err(e);
            },
        };
        Ok(Ident { name, span })
    }

    pub fn build_item_kind(&mut self, sexp: &SExp) -> (r: Result<ItemKind, ParseError>)
        requires
            item_kind_spec(sexp@, old(self).counter()) is Some,
        ensures
            match r {
                Ok(k) => item_kind_spec(sexp@, old(self).counter()) == Some(
                    Ok::<(ItemKindV, u32), ParseErrorV>((k@, final(self).counter())),
                ),
                Err(e) => item_kind_spec(sexp@, old(self).counter()) == Some(
                    Err::<(ItemKindV, u32), ParseErrorV>(e@),
                ),
            },
    {
        let list = match expect_list(sexp) {
            Ok(l) => l,
            Err(e) => {
                return Err(e);
            },
        };
        let node_type = match head_symbol(list) {
            Ok(s) => s,
            Err(e) => {
                return Err(e);
            },
        };
        if is_named(&node_type.value, "Fn") {
            match self.build_fn(list) {
                Ok(f) => Ok(ItemKind::Fn(Box::new(f))),
                Err(e) => Err(e),
            }
        } else {
            Err(
                ParseError::Expected {
                    expected: owned("Fn (only supported in Phase 1)"),
                    found: node_type.value.clone(),
                    pos: node_type.pos,
                },
            )
        }
    }

    fn build_fn(&mut self, list: &List) -> (r: Result<Fn, ParseError>)
        requires
            fn_spec(list@, list.pos, old(self).counter()) is Some,
        ensures
            match r {
                Ok(f) => fn_spec(list@, list.pos, old(self).counter()) == Some(
                    Ok::<(FnV, u32), ParseErrorV>((f@, final(self).counter())),
                ),
                Err(e) => fn_spec(list@, list.pos, old(self).counter()) == Some(
                    Err::<(FnV, u32), ParseErrorV>(e@),
                ),
            },
    {
        let kwargs = match parse_kwargs(list) {
            Ok(kw) => kw,
            Err(e) => {
                return Err(e);
            },
        };
        let defaultness = match kwargs.get("defaultness") {
            Some(default_sexp) => {
                let sym = match expect_symbol(default_sexp) {
                    Ok(s) => s,
                    Err(e) => {
                        return Err(e);
                    },
                };
                if is_named(&sym.value, "Default") {
                    Defaultness::Default
                } else {
                    Defaultness::Final
                }
            },
            None => Defaultness::Final,
        };
        let sig = match kwargs.get("sig") {
            Some(sig_sexp) => match self.build_fn_sig(sig_sexp) {
                Ok(s) => s,
                Err(e) => {
                    return Err(e);
                },
            },
            None => {
                return Err(
                    ParseError::Expected {
                        expected: owned(":sig field"),
                        found: owned("missing"),
                        pos: list.pos,
                    },
                );
            },
        };
        let generics = match kwargs.get("generics") {
            Some(gen_sexp) => match self.build_generics(gen_sexp) {
                Ok(g) => g,
                Err(e) => {
                    return Err(e);
                },
            },
            None => Generics::empty(),
        };
        let body = match kwargs.get("body") {
            Some(body_sexp) => {
                if !is_nil(body_sexp) {
                    match self.build_block(body_sexp) {
                        Ok(b) => Some(b),
                        Err(e) => {
                            return Err(e);
                        },
                    }
                } else {
                    None
                }
            },
            None => None,
        };
        Ok(Fn { defaultness, sig, generics, body })
    }

    fn build_fn_sig(&mut self, sexp: &SExp) -> (r: Result<FnSig, ParseError>)
        requires
            fn_sig_spec(sexp@, old(self).counter()) is Some,
        ensures
            match r {
                Ok(s) => fn_sig_spec(sexp@, old(self).counter()) == Some(
                    Ok::<(FnSigV, u32), ParseErrorV>((s@, final(self).counter())),
                ),
                Err(e) => fn_sig_spec(sexp@, old(self).counter()) == Some(
                    Err::<(FnSigV, u32), ParseErrorV>(e@),
                ),
            },
    {
        let (_list, kwargs) = match node_kwargs(sexp, "FnSig") {
            Ok(p) => p,
            Err(e) => {
                return Err(e);
            },
        };
        let header = match kwargs.get("header") {
            Some(header_sexp) => match self.build_fn_header(header_sexp) {
                Ok(h) => h,
                Err(e) => {
                    return Err(e);
                },
            },
            None => FnHeader {
                safety: Safety::Default,
                coroutine_kind: None,
                constness: Constness::NotConst,
                ext: Extern::NoExtern,
            },
        };
        let decl = match kwargs.get("decl") {
            Some(decl_sexp) => match self.build_fn_decl(decl_sexp) {
                Ok(d) => d,
                Err(e) => {
                    return Err(e);
                },
            },
            None => {
                let d = FnDecl { inputs: Vec::new(), output: FnRetTy::Default(Span::dummy()) };
                assert(d@.inputs =~= Seq::<ParamV>::empty());
                d
            },
        };
        let span = match build_span_field(self, kwargs.get("span")) {
            Ok(s) => s,
            Err(e) => {
                return Err(e);
            },
        };
        Ok(FnSig { header, decl, span })
    }

    fn build_fn_header(&mut self, sexp: &SExp) -> (r: Result<FnHeader, ParseError>)
        ensures
            final(self).counter() == old(self).counter(),
            match r {
                Ok(h) => fn_header_spec(sexp@) == Ok::<FnHeaderV, ParseErrorV>(h@),
                Err(e) => fn_header_spec(sexp@) == Err::<FnHeaderV, ParseErrorV>(e@),
            },
    {
        let list = match expect_list(sexp) {
            Ok(l) => l,
            Err(e) => {
                return Err(e);
            },
        };
        let kwargs = match parse_kwargs(list) {
            Ok(kw) => kw,
            Err(e) => {
                return Err(e);
            },
        };
        let safety = match kwargs.get("safety") {
            Some(safety_sexp) => {
                let sym = match expect_symbol(safety_sexp) {
                    Ok(s) => s,
                    Err(e) => {
                        return Err(e);
                    },
                };
                if is_named(&sym.value, "Safe") {
                    Safety::Safe
                } else if is_named(&sym.value, "Unsafe") {
                    Safety::Unsafe
                } else {
                    Safety::Default
                }
            },
            None => Safety::Default,
        };
        let constness = match kwargs.get("constness") {
            Some(const_sexp) => {
                let sym = match expect_symbol(const_sexp) {
                    Ok(s) => s,
                    Err(e) => {
                        return Err(e);
                    },
                };
                if is_named(&sym.value, "Const") {
                    Constness::Const
                } else {
                    Constness::NotConst
                }
            },
            None => Constness::NotConst,
        };
        Ok(FnHeader { safety, coroutine_kind: None, constness, ext: Extern::NoExtern })
    }

    fn build_fn_decl(&mut self, sexp: &SExp) -> (r: Result<FnDecl, ParseError>)
        requires
            fn_decl_spec(sexp@, old(self).counter()) is Some,
        ensures
            match r {
                Ok(d) => fn_decl_spec(sexp@, old(self).counter()) == Some(
                    Ok::<(FnDeclV, u32), ParseErrorV>((d@, final(self).counter())),
                ),
                Err(e) => fn_decl_spec(sexp@, old(self).counter()) == Some(
                    Err::<(FnDeclV, u32), ParseErrorV>(e@),
                ),
            },
    {
        let list = match expect_list(sexp) {
            Ok(l) => l,
            Err(e) => {
                return Err(e);
            },
        };
        let kwargs = match parse_kwargs(list) {
            Ok(kw) => kw,
            Err(e) => {
                return Err(e);
            },
        };
        let inputs = match kwargs.get("inputs") {
            Some(inputs_sexp) => {
                let inputs_list = match expect_list(inputs_sexp) {
                    Ok(l) => l,
                    Err(e) => {
                        return Err(e);
                    },
                };
                match self.build_params(inputs_list) {
                    Ok(p) => p,
                    Err(e) => {
                        return Err(e);
                    },
                }
            },
            None => Vec::new(),
        };
        proof {
            assert(params_view(Seq::<Param>::empty()) =~= Seq::<ParamV>::empty());
        }
        let output = match kwargs.get("output") {
            Some(output_sexp) => match self.build_fn_ret_ty(output_sexp) {
                Ok(o) => o,
                Err(e) => {
                    return Err(e);
                },
            },
            None => FnRetTy::Default(Span::dummy()),
        };
        Ok(FnDecl { inputs, output })
    }

    /// Builds the parameters of an `:inputs` list, left to right.
    fn build_params(&mut self, list: &List) -> (r: Result<Vec<Param>, ParseError>)
        ensures
            match r {
                Ok(ps) => params_spec(list@, old(self).counter()) == Ok::<
                    (Seq<ParamV>, u32),
                    ParseErrorV,
                >((params_view(ps@), final(self).counter())),
                Err(e) => params_spec(list@, old(self).counter()) == Err::<
                    (Seq<ParamV>, u32),
                    ParseErrorV,
                >(e@),
            },
    {
        let ghost es = list@;
        let ghost c0 = self.counter();
        proof {
            crate::sexp::parser::lemma_seq_view_len(list.elements@);
        }
        let mut params: Vec<Param> = Vec::new();
        let mut i: usize = 0;
        proof {
            assert(es.skip(0) =~= es);
            assert(params_view(params@) =~= Seq::<ParamV>::empty());
            if let Ok((xs, c)) = params_spec(es, c0) {
                assert(Seq::<ParamV>::empty() + xs =~= xs);
            }
        }
        while i < list.elements.len()
            invariant
                es == list@,
                c0 == old(self).counter(),
                es.len() == list.elements@.len(),
                i <= es.len(),
                params_spec(es, c0) == match params_spec(es.skip(i as int), self.counter()) {
                    Ok((xs, c)) => Ok::<(Seq<ParamV>, u32), ParseErrorV>(
                        (params_view(params@) + xs, c),
                    ),
                    Err(x) => Err(x),
                },
            decreases es.len() - i,
        {
            proof {
                crate::sexp::printer::lemma_seq_view_index(list.elements@, i as int);
                assert(es.skip(i as int)[0] == es[i as int]);
                assert(es.skip(i as int).drop_first() =~= es.skip(i + 1));
            }
            let ghost cb = self.counter();
            match self.build_param(&list.elements[i]) {
                Ok(p) => {
                    proof {
                        let f = |x: Param| x@;
                        assert(params@.push(p).map_values(f) =~= params@.map_values(f).push(p@));
                        if let Ok((rest, c2)) = params_spec(es.skip(i + 1), self.counter()) {
                            assert(params_view(params@) + (seq![p@] + rest) =~= params_view(
                                params@.push(p),
                            ) + rest);
                        }
                    }
                    params.push(p);
                },
                Err(e) => {
                    proof {
                        assert(params_spec(es.skip(i as int), cb) == Err::<(Seq<ParamV>, u32), ParseErrorV>(e@));
                    }
                    return Err(e);
                },
            }
            i = i + 1;
        }
        proof {
            assert(es.skip(es.len() as int) =~= Seq::<SExpV>::empty());
            assert(params_view(params@) + Seq::<ParamV>::empty() =~= params_view(params@));
        }
        Ok(params)
    }

    fn build_param(&mut self, sexp: &SExp) -> (r: Result<Param, ParseError>)
        ensures
            match r {
                Ok(p) => param_spec(sexp@, old(self).counter()) == Ok::<(ParamV, u32), ParseErrorV>(
                    (p@, final(self).counter()),
                ),
                Err(e) => param_spec(sexp@, old(self).counter()) == Err::<
                    (ParamV, u32),
                    ParseErrorV,
                >(e@),
            },
    {
        let list = match expect_list(sexp) {
            Ok(l) => l,
            Err(e) => {
                return Err(e);
            },
        };
        let _kwargs = match parse_kwargs(list) {
            Ok(kw) => kw,
            Err(e) => {
                return Err(e);
            },
        };
        let ghost c = self.counter();
        let ty_id = self.next_id();
        let ty_path = Path::from_ident(Ident::new("i32", Span::dummy()));
        let ty = Ty { id: ty_id, kind: TyKind::Path(None, ty_path), span: Span::dummy(), tokens: None };
        let pat_id = self.next_id();
        let pat = Pat {
            id: pat_id,
            kind: PatKind::Ident {
                binding_mode: BindingMode::ByValue(Mutability::Not),
                ident: Ident::new("param", Span::dummy()),
                sub: None,
            },
            span: Span::dummy(),
            tokens: None,
        };
        let id = self.next_id();
        let p = Param { attrs: Vec::new(), ty, pat, id, span: Span::dummy(), is_placeholder: false };
        proof {
            assert(p@ == placeholder_param(c));
        }
        Ok(p)
    }

    fn build_fn_ret_ty(&mut self, sexp: &SExp) -> (r: Result<FnRetTy, ParseError>)
        requires
            fn_ret_ty_spec(sexp@) is Some,
        ensures
            final(self).counter() == old(self).counter(),
            match r {
                Ok(t) => fn_ret_ty_spec(sexp@) == Some(Ok::<FnRetTyV, ParseErrorV>(t@)),
                Err(e) => fn_ret_ty_spec(sexp@) == Some(Err::<FnRetTyV, ParseErrorV>(e@)),
            },
    {
        let list = match expect_list(sexp) {
            Ok(l) => l,
            Err(e) => {
                return Err(e);
            },
        };
        let node_type = match head_symbol(list) {
            Ok(s) => s,
            Err(e) => {
                return Err(e);
            },
        };
        if is_named(&node_type.value, "Default") {
            Ok(FnRetTy::Default(Span::dummy()))
        } else if is_named(&node_type.value, "Ty") {
            Ok(FnRetTy::Default(Span::dummy()))
        } else {
            Err(
                ParseError::Expected {
                    expected: owned("Default or Ty"),
                    found: node_type.value.clone(),
                    pos: node_type.pos,
                },
            )
        }
    }

    fn build_generics(&mut self, sexp: &SExp) -> (r: Result<Generics, ParseError>)
        ensures
            final(self).counter() == old(self).counter(),
            match r {
                Ok(g) => sexp@ is List && crate::ast::item::generics_empty(g),
                Err(e) => !(sexp@ is List) && e@ == crate::builder::helpers::wrong_kind(
                    "list"@,
                    sexp@,
                ),
            },
    {
        match expect_list(sexp) {
            Ok(_) => Ok(Generics::empty()),
            Err(e) => Err(e),
        }
    }
}

} // verus!
