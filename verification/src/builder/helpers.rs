//! Helpers for reading AST nodes out of S-expressions.

use vstd::prelude::*;
use crate::error::{debug_quote, debug_quoted, ParseError, ParseErrorV, Position};
use crate::sexp::types::{Keyword, List, SExp, SExpV, Symbol};
use crate::text::{chars_of, decimal, decimal_chars, is_ascii_digit, is_digit, push_all, push_str, string_from_chars};

verus! {

/// The debug text of a position: `Position { offset: O, line: L, column: C }`.
pub open spec fn position_debug(p: Position) -> Seq<char> {
    "Position { offset: "@ + decimal(p.offset as nat) + ", line: "@ + decimal(p.line as nat)
        + ", column: "@ + decimal(p.column as nat) + " }"@
}

/// The debug text of an S-expression, as `{:?}` writes it: the variant, then the
/// struct it holds with its fields in order, strings quoted and escaped, the elements of
/// a list between brackets, separated by `, `.
#[verifier::opaque]
pub open spec fn sexp_debug(e: SExpV) -> Seq<char>
    decreases e,
{
    match e {
        SExpV::Symbol(v, p) => "Symbol(Symbol { value: "@ + debug_quoted(v) + ", pos: "@
            + position_debug(p) + " })"@,
        SExpV::Keyword(n, p) => "Keyword(Keyword { name: "@ + debug_quoted(n) + ", pos: "@
            + position_debug(p) + " })"@,
        SExpV::Str(v, p) => "String(StringLit { value: "@ + debug_quoted(v) + ", pos: "@
            + position_debug(p) + " })"@,
        SExpV::Number(v, p) => "Number(Number { value: "@ + debug_quoted(v) + ", pos: "@
            + position_debug(p) + " })"@,
        SExpV::Nil(p) => "Nil(Nil { pos: "@ + position_debug(p) + " })"@,
        SExpV::List(es, p) => "List(List { elements: ["@ + items_debug(es) + "], pos: "@
            + position_debug(p) + " })"@,
    }
}

/// The debug texts of the elements, separated by `, `.
pub open spec fn items_debug(es: Seq<SExpV>) -> Seq<char>
    decreases es,
{
    if es.len() == 0 {
        Seq::empty()
    } else if es.len() == 1 {
        sexp_debug(es[0])
    } else {
        items_debug(es.subrange(0, es.len() - 1)) + ", "@ + sexp_debug(es[es.len() - 1])
    }
}

fn push_position_debug(v: &mut Vec<char>, p: Position)
    ensures
        final(v)@ == old(v)@ + position_debug(p),
{
    let ghost start = v@;
    push_str(v, "Position { offset: ");
    let d = decimal_chars(p.offset as u64);
    push_all(v, d.as_slice());
    push_str(v, ", line: ");
    let d = decimal_chars(p.line as u64);
    push_all(v, d.as_slice());
    push_str(v, ", column: ");
    let d = decimal_chars(p.column as u64);
    push_all(v, d.as_slice());
    push_str(v, " }");
    assert(v@ =~= start + position_debug(p));
}

fn push_field_debug(v: &mut Vec<char>, head: &str, text: &str, p: Position)
    ensures
        final(v)@ == old(v)@ + head@ + debug_quoted(text@) + ", pos: "@ + position_debug(p)
            + " })"@,
{
    let ghost start = v@;
    push_str(v, head);
    let q = debug_quote(text);
    push_str(v, q.as_str());
    push_str(v, ", pos: ");
    push_position_debug(v, p);
    push_str(v, " })");
    assert(v@ =~= start + head@ + debug_quoted(text@) + ", pos: "@ + position_debug(p) + " })"@);
}

fn push_sexp_debug(v: &mut Vec<char>, sexp: &SExp)
    ensures
        final(v)@ == old(v)@ + sexp_debug(sexp@),
    decreases sexp, 1int,
{
    proof {
        reveal(sexp_debug);
    }
    match sexp {
        SExp::Symbol(s) => push_field_debug(v, "Symbol(Symbol { value: ", s.value.as_str(), s.pos),
        SExp::Keyword(k) => push_field_debug(v, "Keyword(Keyword { name: ", k.name.as_str(), k.pos),
        SExp::String(s) => push_field_debug(v, "String(StringLit { value: ", s.value.as_str(), s.pos),
        SExp::Number(n) => push_field_debug(v, "Number(Number { value: ", n.value.as_str(), n.pos),
        SExp::Nil(n) => {
            let ghost start = v@;
            push_str(v, "Nil(Nil { pos: ");
            push_position_debug(v, n.pos);
            push_str(v, " })");
            assert(v@ =~= start + sexp_debug(sexp@));
        },
        SExp::List(l) => push_list_debug(v, l),
    }
}

fn push_list_debug(v: &mut Vec<char>, list: &List)
    ensures
        final(v)@ == old(v)@ + sexp_debug(SExpV::List(list@, list.pos)),
    decreases list, 0int,
{
    proof {
        reveal(sexp_debug);
    }
    let ghost start = v@;
    let ghost es = list@;
    proof {
        crate::sexp::parser::lemma_seq_view_len(list.elements@);
    }
    push_str(v, "List(List { elements: [");
    let ghost mid = v@;
    let n = list.elements.len();
    let mut i: usize = 0;
    assert(es.subrange(0, 0) =~= Seq::<SExpV>::empty());
    while i < n
        invariant
            n == list.elements@.len(),
            es == list@,
            es.len() == n,
            i <= n,
            v@ == mid + items_debug(es.subrange(0, i as int)),
        decreases n - i,
    {
        if i > 0 {
            push_str(v, ", ");
        }
        proof {
            crate::sexp::printer::lemma_seq_view_index(list.elements@, i as int);
            assert(decreases_to!(list => list.elements@[i as int]));
        }
        push_sexp_debug(v, &list.elements[i]);
        proof {
            let pre = es.subrange(0, i as int);
            let post = es.subrange(0, i + 1);
            assert(post.subrange(0, i as int) =~= pre);
            assert(post[i as int] == es[i as int]);
            reveal(sexp_debug);
            assert(list.elements@[i as int]@ == es[i as int]);
            if i == 0 {
                assert(items_debug(post) == sexp_debug(post[0]));
                assert(v@ =~= mid + items_debug(post));
            } else {
                assert(items_debug(post) == items_debug(pre) + ", "@ + sexp_debug(post[i as int]));
                assert(v@ =~= mid + items_debug(post));
            }
        }
        i = i + 1;
    }
    assert(es.subrange(0, n as int) =~= es);
    push_str(v, "], pos: ");
    push_position_debug(v, list.pos);
    push_str(v, " })");
    assert(v@ =~= start + sexp_debug(SExpV::List(list@, list.pos)));
}

/// The debug text of an S-expression (what `{:?}` writes for it).
pub(crate) fn debug_text(sexp: &SExp) -> (s: String)
    ensures
        s@ == sexp_debug(sexp@),
{
    let mut v: Vec<char> = Vec::new();
    push_sexp_debug(&mut v, sexp);
    assert(v@ =~= sexp_debug(sexp@));
    string_from_chars(v.as_slice())
}

/// A new string holding the characters of `s`.
pub fn owned(s: &str) -> (r: String)
    ensures
        r@ == s@,
{
    s.to_owned()
}

pub open spec fn expected_err(expected: Seq<char>, found: Seq<char>, pos: Position) -> ParseErrorV {
    ParseErrorV::Expected { expected, found, pos }
}

/// The error for an expression that is not of the expected kind.
pub open spec fn wrong_kind(expected: Seq<char>, e: SExpV) -> ParseErrorV {
    expected_err(expected, sexp_debug(e), e.pos())
}

/// Extract a symbol from an S-expression.
pub fn expect_symbol(sexp: &SExp) -> (r: Result<&Symbol, ParseError>)
    ensures
        match r {
            Ok(s) => sexp@ == SExpV::Symbol(s.value@, s.pos),
            Err(e) => !(sexp@ is Symbol) && e@ == wrong_kind("symbol"@, sexp@),
        },
{
    match sexp {
        SExp::Symbol(s) => Ok(s),
        _ => Err(
            ParseError::Expected {
                expected: owned("symbol"),
                found: debug_text(sexp),
                pos: sexp.position(),
            },
        ),
    }
}

/// Extract a keyword from an S-expression.
pub fn expect_keyword(sexp: &SExp) -> (r: Result<&Keyword, ParseError>)
    ensures
        match r {
            Ok(k) => sexp@ == SExpV::Keyword(k.name@, k.pos),
            Err(e) => !(sexp@ is Keyword) && e@ == wrong_kind("keyword"@, sexp@),
        },
{
    match sexp {
        SExp::Keyword(k) => Ok(k),
        _ => Err(
            ParseError::Expected {
                expected: owned("keyword"),
                found: debug_text(sexp),
                pos: sexp.position(),
            },
        ),
    }
}

/// Extract a string from an S-expression.
pub fn expect_string(sexp: &SExp) -> (r: Result<String, ParseError>)
    ensures
        match r {
            Ok(s) => sexp@ matches SExpV::Str(v, _) && s@ == v,
            Err(e) => !(sexp@ is Str) && e@ == wrong_kind("string"@, sexp@),
        },
{
    match sexp {
        SExp::String(s) => Ok(s.value.clone()),
        _ => Err(
            ParseError::Expected {
                expected: owned("string"),
                found: debug_text(sexp),
                pos: sexp.position(),
            },
        ),
    }
}

/// Decimal value of a run of ASCII digits.
pub open spec fn digits_value(s: Seq<char>) -> int
    decreases s.len(),
{
    if s.len() == 0 {
        0
    } else {
        digits_value(s.drop_last()) * 10 + ((s.last() as u32) as int - 48)
    }
}

pub open spec fn all_digits(s: Seq<char>) -> bool {
    forall|i: int| 0 <= i < s.len() ==> is_ascii_digit(#[trigger] s[i])
}

/// What `str::parse::<i128>` accepts: an optional `+` or `-` followed by one or more ASCII
/// digits whose value fits in an `i128`.
pub open spec fn parse_i128_spec(s: Seq<char>) -> Option<i128> {
    let neg = s.len() > 0 && s[0] == '-';
    let signed = s.len() > 0 && (s[0] == '-' || s[0] == '+');
    let ds = if signed {
        s.drop_first()
    } else {
        s
    };
    if ds.len() == 0 || !all_digits(ds) {
        None
    } else {
        let v = if neg {
            -digits_value(ds)
        } else {
            digits_value(ds)
        };
        if i128::MIN <= v <= i128::MAX {
            Some(v as i128)
        } else {
            None
        }
    }
}

proof fn lemma_digits_value_prefix(s: Seq<char>, k: int)
    requires
        0 <= k <= s.len(),
        all_digits(s),
    ensures
        0 <= digits_value(s.take(k)) <= digits_value(s),
    decreases s.len() - k,
{
    if k < s.len() {
        lemma_digits_value_prefix(s, k + 1);
        assert(s.take(k + 1).drop_last() =~= s.take(k));
        assert(is_ascii_digit(s[k]));
        assert(all_digits(s.take(k)));
        lemma_digits_value_nonneg(s.take(k));
    } else {
        assert(s.take(k) =~= s);
        lemma_digits_value_nonneg(s);
    }
}

proof fn lemma_digits_value_nonneg(s: Seq<char>)
    requires
        all_digits(s),
    ensures
        0 <= digits_value(s),
    decreases s.len(),
{
    if s.len() > 0 {
        assert(all_digits(s.drop_last()));
        lemma_digits_value_nonneg(s.drop_last());
        assert(is_ascii_digit(s[s.len() - 1]));
    }
}

/// `str::parse::<i128>`, written out: an optional sign and decimal digits.
pub fn parse_i128(s: &str) -> (r: Option<i128>)
    ensures
        r == parse_i128_spec(s@),
{
    let cs = chars_of(s);
    let n = cs.len();
    let neg = n > 0 && cs[0] == '-';
    let signed = n > 0 && (cs[0] == '-' || cs[0] == '+');
    let start: usize = if signed {
        1
    } else {
        0
    };
    let ghost ds = if signed {
        s@.drop_first()
    } else {
        s@
    };
    assert(ds =~= cs@.subrange(start as int, n as int));
    if start >= n {
        return None;
    }
    let mut i = start;
    while i < n
        invariant
            start <= i <= n,
            n == cs@.len(),
            cs@ == s@,
            neg == (s@.len() > 0 && s@[0] == '-'),
            signed == (s@.len() > 0 && (s@[0] == '-' || s@[0] == '+')),
            ds == (if signed {
                s@.drop_first()
            } else {
                s@
            }),
            ds == cs@.subrange(start as int, n as int),
            forall|k: int| start <= k < i ==> is_ascii_digit(#[trigger] cs@[k]),
        decreases n - i,
    {
        if !is_digit(cs[i]) {
            proof {
                assert(ds[i - start] == cs@[i as int]);
                assert(!is_ascii_digit(ds[i - start]));
                assert(!all_digits(ds));
            }
            return None;
        }
        i = i + 1;
    }
    assert(all_digits(ds)) by {
        assert forall|k: int| 0 <= k < ds.len() implies is_ascii_digit(#[trigger] ds[k]) by {
            assert(ds[k] == cs@[start + k]);
        }
    }
    let mut acc: i128 = 0;
    let mut j = start;
    while j < n
        invariant
            start <= j <= n,
            n == cs@.len(),
            cs@ == s@,
            neg == (s@.len() > 0 && s@[0] == '-'),
            signed == (s@.len() > 0 && (s@[0] == '-' || s@[0] == '+')),
            ds == (if signed {
                s@.drop_first()
            } else {
                s@
            }),
            ds == cs@.subrange(start as int, n as int),
            all_digits(ds),
            acc == (if neg {
                -digits_value(ds.take(j - start))
            } else {
                digits_value(ds.take(j - start))
            }),
        decreases n - j,
    {
        let ghost k = j - start;
        assert(ds[k] == cs@[j as int]);
        assert(is_ascii_digit(ds[k]));
        let d = (cs[j] as u32 - 48) as i128;
        assert(ds.take(k + 1).drop_last() =~= ds.take(k));
        let next = if neg {
            match acc.checked_mul(10) {
                Some(m) => m.checked_sub(d),
                None => None,
            }
        } else {
            match acc.checked_mul(10) {
                Some(m) => m.checked_add(d),
                None => None,
            }
        };
        match next {
            Some(v) => {
                acc = v;
            },
            None => {
                proof {
                    lemma_digits_value_prefix(ds, k + 1);
                    lemma_digits_value_prefix(ds, k);
                    let dk = digits_value(ds.take(k));
                    let dk1 = digits_value(ds.take(k + 1));
                    assert(ds.take(k + 1).last() == ds[k]);
                    assert(dk1 == dk * 10 + d);
                    if neg {
                        assert(-dk1 < i128::MIN);
                    } else {
                        assert(dk1 > i128::MAX);
                    }
                }
                return None;
            },
        }
        j = j + 1;
    }
    assert(ds.take(n - start) =~= ds);
    Some(acc)
}

/// Extract a number from an S-expression.
pub fn expect_number(sexp: &SExp) -> (r: Result<i128, ParseError>)
    ensures
        match sexp@ {
            SExpV::Number(v, p) => match parse_i128_spec(v) {
                Some(n) => r == Ok::<i128, ParseError>(n),
                None => r matches Err(e) && e@ == expected_err("valid number"@, v, p),
            },
            _ => r matches Err(e) && e@ == wrong_kind("number"@, sexp@),
        },
{
    match sexp {
        SExp::Number(n) => match parse_i128(n.value.as_str()) {
            Some(v) => Ok(v),
            None => Err(
                ParseError::Expected {
                    expected: owned("valid number"),
                    found: n.value.clone(),
                    pos: n.pos,
                },
            ),
        },
        _ => Err(
            ParseError::Expected {
                expected: owned("number"),
                found: debug_text(sexp),
                pos: sexp.position(),
            },
        ),
    }
}

/// Extract a list from an S-expression.
pub fn expect_list(sexp: &SExp) -> (r: Result<&List, ParseError>)
    ensures
        match r {
            Ok(l) => sexp@ == SExpV::List(l@, l.pos),
            Err(e) => !(sexp@ is List) && e@ == wrong_kind("list"@, sexp@),
        },
{
    match sexp {
        SExp::List(l) => Ok(l),
        _ => Err(
            ParseError::Expected {
                expected: owned("list"),
                found: debug_text(sexp),
                pos: sexp.position(),
            },
        ),
    }
}

/// Check if an S-expression is nil.
pub fn is_nil(sexp: &SExp) -> (b: bool)
    ensures
        b == (sexp@ is Nil),
{
    match sexp {
        SExp::Nil(_) => true,
        _ => false,
    }
}

// ---------------------------------------------------------------------------
// Keyword arguments
// ---------------------------------------------------------------------------

/// The value bound to keyword `k`: the last pair with that keyword wins.
pub open spec fn kw_lookup(ps: Seq<(Seq<char>, SExpV)>, k: Seq<char>) -> Option<SExpV>
    decreases ps.len(),
{
    if ps.len() == 0 {
        None
    } else if ps.last().0 == k {
        Some(ps.last().1)
    } else {
        kw_lookup(ps.drop_last(), k)
    }
}

/// The keyword/value pairs of a node's elements from index `i` on.
pub open spec fn kwargs_from(es: Seq<SExpV>, i: int, pos: Position) -> Result<
    Seq<(Seq<char>, SExpV)>,
    ParseErrorV,
>
    decreases es.len() - i,
{
    if i < 0 || i >= es.len() {
        Ok(Seq::empty())
    } else if i + 1 >= es.len() {
        Err(expected_err("value after keyword"@, "end of list"@, pos))
    } else {
        match es[i] {
            SExpV::Keyword(n, _) => match kwargs_from(es, i + 2, pos) {
                Ok(rest) => Ok(seq![(n, es[i + 1])] + rest),
                Err(e) => Err(e),
            },
            _ => Err(wrong_kind("keyword"@, es[i])),
        }
    }
}

/// The keyword arguments of a node `(Head :k1 v1 :k2 v2 ...)`.
pub open spec fn kwargs_spec(es: Seq<SExpV>, pos: Position) -> Result<
    Seq<(Seq<char>, SExpV)>,
    ParseErrorV,
> {
    kwargs_from(es, 1, pos)
}

/// Whether the elements from `i` on come in keyword/value pairs: an even number of them,
/// each pair opening with a keyword.
pub open spec fn kw_paired_from(es: Seq<SExpV>, i: int) -> bool {
    i >= es.len() || ((es.len() - i) % 2 == 0 && forall|k: int|
        0 <= k < (es.len() - i) / 2 ==> #[trigger] es[i + 2 * k] is Keyword)
}

proof fn lemma_kwargs_from(es: Seq<SExpV>, i: int, pos: Position)
    requires
        0 <= i,
    ensures
        (kwargs_from(es, i, pos) is Ok) <==> kw_paired_from(es, i),
        kwargs_from(es, i, pos) is Ok && i < es.len() ==> kwargs_from(es, i, pos)->Ok_0.len() == (es.len()
            - i) / 2,
        kwargs_from(es, i, pos) is Ok && i < es.len() ==> forall|k: int|
            0 <= k < (es.len() - i) / 2 ==> es[i + 2 * k] == SExpV::Keyword(
                #[trigger] kwargs_from(es, i, pos)->Ok_0[k].0,
                es[i + 2 * k]->Keyword_1,
            ) && kwargs_from(es, i, pos)->Ok_0[k].1 == es[i + 2 * k + 1],
    decreases es.len() - i,
{
    if i >= es.len() {
    } else if i + 1 >= es.len() {
        assert((es.len() - i) % 2 == 1);
    } else {
        lemma_kwargs_from(es, i + 2, pos);
        let m = es.len() - i;
        if es[i] is Keyword {
            if kw_paired_from(es, i + 2) {
                assert forall|k: int| 0 <= k < m / 2 implies #[trigger] es[i + 2 * k] is Keyword by {
                    if k > 0 {
                        assert(es[i + 2 + 2 * (k - 1)] is Keyword);
                        assert(i + 2 + 2 * (k - 1) == i + 2 * k);
                    }
                }
            }
            if kw_paired_from(es, i) {
                assert forall|k: int| 0 <= k < (es.len() - (i + 2)) / 2 implies #[trigger] es[i + 2 + 2 * k] is Keyword by {
                    assert(es[i + 2 * (k + 1)] is Keyword);
                    assert(i + 2 * (k + 1) == i + 2 + 2 * k);
                }
            }
            if kwargs_from(es, i, pos) is Ok {
                let rest = kwargs_from(es, i + 2, pos)->Ok_0;
                let all = kwargs_from(es, i, pos)->Ok_0;
                assert forall|k: int| 0 <= k < m / 2 implies es[i + 2 * k] == SExpV::Keyword(
                    #[trigger] all[k].0,
                    es[i + 2 * k]->Keyword_1,
                ) && all[k].1 == es[i + 2 * k + 1] by {
                    if k > 0 {
                        assert(all[k] == rest[k - 1]);
                        assert(i + 2 + 2 * (k - 1) == i + 2 * k);
                    }
                }
            }
        } else {
            assert(es[i + 2 * 0] is Keyword ==> false);
        }
    }
}

/// The keyword arguments of a node read exactly when the elements after its head come in
/// keyword/value pairs; then there is one pair per keyword, in order, each with the
/// keyword's name and the element that follows it.
pub proof fn lemma_kwargs_shape(es: Seq<SExpV>, pos: Position)
    ensures
        (kwargs_spec(es, pos) is Ok) <==> kw_paired_from(es, 1),
        kwargs_spec(es, pos) is Ok && es.len() > 1 ==> kwargs_spec(es, pos)->Ok_0.len() == (es.len() - 1)
            / 2,
        kwargs_spec(es, pos) is Ok && es.len() > 1 ==> forall|k: int|
            0 <= k < (es.len() - 1) / 2 ==> es[1 + 2 * k] == SExpV::Keyword(
                #[trigger] kwargs_spec(es, pos)->Ok_0[k].0,
                es[1 + 2 * k]->Keyword_1,
            ) && kwargs_spec(es, pos)->Ok_0[k].1 == es[1 + 2 * k + 1],
{
    lemma_kwargs_from(es, 1, pos);
}

/// The keywords of pairs, in order.
pub open spec fn kw_keys(ps: Seq<(Seq<char>, SExpV)>) -> Seq<Seq<char>> {
    ps.map_values(|p: (Seq<char>, SExpV)| p.0)
}

/// The index of the last pair keyed `k`.
pub open spec fn kw_index(ps: Seq<(Seq<char>, SExpV)>, k: Seq<char>) -> Option<int>
    decreases ps.len(),
{
    if ps.len() == 0 {
        None
    } else if ps.last().0 == k {
        Some(ps.len() - 1)
    } else {
        kw_index(ps.drop_last(), k)
    }
}

/// `ps` with `(k, v)` written in: the pair keyed `k` takes the value `v` where it stands,
/// and without one the pair is added at the end.
pub open spec fn kw_insert(ps: Seq<(Seq<char>, SExpV)>, k: Seq<char>, v: SExpV) -> Seq<
    (Seq<char>, SExpV),
> {
    match kw_index(ps, k) {
        Some(i) => ps.update(i, (k, v)),
        None => ps.push((k, v)),
    }
}

/// The pairs `ps` as a table keyed by keyword: each keyword once, in the order it first
/// came, with the value it was given last.
pub open spec fn kw_table(ps: Seq<(Seq<char>, SExpV)>) -> Seq<(Seq<char>, SExpV)>
    decreases ps.len(),
{
    if ps.len() == 0 {
        ps
    } else {
        kw_insert(kw_table(ps.drop_last()), ps.last().0, ps.last().1)
    }
}

proof fn lemma_kw_index(ps: Seq<(Seq<char>, SExpV)>, k: Seq<char>)
    ensures
        match kw_index(ps, k) {
            Some(i) => 0 <= i < ps.len() && ps[i].0 == k && forall|j: int| i < j < ps.len() ==> ps[j].0 != k,
            None => forall|j: int| 0 <= j < ps.len() ==> ps[j].0 != k,
        },
        kw_lookup(ps, k) == match kw_index(ps, k) {
            Some(i) => Some(ps[i].1),
            None => None,
        },
    decreases ps.len(),
{
    if ps.len() > 0 && ps.last().0 != k {
        let u = ps.drop_last();
        lemma_kw_index(u, k);
        assert forall|j: int| 0 <= j < u.len() implies u[j] == ps[j] by {}
        assert(ps[ps.len() - 1].0 != k);
    }
}

proof fn lemma_keys_push_set(s: Seq<Seq<char>>, x: Seq<char>)
    ensures
        s.push(x).to_set() == s.to_set().insert(x),
{
    let p = s.push(x);
    assert forall|a: Seq<char>| p.to_set().contains(a) <==> s.to_set().insert(x).contains(a) by {
        if p.contains(a) {
            let i = choose|i: int| 0 <= i < p.len() && p[i] == a;
            if i < s.len() {
                assert(s[i] == a);
            }
        }
        if s.contains(a) {
            let i = choose|i: int| 0 <= i < s.len() && s[i] == a;
            assert(p[i] == a);
        }
        if a == x {
            assert(p[s.len() as int] == x);
        }
    }
    assert(p.to_set() =~= s.to_set().insert(x));
}

/// Two sequences of pairs with the same keywords find each keyword at the same index.
proof fn lemma_kw_index_keys(a: Seq<(Seq<char>, SExpV)>, b: Seq<(Seq<char>, SExpV)>, k: Seq<char>)
    requires
        a.len() == b.len(),
        forall|i: int| 0 <= i < a.len() ==> a[i].0 == b[i].0,
    ensures
        kw_index(a, k) == kw_index(b, k),
    decreases a.len(),
{
    if a.len() > 0 {
        lemma_kw_index_keys(a.drop_last(), b.drop_last(), k);
    }
}

proof fn lemma_kw_insert(t: Seq<(Seq<char>, SExpV)>, k: Seq<char>, v: SExpV)
    requires
        kw_keys(t).no_duplicates(),
    ensures
        kw_keys(kw_insert(t, k, v)).no_duplicates(),
        kw_keys(kw_insert(t, k, v)).to_set() == kw_keys(t).to_set().insert(k),
        forall|j: Seq<char>|
            #[trigger] kw_lookup(kw_insert(t, k, v), j) == if j == k {
                Some(v)
            } else {
                kw_lookup(t, j)
            },
{
    let r = kw_insert(t, k, v);
    lemma_kw_index(t, k);
    match kw_index(t, k) {
        Some(i) => {
            assert(kw_keys(r) =~= kw_keys(t));
            assert(kw_keys(t)[i] == k);
            assert(kw_keys(t).to_set() =~= kw_keys(t).to_set().insert(k));
            assert forall|j: Seq<char>| #[trigger] kw_lookup(r, j) == if j == k {
                Some(v)
            } else {
                kw_lookup(t, j)
            } by {
                lemma_kw_index(t, j);
                lemma_kw_index(r, j);
                lemma_kw_index_keys(r, t, j);
                if j != k {
                    if let Some(x) = kw_index(t, j) {
                        assert(x != i);
                    }
                }
            }
        },
        None => {
            assert(kw_keys(r) =~= kw_keys(t).push(k));
            lemma_keys_push_set(kw_keys(t), k);
            assert forall|a: int, b: int| 0 <= a < b < kw_keys(r).len() implies kw_keys(r)[a] != kw_keys(r)[b] by {
                if b == t.len() {
                    assert(t[a].0 != k);
                } else {
                    assert(kw_keys(t)[a] != kw_keys(t)[b]);
                }
            }
            assert forall|j: Seq<char>| #[trigger] kw_lookup(r, j) == if j == k {
                Some(v)
            } else {
                kw_lookup(t, j)
            } by {
                assert(r.drop_last() =~= t);
            }
        },
    }
}

/// Reading pairs into a table keyed by keyword keeps each keyword once, holds exactly the
/// keywords of the pairs (so its length is the number of distinct keywords), and gives
/// each keyword the value it was given last.
pub proof fn lemma_kw_table(ps: Seq<(Seq<char>, SExpV)>)
    ensures
        kw_keys(kw_table(ps)).no_duplicates(),
        kw_keys(kw_table(ps)).to_set() == kw_keys(ps).to_set(),
        kw_table(ps).len() == kw_keys(ps).to_set().len(),
        forall|k: Seq<char>| #[trigger] kw_lookup(kw_table(ps), k) == kw_lookup(ps, k),
    decreases ps.len(),
{
    if ps.len() > 0 {
        let u = ps.drop_last();
        lemma_kw_table(u);
        lemma_kw_insert(kw_table(u), ps.last().0, ps.last().1);
        assert(kw_keys(ps) =~= kw_keys(u).push(ps.last().0));
        lemma_keys_push_set(kw_keys(u), ps.last().0);
        assert forall|k: Seq<char>| #[trigger] kw_lookup(kw_table(ps), k) == kw_lookup(ps, k) by {
            assert(kw_lookup(kw_table(u), k) == kw_lookup(u, k));
        }
    } else {
        assert(kw_keys(ps).to_set() =~= Set::<Seq<char>>::empty());
        assert(kw_keys(kw_table(ps)).to_set() =~= Set::<Seq<char>>::empty());
    }
    let t = kw_table(ps);
    kw_keys(t).unique_seq_to_set();
    assert(kw_keys(t).len() == t.len());
}

/// Keyword arguments of a node, keyed by keyword name: a repeated keyword holds the value
/// it was given last.
pub struct KwArgs<'a> {
    entries: Vec<(String, &'a SExp)>,
    written: Ghost<Seq<(Seq<char>, SExpV)>>,
}

/// The entries of a table, as plain values.
pub open spec fn entry_views<'a>(es: Seq<(String, &'a SExp)>) -> Seq<(Seq<char>, SExpV)> {
    es.map_values(|p: (String, &'a SExp)| (p.0@, p.1@))
}

impl<'a> View for KwArgs<'a> {
    type V = Seq<(Seq<char>, SExpV)>;

    /// The keyword/value pairs as the node wrote them.
    closed spec fn view(&self) -> Seq<(Seq<char>, SExpV)> {
        self.written@
    }
}

impl<'a> KwArgs<'a> {
    #[verifier::type_invariant]
    closed spec fn kw_args_inv(self) -> bool {
        entry_views(self.entries@) == kw_table(self.written@)
    }

    /// The value bound to `key`: the last one the node gave it.
    pub fn get(&self, key: &str) -> (r: Option<&'a SExp>)
        ensures
            match r {
                Some(e) => kw_lookup(self@, key@) == Some(e@),
                None => kw_lookup(self@, key@) is None,
            },
    {
        proof {
            use_type_invariant(self);
            lemma_kw_table(self@);
        }
        let ghost t = entry_views(self.entries@);
        let k = chars_of(key);
        let mut i = self.entries.len();
        assert(t.take(i as int) =~= t);
        while i > 0
            invariant
                i <= self.entries@.len(),
                t == entry_views(self.entries@),
                k@ == key@,
                kw_lookup(t, key@) == kw_lookup(self@, key@),
                kw_lookup(t, key@) == kw_lookup(t.take(i as int), key@),
            decreases i,
        {
            let ghost pre = t.take(i as int);
            assert(pre.last() == (self.entries@[i - 1].0@, self.entries@[i - 1].1@));
            assert(pre.drop_last() =~= t.take(i - 1));
            let name = chars_of(self.entries[i - 1].0.as_str());
            if crate::text::chars_equal(name.as_slice(), k.as_slice()) {
                return Some(self.entries[i - 1].1);
            }
            i = i - 1;
        }
        None
    }

    /// Number of distinct keywords.
    pub fn len(&self) -> (n: usize)
        ensures
            n == kw_keys(self@).to_set().len(),
            n == kw_table(self@).len(),
    {
        proof {
            use_type_invariant(self);
            lemma_kw_table(self@);
        }
        self.entries.len()
    }
}

/// Writes `(name, value)` into a table with distinct keywords.
fn put_entry<'a>(entries: &mut Vec<(String, &'a SExp)>, name: String, value: &'a SExp)
    ensures
        entry_views(final(entries)@) == kw_insert(entry_views(old(entries)@), name@, value@),
{
    let ghost t = entry_views(entries@);
    let ghost nv = name@;
    let key = chars_of(name.as_str());
    let mut i = entries.len();
    assert(t.take(i as int) =~= t);
    while i > 0
        invariant
            i <= entries@.len(),
            t == entry_views(entries@),
            t == entry_views(old(entries)@),
            key@ == nv,
            nv == name@,
            kw_index(t, nv) == kw_index(t.take(i as int), nv),
        decreases i,
    {
        let ghost pre = t.take(i as int);
        assert(pre.last() == (entries@[i - 1].0@, entries@[i - 1].1@));
        assert(pre.drop_last() =~= t.take(i - 1));
        let cur = chars_of(entries[i - 1].0.as_str());
        if crate::text::chars_equal(cur.as_slice(), key.as_slice()) {
            assert(kw_index(t, nv) == Some(i - 1));
            entries.set(i - 1, (name, value));
            assert(entry_views(entries@) =~= t.update(i - 1, (nv, value@)));
            return;
        }
        i = i - 1;
    }
    assert(t.take(0) =~= Seq::<(Seq<char>, SExpV)>::empty());
    entries.push((name, value));
    assert(entry_views(entries@) =~= t.push((nv, value@)));
}

pub open spec fn kw_prepend(
    acc: Seq<(Seq<char>, SExpV)>,
    r: Result<Seq<(Seq<char>, SExpV)>, ParseErrorV>,
) -> Result<Seq<(Seq<char>, SExpV)>, ParseErrorV> {
    match r {
        Ok(ps) => Ok(acc + ps),
        Err(e) => Err(e),
    }
}

/// Parse keyword-value pairs from a list, skipping its first element (the node type).
pub fn parse_kwargs<'a>(list: &'a List) -> (r: Result<KwArgs<'a>, ParseError>)
    ensures
        match r {
            Ok(kw) => kwargs_spec(list@, list.pos) == Ok::<
                Seq<(Seq<char>, SExpV)>,
                ParseErrorV,
            >(kw@),
            Err(e) => kwargs_spec(list@, list.pos) == Err::<Seq<(Seq<char>, SExpV)>, ParseErrorV>(
                e@,
            ),
        },
{
    let mut entries: Vec<(String, &'a SExp)> = Vec::new();
    let ghost mut written: Seq<(Seq<char>, SExpV)> = Seq::empty();
    let mut i: usize = 1;
    let n = list.elements.len();
    let ghost es = list@;
    proof {
        crate::sexp::parser::lemma_seq_view_len(list.elements@);
        assert(entry_views(entries@) =~= kw_table(written));
    }
    while i < n
        invariant
            n == list.elements@.len(),
            es == list@,
            es.len() == n,
            1 <= i,
            entry_views(entries@) == kw_table(written),
            kwargs_spec(es, list.pos) == kw_prepend(written, kwargs_from(es, i as int, list.pos)),
        decreases n - i,
    {
        if i + 1 >= n {
            return Err(
                ParseError::Expected {
                    expected: owned("value after keyword"),
                    found: owned("end of list"),
                    pos: list.pos,
                },
            );
        }
        proof {
            crate::sexp::printer::lemma_seq_view_index(list.elements@, i as int);
            crate::sexp::printer::lemma_seq_view_index(list.elements@, i + 1);
        }
        let key = match expect_keyword(&list.elements[i]) {
            Ok(k) => k,
            Err(e) => {
                return Err(e);
            },
        };
        let value = &list.elements[i + 1];
        let ghost before = written;
        put_entry(&mut entries, key.name.clone(), value);
        proof {
            written = before.push((key.name@, es[i + 1]));
            assert(written.drop_last() =~= before);
            if let Ok(rest) = kwargs_from(es, i + 2, list.pos) {
                assert(before + (seq![(key.name@, es[i + 1])] + rest) =~= written + rest);
            }
        }
        i = i + 2;
    }
    proof {
        assert(written + Seq::empty() =~= written);
    }
    Ok(KwArgs { entries, written: Ghost(written) })
}

} // verus!
