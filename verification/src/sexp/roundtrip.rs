//! Printing then parsing gives back the same S-expression, positions aside.

use vstd::prelude::*;
use crate::error::Position;
use crate::sexp::lexer::{
    lemma_digits_end_bounds, lemma_next_token_advances, lemma_skip_ws_bounds,
    lemma_symbol_end_bounds, digits_end, escape_value, is_symbol_char_spec, is_symbol_start_char, next_token_at,
    scan_string, skip_ws, starts_number, symbol_end, tokenize_from, tokenize_spec, TokenType,
    TokenV,
};
use crate::sexp::parser::{parse_expr_at, parse_list_at, parse_str_spec};
use crate::sexp::printer::{escape_char, escape_spec, join_lines, join_spaced, print_spec, spaces};
use crate::sexp::types::SExpV;
use crate::text::{is_ascii_digit, is_whitespace};

verus! {

// ---------------------------------------------------------------------------
// What is compared, and what can be printed
// ---------------------------------------------------------------------------

/// The position every erased node carries.
pub open spec fn no_pos() -> Position {
    Position { offset: 0, line: 0, column: 0 }
}

/// An expression with every position replaced by the same one.
pub open spec fn erase(e: SExpV) -> SExpV
    decreases e,
{
    match e {
        SExpV::Symbol(v, _) => SExpV::Symbol(v, no_pos()),
        SExpV::Keyword(n, _) => SExpV::Keyword(n, no_pos()),
        SExpV::Str(v, _) => SExpV::Str(v, no_pos()),
        SExpV::Number(v, _) => SExpV::Number(v, no_pos()),
        SExpV::Nil(_) => SExpV::Nil(no_pos()),
        SExpV::List(es, _) => SExpV::List(erase_all(es), no_pos()),
    }
}

/// Each expression of a sequence erased.
pub open spec fn erase_all(es: Seq<SExpV>) -> Seq<SExpV>
    decreases es,
{
    if es.len() == 0 {
        Seq::empty()
    } else {
        erase_all(es.subrange(0, es.len() - 1)).push(erase(es[es.len() - 1]))
    }
}

/// Whether a symbol reads back as itself: it starts like a symbol and not like a number,
/// continues with symbol characters, and is not the word `nil`.
pub open spec fn symbol_text_ok(v: Seq<char>) -> bool {
    &&& v.len() > 0
    &&& is_symbol_start_char(v[0])
    &&& !is_whitespace(v[0])
    &&& !(v[0] == '-' && v.len() > 1 && is_ascii_digit(v[1]))
    &&& forall|k: int| 1 <= k < v.len() ==> is_symbol_char_spec(#[trigger] v[k])
    &&& v != seq!['n', 'i', 'l']
}

/// Whether a keyword name reads back as itself: symbol characters only.
pub open spec fn keyword_text_ok(n: Seq<char>) -> bool {
    forall|k: int| 0 <= k < n.len() ==> is_symbol_char_spec(#[trigger] n[k])
}

/// Whether number text reads back as itself: an optional minus sign and decimal digits.
pub open spec fn number_text_ok(v: Seq<char>) -> bool {
    number_digits(v).len() > 0 && forall|k: int|
        0 <= k < number_digits(v).len() ==> is_ascii_digit(#[trigger] number_digits(v)[k])
}

/// The digits of number text, after its minus sign if it has one.
pub open spec fn number_digits(v: Seq<char>) -> Seq<char> {
    if v.len() > 0 && v[0] == '-' {
        v.drop_first()
    } else {
        v
    }
}

/// Whether an expression prints as text that reads back as the same expression.
pub open spec fn printable(e: SExpV) -> bool
    decreases e,
{
    match e {
        SExpV::Symbol(v, _) => symbol_text_ok(v),
        SExpV::Keyword(n, _) => keyword_text_ok(n),
        SExpV::Str(_, _) => true,
        SExpV::Number(v, _) => number_text_ok(v),
        SExpV::Nil(_) => true,
        SExpV::List(es, _) => all_printable(es),
    }
}

pub open spec fn all_printable(es: Seq<SExpV>) -> bool
    decreases es,
{
    if es.len() == 0 {
        true
    } else {
        all_printable(es.subrange(0, es.len() - 1)) && printable(es[es.len() - 1])
    }
}

// ---------------------------------------------------------------------------
// Tokens without positions
// ---------------------------------------------------------------------------

/// A token's kind and text.
pub type Tok = (TokenType, Seq<char>);

/// The tokens an expression prints as.
pub open spec fn expr_tokens(e: SExpV) -> Seq<Tok>
    decreases e,
{
    match e {
        SExpV::Symbol(v, _) => seq![(TokenType::Symbol, v)],
        SExpV::Keyword(n, _) => seq![(TokenType::Keyword, n)],
        SExpV::Str(v, _) => seq![(TokenType::String, v)],
        SExpV::Number(v, _) => seq![(TokenType::Number, v)],
        SExpV::Nil(_) => seq![(TokenType::Nil, seq!['n', 'i', 'l'])],
        SExpV::List(es, _) => seq![(TokenType::LParen, seq!['('])] + all_tokens(es) + seq![
            (TokenType::RParen, seq![')']),
        ],
    }
}

/// The tokens of a sequence of expressions, one after the other.
pub open spec fn all_tokens(es: Seq<SExpV>) -> Seq<Tok>
    decreases es,
{
    if es.len() == 0 {
        Seq::empty()
    } else {
        all_tokens(es.subrange(0, es.len() - 1)) + expr_tokens(es[es.len() - 1])
    }
}

pub open spec fn strip_tokens(ts: Seq<TokenV>) -> Seq<Tok> {
    ts.map_values(|t: TokenV| (t.typ, t.lexeme))
}

/// The tokens of a lexing result, without positions; `None` for a lexing error.
pub open spec fn stripped(r: Result<Seq<TokenV>, crate::error::LexError>) -> Option<Seq<Tok>> {
    match r {
        Ok(ts) => Some(strip_tokens(ts)),
        Err(_) => None,
    }
}

pub open spec fn opt_prepend(a: Seq<Tok>, o: Option<Seq<Tok>>) -> Option<Seq<Tok>> {
    match o {
        Some(b) => Some(a + b),
        None => None,
    }
}

/// Whether the text after a token cannot continue it.
pub open spec fn delimited(inp: Seq<char>, k: int) -> bool {
    k == inp.len() || inp[k] == ' ' || inp[k] == '\n' || inp[k] == ')'
}

// ---------------------------------------------------------------------------
// The lexer on printed text
// ---------------------------------------------------------------------------

proof fn lemma_symbol_end_run(inp: Seq<char>, a: int, b: int)
    requires
        0 <= a <= b <= inp.len(),
        forall|k: int| a <= k < b ==> is_symbol_char_spec(#[trigger] inp[k]),
        b == inp.len() || !is_symbol_char_spec(inp[b]),
    ensures
        symbol_end(inp, a) == b,
    decreases b - a,
{
    if a < b {
        lemma_symbol_end_run(inp, a + 1, b);
    }
}

proof fn lemma_digits_end_run(inp: Seq<char>, a: int, b: int)
    requires
        0 <= a <= b <= inp.len(),
        forall|k: int| a <= k < b ==> is_ascii_digit(#[trigger] inp[k]),
        b == inp.len() || !is_ascii_digit(inp[b]),
    ensures
        digits_end(inp, a) == b,
    decreases b - a,
{
    if a < b {
        lemma_digits_end_run(inp, a + 1, b);
    }
}

/// Escaping works character by character from the front too.
proof fn lemma_escape_front(v: Seq<char>)
    requires
        v.len() > 0,
    ensures
        escape_spec(v) == escape_char(v[0]) + escape_spec(v.drop_first()),
    decreases v.len(),
{
    if v.len() == 1 {
        assert(v.drop_first() =~= Seq::<char>::empty());
        assert(v.subrange(0, 0) =~= Seq::<char>::empty());
        assert(escape_spec(v) =~= escape_spec(v.drop_last()) + escape_char(v.last()));
        assert(v.drop_last() =~= Seq::<char>::empty());
    } else {
        lemma_escape_front(v.drop_last());
        assert(v.drop_last().drop_first() =~= v.drop_first().drop_last());
        assert(v.drop_first().last() == v.last());
        assert(v.drop_last()[0] == v[0]);
    }
}

/// Reading an escaped string body followed by a closing quote gives the string back.
proof fn lemma_scan_escaped(inp: Seq<char>, i: int, v: Seq<char>, acc: Seq<char>, p: Position)
    requires
        0 <= i,
        i + escape_spec(v).len() < inp.len(),
        inp.subrange(i, i + escape_spec(v).len()) == escape_spec(v),
        inp[i + escape_spec(v).len()] == '"',
    ensures
        scan_string(inp, i, acc, p) == Ok::<(Seq<char>, int), crate::error::LexError>(
            (acc + v, i + escape_spec(v).len() + 1),
        ),
    decreases v.len(),
{
    if v.len() == 0 {
        assert(acc + v =~= acc);
    } else {
        lemma_escape_front(v);
        let c = v[0];
        let ec = escape_char(c);
        let rest = v.drop_first();
        let n = escape_spec(v).len() as int;
        assert(inp.subrange(i, i + n)[0] == inp[i]);
        if c == '\n' || c == '\t' || c == '\r' || c == '\\' || c == '"' {
            assert(ec.len() == 2);
            assert(inp[i] == ec[0]);
            assert(inp.subrange(i, i + n)[1] == inp[i + 1]);
            assert(inp[i + 1] == ec[1]);
            assert(escape_value(inp[i + 1]) == Some(c));
            assert((ec + escape_spec(rest)).subrange(2, n) =~= escape_spec(rest));
            assert(inp.subrange(i + 2, i + 2 + escape_spec(rest).len()) =~= inp.subrange(
                i,
                i + n,
            ).subrange(2, n));
            lemma_scan_escaped(inp, i + 2, rest, acc.push(c), p);
            assert(acc.push(c) + rest =~= acc + v);
        } else {
            assert(ec == seq![c]);
            assert(inp[i] == c);
            assert((ec + escape_spec(rest)).subrange(1, n) =~= escape_spec(rest));
            assert(inp.subrange(i + 1, i + 1 + escape_spec(rest).len()) =~= inp.subrange(
                i,
                i + n,
            ).subrange(1, n));
            lemma_scan_escaped(inp, i + 1, rest, acc.push(c), p);
            assert(acc.push(c) + rest =~= acc + v);
        }
    }
}

/// Whitespace before a token does not change what is read from there.
proof fn lemma_skip_blank(inp: Seq<char>, x: int, k: int)
    requires
        0 <= x,
        0 <= k,
        x + k <= inp.len(),
        forall|m: int| x <= m < x + k ==> (#[trigger] inp[m] == ' ' || inp[m] == '\n'),
    ensures
        tokenize_from(inp, x) == tokenize_from(inp, x + k),
    decreases k,
{
    if k > 0 {
        assert(inp[x] == ' ' || inp[x] == '\n');
        assert(is_whitespace(inp[x]));
        assert(skip_ws(inp, x, false) == skip_ws(inp, x + 1, false));
        lemma_skip_blank(inp, x + 1, k - 1);
    }
}

/// The token that an atom prints as is read back, up to the end of the printed text.
proof fn lemma_token_at_atom(e: SExpV, d: nat, ind: nat, inp: Seq<char>, i: int)
    requires
        !(e is List),
        printable(e),
        0 <= i,
        i + print_spec(e, d, ind).len() <= inp.len(),
        inp.subrange(i, i + print_spec(e, d, ind).len()) == print_spec(e, d, ind),
        delimited(inp, i + print_spec(e, d, ind).len()),
    ensures
        i < inp.len(),
        skip_ws(inp, i, false) == i,
        next_token_at(inp, i) matches Ok((t, k)) && k == i + print_spec(e, d, ind).len() && seq![
            (t.typ, t.lexeme),
        ] == expr_tokens(e),
{
    let pr = print_spec(e, d, ind);
    let n = pr.len() as int;
    assert(inp.subrange(i, i + n)[0] == inp[i]);
    match e {
        SExpV::Symbol(v, _) => {
            assert(inp[i] == v[0]);
            assert forall|k: int| i + 1 <= k < i + n implies is_symbol_char_spec(
                #[trigger] inp[k],
            ) by {
                assert(inp.subrange(i, i + n)[k - i] == inp[k]);
                assert(v[k - i] == inp[k]);
            }
            if n > 1 {
                assert(inp.subrange(i, i + n)[1] == inp[i + 1]);
            }
            lemma_symbol_end_run(inp, i + 1, i + n);
            assert(inp.subrange(i, i + n) == v);
        },
        SExpV::Keyword(nm, _) => {
            assert(inp[i] == ':');
            assert forall|k: int| i + 1 <= k < i + n implies is_symbol_char_spec(
                #[trigger] inp[k],
            ) by {
                assert(inp.subrange(i, i + n)[k - i] == inp[k]);
                assert(nm[k - i - 1] == inp[k]);
            }
            lemma_symbol_end_run(inp, i + 1, i + n);
            assert forall|k: int| 0 <= k < nm.len() implies inp.subrange(i + 1, i + n)[k]
                == nm[k] by {
                assert(inp.subrange(i, i + n)[k + 1] == inp[i + 1 + k]);
                assert(pr[k + 1] == nm[k]);
            }
            assert(inp.subrange(i + 1, i + n) =~= nm);
        },
        SExpV::Str(v, _) => {
            assert(inp[i] == '"');
            let m = escape_spec(v).len() as int;
            assert(inp.subrange(i + 1, i + 1 + m) =~= inp.subrange(i, i + n).subrange(1, 1 + m));
            assert((seq!['"'] + escape_spec(v) + seq!['"']).subrange(1, 1 + m) =~= escape_spec(v));
            assert(inp.subrange(i, i + n)[1 + m] == inp[i + 1 + m]);
            lemma_scan_escaped(inp, i + 1, v, Seq::empty(), crate::sexp::lexer::pos_at(inp, i));
            assert(Seq::<char>::empty() + v =~= v);
        },
        SExpV::Number(v, _) => {
            assert(number_text_ok(v));
            assert(pr == v);
            assert(n == v.len());
            assert(inp[i] == v[0]);
            let a = if v[0] == '-' {
                i + 1
            } else {
                i
            };
            assert forall|k: int| a <= k < i + n implies is_ascii_digit(#[trigger] inp[k]) by {
                assert(inp.subrange(i, i + n)[k - i] == inp[k]);
                assert(v[k - i] == inp[k]);
                if v[0] == '-' {
                    assert(number_digits(v)[k - i - 1] == v[k - i]);
                } else {
                    assert(number_digits(v)[k - i] == v[k - i]);
                }
            }
            if v[0] == '-' {
                assert(inp.subrange(i, i + n)[1] == inp[i + 1]);
                assert(number_digits(v)[0] == v[1]);
            } else {
                assert(number_digits(v)[0] == v[0]);
            }
            lemma_digits_end_run(inp, a, i + n);
            assert(inp.subrange(i, i + n) == v);
        },
        SExpV::Nil(_) => {
            assert(inp.subrange(i, i + n)[1] == inp[i + 1]);
            assert(inp.subrange(i, i + n)[2] == inp[i + 2]);
            assert(inp[i] == 'n' && inp[i + 1] == 'i' && inp[i + 2] == 'l');
            lemma_symbol_end_run(inp, i + 1, i + 3);
            assert(inp.subrange(i, i + 3) =~= seq!['n', 'i', 'l']);
        },
        SExpV::List(_, _) => {},
    }
}

/// A single token at `i` (text that is neither whitespace nor a comment start) is read,
/// then the rest.
proof fn lemma_lex_one(inp: Seq<char>, i: int, tok: Tok, k: int)
    requires
        0 <= i < inp.len(),
        skip_ws(inp, i, false) == i,
        next_token_at(inp, i) matches Ok((t, kk)) && kk == k && (t.typ, t.lexeme) == tok,
    ensures
        stripped(tokenize_from(inp, i)) == opt_prepend(seq![tok], stripped(tokenize_from(inp, k))),
{
    let (t, kk) = next_token_at(inp, i)->Ok_0;
    match tokenize_from(inp, k) {
        Ok(ts) => {
            assert(tokenize_from(inp, i) == Ok::<Seq<TokenV>, crate::error::LexError>(
                seq![t] + ts,
            ));
            assert(strip_tokens(seq![t] + ts) =~= seq![tok] + strip_tokens(ts));
        },
        Err(_) => {},
    }
}

/// The text an expression prints as is read as that expression's tokens, followed by
/// whatever the text after it reads as.
pub proof fn lemma_lex_printed(e: SExpV, d: nat, ind: nat, inp: Seq<char>, i: int)
    requires
        printable(e),
        0 <= i,
        i + print_spec(e, d, ind).len() <= inp.len(),
        inp.subrange(i, i + print_spec(e, d, ind).len()) == print_spec(e, d, ind),
        delimited(inp, i + print_spec(e, d, ind).len()),
    ensures
        stripped(tokenize_from(inp, i)) == opt_prepend(
            expr_tokens(e),
            stripped(tokenize_from(inp, i + print_spec(e, d, ind).len())),
        ),
    decreases e,
{
    let pr = print_spec(e, d, ind);
    let n = pr.len() as int;
    match e {
        SExpV::List(es, _) => {
            assert(inp.subrange(i, i + n)[0] == inp[i]);
            assert(inp[i] == '(');
            assert(skip_ws(inp, i, false) == i);
            lemma_lex_one(inp, i, (TokenType::LParen, seq!['(']), i + 1);
            if es.len() == 0 {
                assert(inp.subrange(i, i + n)[1] == inp[i + 1]);
                assert(skip_ws(inp, i + 1, false) == i + 1);
                lemma_lex_one(inp, i + 1, (TokenType::RParen, seq![')']), i + 2);
                assert(all_tokens(es) =~= Seq::<Tok>::empty());
                assert(expr_tokens(e) =~= seq![(TokenType::LParen, seq!['('])] + seq![
                    (TokenType::RParen, seq![')']),
                ]);
            } else {
                let j = if crate::sexp::printer::is_simple(es) {
                    join_spaced(es, d + 1, ind)
                } else {
                    join_lines(es, d + 1, ind)
                };
                let m = j.len() as int;
                assert(pr == seq!['('] + j + seq![')']);
                assert(inp.subrange(i + 1, i + 1 + m) =~= pr.subrange(1, 1 + m));
                assert(pr.subrange(1, 1 + m) =~= j);
                assert(inp.subrange(i, i + n)[1 + m] == inp[i + 1 + m]);
                assert(inp[i + 1 + m] == ')');
                assert(all_printable(es));
                if crate::sexp::printer::is_simple(es) {
                    lemma_lex_spaced(es, d + 1, ind, inp, i + 1);
                } else {
                    lemma_lex_lines(es, d + 1, ind, inp, i + 1);
                }
                assert(skip_ws(inp, i + 1 + m, false) == i + 1 + m);
                lemma_lex_one(inp, i + 1 + m, (TokenType::RParen, seq![')']), i + 2 + m);
                assert(expr_tokens(e) =~= seq![(TokenType::LParen, seq!['('])] + all_tokens(es)
                    + seq![(TokenType::RParen, seq![')'])]);
                match stripped(tokenize_from(inp, i + n)) {
                    Some(rest) => {
                        assert(seq![(TokenType::LParen, seq!['('])] + (all_tokens(es) + (seq![
                            (TokenType::RParen, seq![')']),
                        ] + rest)) =~= expr_tokens(e) + rest);
                    },
                    None => {},
                }
            }
        },
        _ => {
            lemma_token_at_atom(e, d, ind, inp, i);
            let (t, k) = next_token_at(inp, i)->Ok_0;
            lemma_lex_one(inp, i, (t.typ, t.lexeme), k);
            assert(expr_tokens(e) == seq![(t.typ, t.lexeme)]);
        },
    }
}

/// Elements printed with single spaces between them read as their tokens in order.
pub proof fn lemma_lex_spaced(es: Seq<SExpV>, d: nat, ind: nat, inp: Seq<char>, a: int)
    requires
        es.len() > 0,
        all_printable(es),
        0 <= a,
        a + join_spaced(es, d, ind).len() <= inp.len(),
        inp.subrange(a, a + join_spaced(es, d, ind).len()) == join_spaced(es, d, ind),
        delimited(inp, a + join_spaced(es, d, ind).len()),
    ensures
        stripped(tokenize_from(inp, a)) == opt_prepend(
            all_tokens(es),
            stripped(tokenize_from(inp, a + join_spaced(es, d, ind).len())),
        ),
    decreases es,
{
    let n = es.len();
    let last = es[n - 1];
    let j = join_spaced(es, d, ind);
    if n == 1 {
        assert(es.subrange(0, 0) =~= Seq::<SExpV>::empty());
        assert(all_tokens(es.subrange(0, 0)) == Seq::<Tok>::empty());
        assert(all_tokens(es) == all_tokens(es.subrange(0, 0)) + expr_tokens(last));
        assert(all_tokens(es) =~= expr_tokens(last));
        lemma_lex_printed(last, d, ind, inp, a);
    } else {
        let pre = es.subrange(0, n - 1);
        let jp = join_spaced(pre, d, ind);
        let pl = print_spec(last, d, ind);
        assert(j == jp + seq![' '] + pl);
        let mp = jp.len() as int;
        assert(inp.subrange(a, a + mp) =~= j.subrange(0, mp));
        assert(j.subrange(0, mp) =~= jp);
        assert(inp.subrange(a, a + j.len())[mp] == inp[a + mp]);
        assert(inp[a + mp] == ' ');
        lemma_lex_spaced(pre, d, ind, inp, a);
        lemma_skip_blank(inp, a + mp, 1);
        assert(inp.subrange(a + mp + 1, a + j.len()) =~= j.subrange(mp + 1, j.len() as int));
        assert(j.subrange(mp + 1, j.len() as int) =~= pl);
        lemma_lex_printed(last, d, ind, inp, a + mp + 1);
        match stripped(tokenize_from(inp, a + j.len())) {
            Some(rest) => {
                assert(all_tokens(pre) + (expr_tokens(last) + rest) =~= all_tokens(es) + rest);
            },
            None => {},
        }
    }
}

/// Elements printed one per line, indented, read as their tokens in order.
pub proof fn lemma_lex_lines(es: Seq<SExpV>, d: nat, ind: nat, inp: Seq<char>, a: int)
    requires
        es.len() > 0,
        all_printable(es),
        0 <= a,
        a + join_lines(es, d, ind).len() <= inp.len(),
        inp.subrange(a, a + join_lines(es, d, ind).len()) == join_lines(es, d, ind),
        delimited(inp, a + join_lines(es, d, ind).len()),
    ensures
        stripped(tokenize_from(inp, a)) == opt_prepend(
            all_tokens(es),
            stripped(tokenize_from(inp, a + join_lines(es, d, ind).len())),
        ),
    decreases es,
{
    let n = es.len();
    let last = es[n - 1];
    let j = join_lines(es, d, ind);
    if n == 1 {
        assert(es.subrange(0, 0) =~= Seq::<SExpV>::empty());
        assert(all_tokens(es.subrange(0, 0)) == Seq::<Tok>::empty());
        assert(all_tokens(es) == all_tokens(es.subrange(0, 0)) + expr_tokens(last));
        assert(all_tokens(es) =~= expr_tokens(last));
        lemma_lex_printed(last, d, ind, inp, a);
    } else {
        let pre = es.subrange(0, n - 1);
        let jp = join_lines(pre, d, ind);
        let pl = print_spec(last, d, ind);
        let sep = seq!['\n'] + spaces(d * ind);
        assert(j == jp + sep + pl);
        let mp = jp.len() as int;
        let ms = sep.len() as int;
        assert(inp.subrange(a, a + mp) =~= j.subrange(0, mp));
        assert(j.subrange(0, mp) =~= jp);
        assert(inp.subrange(a, a + j.len())[mp] == inp[a + mp]);
        assert(inp[a + mp] == '\n');
        lemma_lex_lines(pre, d, ind, inp, a);
        assert forall|m: int| a + mp <= m < a + mp + ms implies (#[trigger] inp[m] == ' ' || inp[m]
            == '\n') by {
            assert(inp.subrange(a, a + j.len())[m - a] == inp[m]);
            assert(j[m - a] == sep[m - a - mp]);
        }
        lemma_skip_blank(inp, a + mp, ms);
        assert(inp.subrange(a + mp + ms, a + j.len()) =~= j.subrange(mp + ms, j.len() as int));
        assert(j.subrange(mp + ms, j.len() as int) =~= pl);
        lemma_lex_printed(last, d, ind, inp, a + mp + ms);
        match stripped(tokenize_from(inp, a + j.len())) {
            Some(rest) => {
                assert(all_tokens(pre) + (expr_tokens(last) + rest) =~= all_tokens(es) + rest);
            },
            None => {},
        }
    }
}

// ---------------------------------------------------------------------------
// The parser on those tokens
// ---------------------------------------------------------------------------

proof fn lemma_all_tokens_front(es: Seq<SExpV>)
    requires
        es.len() > 0,
    ensures
        all_tokens(es) == expr_tokens(es[0]) + all_tokens(es.subrange(1, es.len() as int)),
        erase_all(es) == seq![erase(es[0])] + erase_all(es.subrange(1, es.len() as int)),
        all_printable(es) ==> printable(es[0]) && all_printable(es.subrange(1, es.len() as int)),
    decreases es.len(),
{
    let n = es.len() as int;
    if n == 1 {
        assert(es.subrange(0, 0) =~= Seq::<SExpV>::empty());
        assert(es.subrange(1, 1) =~= Seq::<SExpV>::empty());
        assert(all_tokens(es.subrange(0, 0)) == Seq::<Tok>::empty());
        assert(all_tokens(es) == all_tokens(es.subrange(0, 0)) + expr_tokens(es[0]));
        assert(all_tokens(es) =~= expr_tokens(es[0]));
        assert(erase_all(es.subrange(0, 0)) == Seq::<SExpV>::empty());
        assert(erase_all(es) == erase_all(es.subrange(0, 0)).push(erase(es[0])));
        assert(erase_all(es) =~= seq![erase(es[0])]);
        assert(erase_all(es.subrange(1, 1)) == Seq::<SExpV>::empty());
        assert(all_tokens(es.subrange(1, 1)) == Seq::<Tok>::empty());
    } else {
        let pre = es.subrange(0, n - 1);
        lemma_all_tokens_front(pre);
        assert(pre[0] == es[0]);
        assert(pre.subrange(1, n - 1) =~= es.subrange(1, n).subrange(0, n - 2));
        assert(es.subrange(1, n)[n - 2] == es[n - 1]);
        assert(all_tokens(es) =~= expr_tokens(es[0]) + all_tokens(es.subrange(1, n)));
        assert(erase_all(es) =~= seq![erase(es[0])] + erase_all(es.subrange(1, n)));
    }
}

proof fn lemma_expr_tokens_start(e: SExpV)
    ensures
        expr_tokens(e).len() > 0,
        expr_tokens(e)[0].0 != TokenType::RParen,
        expr_tokens(e)[0].0 != TokenType::Eof,
{
}

/// Tokens that spell an expression parse back as that expression, positions aside.
pub proof fn lemma_parse_printed(e: SExpV, toks: Seq<TokenV>, i: int)
    requires
        0 <= i,
        i + expr_tokens(e).len() <= toks.len(),
        strip_tokens(toks).subrange(i, i + expr_tokens(e).len()) == expr_tokens(e),
    ensures
        parse_expr_at(toks, i) matches Ok((e2, j)) && j == i + expr_tokens(e).len() && erase(e2)
            == erase(e),
    decreases e,
{
    let m = expr_tokens(e).len() as int;
    assert(strip_tokens(toks).subrange(i, i + m)[0] == strip_tokens(toks)[i]);
    assert(strip_tokens(toks)[i] == (toks[i].typ, toks[i].lexeme));
    match e {
        SExpV::List(es, _) => {
            let at = all_tokens(es);
            let ma = at.len() as int;
            assert(expr_tokens(e) == seq![(TokenType::LParen, seq!['('])] + at + seq![
                (TokenType::RParen, seq![')']),
            ]);
            assert(strip_tokens(toks).subrange(i + 1, i + 1 + ma + 1) =~= at + seq![
                (TokenType::RParen, seq![')']),
            ]) by {
                assert(strip_tokens(toks).subrange(i + 1, i + 1 + ma + 1) =~= strip_tokens(
                    toks,
                ).subrange(i, i + m).subrange(1, m));
            }
            lemma_parse_list_printed(es, toks, i + 1, toks[i].pos);
        },
        _ => {},
    }
}

/// Tokens that spell a sequence of expressions and then a closing parenthesis parse as
/// a list of those expressions, positions aside.
pub proof fn lemma_parse_list_printed(es: Seq<SExpV>, toks: Seq<TokenV>, i: int, open: Position)
    requires
        0 <= i,
        i + all_tokens(es).len() + 1 <= toks.len(),
        strip_tokens(toks).subrange(i, i + all_tokens(es).len() + 1) == all_tokens(es) + seq![
            (TokenType::RParen, seq![')']),
        ],
    ensures
        parse_list_at(toks, i, open) matches Ok((es2, j)) && j == i + all_tokens(es).len() + 1
            && erase_all(es2) == erase_all(es),
    decreases es,
{
    let ma = all_tokens(es).len() as int;
    let st = strip_tokens(toks);
    assert(st.subrange(i, i + ma + 1)[0] == st[i]);
    assert(st[i] == (toks[i].typ, toks[i].lexeme));
    if es.len() == 0 {
        assert(all_tokens(es) =~= Seq::<Tok>::empty());
        assert(erase_all(es) =~= Seq::<SExpV>::empty());
        assert(toks[i].typ == TokenType::RParen);
        assert(erase_all(Seq::<SExpV>::empty()) =~= Seq::<SExpV>::empty());
    } else {
        lemma_all_tokens_front(es);
        let first = es[0];
        let rest = es.subrange(1, es.len() as int);
        let m1 = expr_tokens(first).len() as int;
        lemma_expr_tokens_start(first);
        assert(st.subrange(i, i + ma + 1)[0] == expr_tokens(first)[0]);
        assert(st.subrange(i, i + m1) =~= st.subrange(i, i + ma + 1).subrange(0, m1));
        assert((expr_tokens(first) + all_tokens(rest) + seq![(TokenType::RParen, seq![')'])]).subrange(
            0,
            m1,
        ) =~= expr_tokens(first));
        lemma_parse_printed(first, toks, i);
        let (e2, j) = parse_expr_at(toks, i)->Ok_0;
        assert(st.subrange(j, j + all_tokens(rest).len() + 1) =~= st.subrange(i, i + ma + 1).subrange(
            m1,
            ma + 1,
        ));
        assert((expr_tokens(first) + all_tokens(rest) + seq![(TokenType::RParen, seq![')'])]).subrange(
            m1,
            ma + 1,
        ) =~= all_tokens(rest) + seq![(TokenType::RParen, seq![')'])]);
        lemma_parse_list_printed(rest, toks, j, open);
        let (es3, k) = parse_list_at(toks, j, open)->Ok_0;
        lemma_all_tokens_front(seq![e2] + es3);
        assert((seq![e2] + es3)[0] == e2);
        assert((seq![e2] + es3).subrange(1, (seq![e2] + es3).len() as int) =~= es3);
    }
}

// ---------------------------------------------------------------------------
// The round trip
// ---------------------------------------------------------------------------

/// Printing an S-expression that can be printed, then parsing the text, gives the same
/// S-expression back, positions aside; this holds for every indentation width.
pub proof fn lemma_print_parse_round_trip(e: SExpV, indent: nat)
    requires
        printable(e),
    ensures
        parse_str_spec(print_spec(e, 0, indent)) matches Ok(e2) && erase(e2) == erase(e),
{
    let inp = print_spec(e, 0, indent);
    let n = inp.len() as int;
    assert(inp.subrange(0, n) =~= inp);
    lemma_lex_printed(e, 0, indent, inp, 0);
    assert(skip_ws(inp, n, false) == n);
    let eof = TokenV {
        typ: TokenType::Eof,
        lexeme: Seq::empty(),
        pos: crate::sexp::lexer::pos_at(inp, n),
    };
    assert(tokenize_from(inp, n) == Ok::<Seq<TokenV>, crate::error::LexError>(seq![eof]));
    assert(strip_tokens(seq![eof]) =~= seq![(TokenType::Eof, Seq::<char>::empty())]);
    let ts = tokenize_spec(inp)->Ok_0;
    let et = expr_tokens(e);
    let m = et.len() as int;
    assert(strip_tokens(ts) == et + seq![(TokenType::Eof, Seq::<char>::empty())]);
    assert(strip_tokens(ts).subrange(0, m) =~= et);
    lemma_expr_tokens_start(e);
    assert(strip_tokens(ts)[0] == et[0]);
    assert(ts[0].typ == et[0].0);
    lemma_parse_printed(e, ts, 0);
}

/// A string written with its escapes between double quotes reads back as one string
/// token holding exactly that string, then the end of input.
pub proof fn lemma_string_literal_round_trip(v: Seq<char>)
    ensures
        stripped(tokenize_spec(seq!['"'] + escape_spec(v) + seq!['"'])) == Some(
            seq![(TokenType::String, v), (TokenType::Eof, Seq::<char>::empty())],
        ),
{
    let p = Position { offset: 0, line: 1, column: 1 };
    let e = SExpV::Str(v, p);
    let inp = seq!['"'] + escape_spec(v) + seq!['"'];
    assert(print_spec(e, 0, 2) == inp);
    let n = inp.len() as int;
    assert(inp.subrange(0, n) =~= inp);
    lemma_lex_printed(e, 0, 2, inp, 0);
    assert(skip_ws(inp, n, false) == n);
    let eof = TokenV {
        typ: TokenType::Eof,
        lexeme: Seq::empty(),
        pos: crate::sexp::lexer::pos_at(inp, n),
    };
    assert(tokenize_from(inp, n) == Ok::<Seq<TokenV>, crate::error::LexError>(seq![eof]));
    assert(strip_tokens(seq![eof]) =~= seq![(TokenType::Eof, Seq::<char>::empty())]);
    assert(seq![(TokenType::String, v)] + seq![(TokenType::Eof, Seq::<char>::empty())] =~= seq![
        (TokenType::String, v),
        (TokenType::Eof, Seq::<char>::empty()),
    ]);
}

/// Printing an S-expression with the printer's default indentation, then parsing the text,
/// gives the same S-expression back, positions aside.
pub proof fn lemma_print_sexp_round_trip(e: SExpV)
    requires
        printable(e),
    ensures
        parse_str_spec(print_spec(e, 0, 2)) matches Ok(e2) && erase(e2) == erase(e),
{
    lemma_print_parse_round_trip(e, 2);
}

// ---------------------------------------------------------------------------
// Everything parsed can be printed
// ---------------------------------------------------------------------------

/// Whether a token's text reads back as the same token.
pub open spec fn token_ok(t: TokenV) -> bool {
    match t.typ {
        TokenType::Symbol => symbol_text_ok(t.lexeme),
        TokenType::Keyword => keyword_text_ok(t.lexeme),
        TokenType::Number => number_text_ok(t.lexeme),
        _ => true,
    }
}

proof fn lemma_symbol_end_chars(inp: Seq<char>, a: int)
    requires
        0 <= a <= inp.len(),
    ensures
        forall|k: int| a <= k < symbol_end(inp, a) ==> is_symbol_char_spec(#[trigger] inp[k]),
    decreases inp.len() - a,
{
    if a < inp.len() && is_symbol_char_spec(inp[a]) {
        lemma_symbol_end_chars(inp, a + 1);
    }
}

proof fn lemma_digits_end_chars(inp: Seq<char>, a: int)
    requires
        0 <= a <= inp.len(),
    ensures
        forall|k: int| a <= k < digits_end(inp, a) ==> is_ascii_digit(#[trigger] inp[k]),
    decreases inp.len() - a,
{
    if a < inp.len() && is_ascii_digit(inp[a]) {
        lemma_digits_end_chars(inp, a + 1);
    }
}

/// Skipping whitespace and comments stops at a character that is neither.
proof fn lemma_skip_ws_stop(inp: Seq<char>, i: int, c: bool)
    requires
        0 <= i,
    ensures
        skip_ws(inp, i, c) < inp.len() ==> !is_whitespace(inp[skip_ws(inp, i, c)]) && inp[skip_ws(
            inp,
            i,
            c,
        )] != ';',
    decreases inp.len() - i,
{
    if i < inp.len() {
        if c {
            lemma_skip_ws_stop(inp, i + 1, inp[i] != '\n');
        } else if is_whitespace(inp[i]) {
            lemma_skip_ws_stop(inp, i + 1, false);
        } else if inp[i] == ';' {
            lemma_skip_ws_stop(inp, i + 1, true);
        }
    }
}

/// A token read where no whitespace starts reads back as itself.
proof fn lemma_next_token_ok(inp: Seq<char>, j: int)
    requires
        0 <= j < inp.len(),
        !is_whitespace(inp[j]),
    ensures
        next_token_at(inp, j) matches Ok((t, _)) ==> token_ok(t),
{
    let c = inp[j];
    if c == '(' || c == ')' || c == '"' {
    } else if c == ':' {
        lemma_symbol_end_bounds(inp, j + 1);
        lemma_symbol_end_chars(inp, j + 1);
        let k = symbol_end(inp, j + 1);
        let lx = inp.subrange(j + 1, k);
        assert forall|m: int| 0 <= m < lx.len() implies is_symbol_char_spec(#[trigger] lx[m]) by {
            assert(lx[m] == inp[j + 1 + m]);
        }
    } else if starts_number(inp, j) {
        let a = if c == '-' {
            j + 1
        } else {
            j
        };
        lemma_digits_end_bounds(inp, a);
        lemma_digits_end_chars(inp, a);
        let k = digits_end(inp, a);
        let lx = inp.subrange(j, k);
        assert(is_ascii_digit(inp[a]));
        assert(digits_end(inp, a) == digits_end(inp, a + 1));
        lemma_digits_end_bounds(inp, a + 1);
        if c == '-' {
            assert(is_ascii_digit(inp[j + 1]));
            assert(k >= j + 2);
            assert(number_digits(lx) =~= inp.subrange(j + 1, k));
        } else {
            assert(k >= j + 1);
            assert(number_digits(lx) =~= lx);
        }
        assert forall|m: int| 0 <= m < number_digits(lx).len() implies is_ascii_digit(
            #[trigger] number_digits(lx)[m],
        ) by {
            assert(number_digits(lx)[m] == inp[a + m]);
        }
    } else if is_symbol_start_char(c) {
        lemma_symbol_end_bounds(inp, j + 1);
        lemma_symbol_end_chars(inp, j + 1);
        let k = symbol_end(inp, j + 1);
        let lx = inp.subrange(j, k);
        assert(lx[0] == c);
        if lx.len() > 1 {
            assert(lx[1] == inp[j + 1]);
        }
        assert forall|m: int| 1 <= m < lx.len() implies is_symbol_char_spec(#[trigger] lx[m]) by {
            assert(lx[m] == inp[j + m]);
        }
    }
}

/// Every token the lexer reads, reads back as itself.
pub proof fn lemma_tokens_ok(inp: Seq<char>, i: int)
    requires
        0 <= i <= inp.len(),
    ensures
        tokenize_from(inp, i) matches Ok(ts) ==> forall|k: int|
            0 <= k < ts.len() ==> token_ok(#[trigger] ts[k]),
    decreases inp.len() - i,
{
    let j = skip_ws(inp, i, false);
    lemma_skip_ws_bounds(inp, i, false);
    if j < inp.len() {
        lemma_skip_ws_stop(inp, i, false);
        lemma_next_token_ok(inp, j);
        lemma_next_token_advances(inp, j);
        if let Ok((t, k)) = next_token_at(inp, j) {
            lemma_tokens_ok(inp, k);
            if let Ok(ts) = tokenize_from(inp, k) {
                assert(tokenize_from(inp, i) == Ok::<Seq<TokenV>, crate::error::LexError>(
                    seq![t] + ts,
                ));
                assert forall|m: int| 0 <= m < (seq![t] + ts).len() implies token_ok(
                    #[trigger] (seq![t] + ts)[m],
                ) by {
                    if m > 0 {
                        assert((seq![t] + ts)[m] == ts[m - 1]);
                    }
                }
            }
        }
    }
}

pub proof fn lemma_all_printable_iff(es: Seq<SExpV>)
    ensures
        all_printable(es) <==> forall|k: int| 0 <= k < es.len() ==> printable(#[trigger] es[k]),
    decreases es.len(),
{
    if es.len() > 0 {
        let pre = es.subrange(0, es.len() - 1);
        lemma_all_printable_iff(pre);
        assert forall|k: int| 0 <= k < pre.len() implies pre[k] == es[k] by {}
        if forall|k: int| 0 <= k < es.len() ==> printable(#[trigger] es[k]) {
            assert forall|k: int| 0 <= k < pre.len() implies printable(#[trigger] pre[k]) by {
                assert(pre[k] == es[k]);
            }
        }
        if all_printable(es) {
            assert forall|k: int| 0 <= k < es.len() implies printable(#[trigger] es[k]) by {
                if k < es.len() - 1 {
                    assert(pre[k] == es[k]);
                }
            }
        }
    }
}

/// Whatever the parser builds from tokens that read back as themselves can be printed.
pub proof fn lemma_parsed_printable(toks: Seq<TokenV>, i: int)
    requires
        forall|k: int| 0 <= k < toks.len() ==> token_ok(#[trigger] toks[k]),
    ensures
        parse_expr_at(toks, i) matches Ok((e, _)) ==> printable(e),
    decreases toks.len() - i, 0int,
{
    if 0 <= i < toks.len() {
        assert(token_ok(toks[i]));
        if toks[i].typ == TokenType::LParen {
            lemma_parsed_list_printable(toks, i + 1, toks[i].pos);
            if let Ok((es, _)) = parse_list_at(toks, i + 1, toks[i].pos) {
                lemma_all_printable_iff(es);
            }
        }
    }
}

proof fn lemma_parsed_list_printable(toks: Seq<TokenV>, i: int, open: Position)
    requires
        forall|k: int| 0 <= k < toks.len() ==> token_ok(#[trigger] toks[k]),
    ensures
        parse_list_at(toks, i, open) matches Ok((es, _)) ==> forall|k: int|
            0 <= k < es.len() ==> printable(#[trigger] es[k]),
    decreases toks.len() - i, 1int,
{
    if !(i < 0 || i >= toks.len() || toks[i].typ == TokenType::Eof) && toks[i].typ
        != TokenType::RParen {
        crate::sexp::parser::lemma_parse_expr_advances(toks, i);
        lemma_parsed_printable(toks, i);
        if let Ok((e, j)) = parse_expr_at(toks, i) {
            lemma_parsed_list_printable(toks, j, open);
            if let Ok((es, k)) = parse_list_at(toks, j, open) {
                assert forall|m: int| 0 <= m < (seq![e] + es).len() implies printable(
                    #[trigger] (seq![e] + es)[m],
                ) by {
                    if m > 0 {
                        assert((seq![e] + es)[m] == es[m - 1]);
                    }
                }
            }
        }
    }
}

/// Everything the parser reads from a text can be printed.
pub proof fn lemma_parse_gives_printable(inp: Seq<char>)
    ensures
        parse_str_spec(inp) matches Ok(e) ==> printable(e),
{
    lemma_tokens_ok(inp, 0);
    if let Ok(ts) = tokenize_spec(inp) {
        lemma_parsed_printable(ts, 0);
    }
}

/// Reading a text, printing what was read and reading the printed text gives what was
/// first read, positions aside.
pub proof fn lemma_parse_print_parse(inp: Seq<char>, indent: nat)
    ensures
        parse_str_spec(inp) matches Ok(e) ==> (parse_str_spec(print_spec(e, 0, indent)) matches Ok(
            e2,
        ) && erase(e2) == erase(e)),
{
    lemma_parse_gives_printable(inp);
    if let Ok(e) = parse_str_spec(inp) {
        lemma_print_parse_round_trip(e, indent);
    }
}

} // verus!
