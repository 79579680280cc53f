//! Printer from S-expressions to text.

use vstd::prelude::*;
use crate::sexp::types::{seq_view, sexp_view, List, SExp, SExpV};
use crate::text::{chars_of, push_all, push_str, string_from_chars};

verus! {

// ---------------------------------------------------------------------------
// The printed form
// ---------------------------------------------------------------------------

/// How one character is written inside a string literal.
pub open spec fn escape_char(c: char) -> Seq<char> {
    if c == '\n' {
        seq!['\\', 'n']
    } else if c == '\t' {
        seq!['\\', 't']
    } else if c == '\r' {
        seq!['\\', 'r']
    } else if c == '\\' {
        seq!['\\', '\\']
    } else if c == '"' {
        seq!['\\', '"']
    } else {
        seq![c]
    }
}

/// A string with its special characters escaped.
pub open spec fn escape_spec(s: Seq<char>) -> Seq<char>
    decreases s.len(),
{
    if s.len() == 0 {
        Seq::empty()
    } else {
        escape_spec(s.drop_last()) + escape_char(s.last())
    }
}

pub open spec fn spaces(n: nat) -> Seq<char> {
    Seq::new(n, |i: int| ' ')
}

/// A list prints on one line when it has at most three elements and none of them is a list.
pub open spec fn is_simple(es: Seq<SExpV>) -> bool {
    es.len() <= 3 && forall|i: int| 0 <= i < es.len() ==> !(#[trigger] es[i] is List)
}

/// The printed form of an expression nested `depth` lists deep, with `indent` spaces per
/// level.
pub open spec fn print_spec(e: SExpV, depth: nat, indent: nat) -> Seq<char>
    decreases e,
{
    match e {
        SExpV::Symbol(v, _) => v,
        SExpV::Keyword(n, _) => seq![':'] + n,
        SExpV::Str(v, _) => seq!['"'] + escape_spec(v) + seq!['"'],
        SExpV::Number(v, _) => v,
        SExpV::Nil(_) => seq!['n', 'i', 'l'],
        SExpV::List(es, _) => if es.len() == 0 {
            seq!['(', ')']
        } else if is_simple(es) {
            seq!['('] + join_spaced(es, depth + 1, indent) + seq![')']
        } else {
            seq!['('] + join_lines(es, depth + 1, indent) + seq![')']
        },
    }
}

/// The elements printed one after another, separated by single spaces.
pub open spec fn join_spaced(es: Seq<SExpV>, depth: nat, indent: nat) -> Seq<char>
    decreases es,
{
    if es.len() == 0 {
        Seq::empty()
    } else if es.len() == 1 {
        print_spec(es[0], depth, indent)
    } else {
        join_spaced(es.subrange(0, es.len() - 1), depth, indent) + seq![' '] + print_spec(
            es[es.len() - 1],
            depth,
            indent,
        )
    }
}

/// The elements printed one per line; every element after the first starts a new line
/// indented by `depth * indent` spaces.
pub open spec fn join_lines(es: Seq<SExpV>, depth: nat, indent: nat) -> Seq<char>
    decreases es,
{
    if es.len() == 0 {
        Seq::empty()
    } else if es.len() == 1 {
        print_spec(es[0], depth, indent)
    } else {
        join_lines(es.subrange(0, es.len() - 1), depth, indent) + seq!['\n'] + spaces(
            depth * indent,
        ) + print_spec(es[es.len() - 1], depth, indent)
    }
}

// ---------------------------------------------------------------------------
// The printer
// ---------------------------------------------------------------------------

pub struct Printer {
    indent: usize,
}

impl Printer {
    /// Spaces per nesting level.
    pub closed spec fn indent_width(&self) -> nat {
        self.indent as nat
    }

    pub fn new() -> (p: Self)
        ensures
            p.indent_width() == 2,
    {
        Self { indent: 2 }
    }

    pub fn with_indent(indent: usize) -> (p: Self)
        ensures
            p.indent_width() == indent,
    {
        Self { indent }
    }

    pub fn print(&self, sexp: &SExp) -> (s: String)
        ensures
            s@ == print_spec(sexp@, 0, self.indent_width()),
    {
        let prefix: Vec<char> = Vec::new();
        assert(prefix@ =~= spaces(0nat * self.indent as nat));
        self.print_sexp(sexp, &prefix, Ghost(0))
    }

    /// `prefix` is the indentation of the current nesting level.
    fn print_sexp(&self, sexp: &SExp, prefix: &Vec<char>, Ghost(depth): Ghost<nat>) -> (s: String)
        requires
            prefix@ == spaces(depth * self.indent as nat),
        ensures
            s@ == print_spec(sexp@, depth, self.indent as nat),
        decreases sexp, 1int,
    {
        match sexp {
            SExp::Symbol(s) => s.value.clone(),
            SExp::Keyword(k) => {
                let mut v: Vec<char> = Vec::new();
                v.push(':');
                push_str(&mut v, k.name.as_str());
                string_from_chars(v.as_slice())
            },
            SExp::String(s) => {
                let mut v: Vec<char> = Vec::new();
                v.push('"');
                let e = escape_string(s.value.as_str());
                push_str(&mut v, e.as_str());
                v.push('"');
                proof {
                    assert(v@ =~= seq!['"'] + escape_spec(s.value@) + seq!['"']);
                }
                string_from_chars(v.as_slice())
            },
            SExp::Number(n) => n.value.clone(),
            SExp::Nil(_) => {
                let v = chars_of("nil");
                proof {
                    reveal_strlit("nil");
                    assert(v@ =~= seq!['n', 'i', 'l']);
                }
                string_from_chars(v.as_slice())
            },
            SExp::List(l) => self.print_list(l, prefix, Ghost(depth)),
        }
    }

    fn print_list(&self, list: &List, prefix: &Vec<char>, Ghost(depth): Ghost<nat>) -> (s: String)
        requires
            prefix@ == spaces(depth * self.indent as nat),
        ensures
            s@ == print_spec(SExpV::List(list@, list.pos), depth, self.indent as nat),
        decreases list, 0int,
    {
        let n = list.elements.len();
        let ghost es = list@;
        proof {
            crate::sexp::parser::lemma_seq_view_len(list.elements@);
        }
        if n == 0 {
            let mut v: Vec<char> = Vec::new();
            v.push('(');
            v.push(')');
            assert(v@ =~= seq!['(', ')']);
            return string_from_chars(v.as_slice());
        }
        let simple = self.is_simple_list(list);
        let ghost d: nat = depth + 1;
        let inner = self.current_indent(prefix);
        proof {
            assert(d * self.indent as nat == depth * self.indent as nat + self.indent as nat) by (nonlinear_arith)
                requires
                    d == depth + 1,
            ;
            assert(inner@ =~= spaces(d * self.indent as nat));
        }
        let mut v: Vec<char> = Vec::new();
        v.push('(');
        let mut i: usize = 0;
        while i < n
            invariant
                n == list.elements@.len(),
                es == list@,
                es.len() == n,
                d == depth + 1,
                inner@ == spaces(d * self.indent as nat),
                simple == is_simple(es),
                0 < n,
                i <= n,
                v@ == seq!['('] + (if simple {
                    join_spaced(es.subrange(0, i as int), d, self.indent as nat)
                } else {
                    join_lines(es.subrange(0, i as int), d, self.indent as nat)
                }),
            decreases n - i,
        {
            let ghost old_v = v@;
            if i > 0 {
                if simple {
                    v.push(' ');
                } else {
                    v.push('\n');
                    push_all(&mut v, inner.as_slice());
                }
            }
            proof {
                lemma_seq_view_index(list.elements@, i as int);
                assert(decreases_to!(list => list.elements@[i as int]));
            }
            let e = self.print_sexp(&list.elements[i], &inner, Ghost(d));
            push_str(&mut v, e.as_str());
            proof {
                let pre = es.subrange(0, i as int);
                let post = es.subrange(0, i + 1);
                assert(post.subrange(0, i as int) =~= pre);
                assert(post[i as int] == es[i as int]);
                if simple {
                    assert(v@ =~= seq!['('] + join_spaced(post, d, self.indent as nat));
                } else {
                    assert(v@ =~= seq!['('] + join_lines(post, d, self.indent as nat));
                }
            }
            i = i + 1;
        }
        v.push(')');
        proof {
            assert(es.subrange(0, n as int) =~= es);
        }
        string_from_chars(v.as_slice())
    }

    fn is_simple_list(&self, list: &List) -> (b: bool)
        ensures
            b == is_simple(list@),
    {
        proof {
            crate::sexp::parser::lemma_seq_view_len(list.elements@);
        }
        if list.elements.len() > 3 {
            return false;
        }
        let mut i: usize = 0;
        while i < list.elements.len()
            invariant
                list@.len() == list.elements@.len(),
                i <= list.elements@.len(),
                forall|k: int| 0 <= k < i ==> !(#[trigger] list@[k] is List),
            decreases list.elements@.len() - i,
        {
            proof {
                lemma_seq_view_index(list.elements@, i as int);
            }
            if let SExp::List(_) = &list.elements[i] {
                return false;
            }
            i = i + 1;
        }
        true
    }

    /// The indentation one level deeper than `prefix`.
    fn current_indent(&self, prefix: &Vec<char>) -> (v: Vec<char>)
        ensures
            v@ == prefix@ + spaces(self.indent as nat),
    {
        let mut v: Vec<char> = Vec::new();
        push_all(&mut v, prefix.as_slice());
        let mut j: usize = 0;
        while j < self.indent
            invariant
                j <= self.indent,
                v@ == prefix@ + spaces(j as nat),
            decreases self.indent - j,
        {
            v.push(' ');
            j = j + 1;
            assert(v@ =~= prefix@ + spaces(j as nat));
        }
        v
    }
}

impl Default for Printer {
    fn default() -> (p: Self)
        ensures
            p.indent_width() == 2,
    {
        Self::new()
    }
}

pub proof fn lemma_seq_view_index(s: Seq<SExp>, i: int)
    requires
        0 <= i < s.len(),
    ensures
        seq_view(s).len() == s.len(),
        seq_view(s)[i] == sexp_view(s[i]),
    decreases s.len(),
{
    crate::sexp::parser::lemma_seq_view_len(s);
    if i > 0 {
        lemma_seq_view_index(s.subrange(1, s.len() as int), i - 1);
    }
}

/// Escapes special characters in a string.
fn escape_string(s: &str) -> (r: String)
    ensures
        r@ == escape_spec(s@),
{
    let cs = chars_of(s);
    let mut v: Vec<char> = Vec::new();
    let mut i: usize = 0;
    while i < cs.len()
        invariant
            i <= cs@.len(),
            cs@ == s@,
            v@ == escape_spec(cs@.subrange(0, i as int)),
        decreases cs@.len() - i,
    {
        let ch = cs[i];
        if ch == '\n' {
            v.push('\\');
            v.push('n');
        } else if ch == '\t' {
            v.push('\\');
            v.push('t');
        } else if ch == '\r' {
            v.push('\\');
            v.push('r');
        } else if ch == '\\' {
            v.push('\\');
            v.push('\\');
        } else if ch == '"' {
            v.push('\\');
            v.push('"');
        } else {
            v.push(ch);
        }
        proof {
            let post = cs@.subrange(0, i + 1);
            assert(post.drop_last() =~= cs@.subrange(0, i as int));
            assert(v@ =~= escape_spec(post));
        }
        i = i + 1;
    }
    assert(cs@.subrange(0, cs@.len() as int) =~= cs@);
    string_from_chars(v.as_slice())
}

/// Prints an S-expression with the default indentation of two spaces.
pub fn print_sexp(sexp: &SExp) -> (s: String)
    ensures
        s@ == print_spec(sexp@, 0, 2),
{
    Printer::new().print(sexp)
}

} // verus!
