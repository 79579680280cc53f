//! Line-oriented text operations on character sequences: splitting into lines,
//! joining, trimming, prefix tests and substring search.

use crate::text::{char_is_whitespace, is_whitespace};
use vstd::prelude::*;

verus! {

/// A line without the carriage return that ends it, if any.
pub open spec fn strip_cr(line: Seq<char>) -> Seq<char> {
    if line.len() > 0 && line.last() == '\r' {
        line.drop_last()
    } else {
        line
    }
}

/// The lines of `s` that follow a partial line `cur`: lines end at `'\n'`, a carriage
/// return just before the line feed is dropped, and a final line feed opens no line.
pub open spec fn lines_after(s: Seq<char>, cur: Seq<char>) -> Seq<Seq<char>>
    decreases s.len(),
{
    if s.len() == 0 {
        if cur.len() == 0 {
            Seq::empty()
        } else {
            seq![cur]
        }
    } else if s[0] == '\n' {
        seq![strip_cr(cur)] + lines_after(s.drop_first(), Seq::empty())
    } else {
        lines_after(s.drop_first(), cur.push(s[0]))
    }
}

/// The lines of `s`, as `str::lines` yields them.
pub open spec fn lines_of(s: Seq<char>) -> Seq<Seq<char>> {
    lines_after(s, Seq::empty())
}

/// The pieces of `ls` joined with `sep` between neighbours.
pub open spec fn join_with(ls: Seq<Seq<char>>, sep: Seq<char>) -> Seq<char>
    decreases ls.len(),
{
    if ls.len() == 0 {
        Seq::empty()
    } else if ls.len() == 1 {
        ls[0]
    } else {
        join_with(ls.drop_last(), sep) + sep + ls.last()
    }
}

/// The lines joined with line feeds.
pub open spec fn join_lines(ls: Seq<Seq<char>>) -> Seq<char> {
    join_with(ls, seq!['\n'])
}

/// `s` without its leading whitespace.
pub open spec fn trim_start(s: Seq<char>) -> Seq<char>
    decreases s.len(),
{
    if s.len() > 0 && is_whitespace(s[0]) {
        trim_start(s.drop_first())
    } else {
        s
    }
}

/// `s` without its trailing whitespace.
pub open spec fn trim_end(s: Seq<char>) -> Seq<char>
    decreases s.len(),
{
    if s.len() > 0 && is_whitespace(s.last()) {
        trim_end(s.drop_last())
    } else {
        s
    }
}

/// `s` without leading and trailing whitespace.
pub open spec fn trim(s: Seq<char>) -> Seq<char> {
    trim_end(trim_start(s))
}

/// Whether `p` occurs in `s` starting at index `i`.
pub open spec fn occurs_at(s: Seq<char>, p: Seq<char>, i: int) -> bool {
    0 <= i && i + p.len() <= s.len() && s.subrange(i, i + p.len()) == p
}

/// Whether `p` occurs somewhere in `s`.
pub open spec fn contains(s: Seq<char>, p: Seq<char>) -> bool {
    exists|i: int| occurs_at(s, p, i)
}

/// The first index at or after `i` where `p` occurs in `s`.
pub open spec fn find_from(s: Seq<char>, p: Seq<char>, i: int) -> Option<int>
    decreases s.len() + 1 - i,
{
    if i < 0 || i + p.len() > s.len() {
        None
    } else if occurs_at(s, p, i) {
        Some(i)
    } else {
        find_from(s, p, i + 1)
    }
}

pub proof fn lemma_trim_start_len(s: Seq<char>)
    ensures
        trim_start(s).len() <= s.len(),
    decreases s.len(),
{
    if s.len() > 0 && is_whitespace(s[0]) {
        lemma_trim_start_len(s.drop_first());
    }
}

pub proof fn lemma_trim_end_len(s: Seq<char>)
    ensures
        trim_end(s).len() <= s.len(),
    decreases s.len(),
{
    if s.len() > 0 && is_whitespace(s.last()) {
        lemma_trim_end_len(s.drop_last());
    }
}

/// Trimming never lengthens text.
pub proof fn lemma_trim_len(s: Seq<char>)
    ensures
        trim(s).len() <= s.len(),
{
    lemma_trim_start_len(s);
    lemma_trim_end_len(trim_start(s));
}

/// No line is longer than the text it comes from.
pub proof fn lemma_lines_len_bound(s: Seq<char>, cur: Seq<char>)
    ensures
        forall|k: int|
            0 <= k < lines_after(s, cur).len() ==> #[trigger] lines_after(s, cur)[k].len() <= s.len()
                + cur.len(),
    decreases s.len(),
{
    let ls = lines_after(s, cur);
    if s.len() == 0 {
        if cur.len() > 0 {
            assert(ls == seq![cur]);
        }
    } else if s[0] == '\n' {
        lemma_lines_len_bound(s.drop_first(), Seq::empty());
        let rest = lines_after(s.drop_first(), Seq::empty());
        assert(ls == seq![strip_cr(cur)] + rest);
        assert forall|k: int| 0 <= k < ls.len() implies #[trigger] ls[k].len() <= s.len()
            + cur.len() by {
            if k > 0 {
                assert(ls[k] == rest[k - 1]);
            } else {
                assert(ls[0] == strip_cr(cur));
            }
        }
    } else {
        lemma_lines_len_bound(s.drop_first(), cur.push(s[0]));
        assert(ls == lines_after(s.drop_first(), cur.push(s[0])));
    }
}

/// Some text or a partial line always makes at least one line.
pub proof fn lemma_lines_nonempty(s: Seq<char>, cur: Seq<char>)
    ensures
        (s.len() > 0 || cur.len() > 0) ==> lines_after(s, cur).len() > 0,
    decreases s.len(),
{
    if s.len() > 0 {
        if s[0] == '\n' {
        } else {
            lemma_lines_nonempty(s.drop_first(), cur.push(s[0]));
        }
    }
}

/// The deep view of a character vector is its view.
pub proof fn lemma_deep_view_chars(v: Vec<char>)
    ensures
        v.deep_view() == v@,
{
    assert(v.deep_view() =~= v@);
}

pub proof fn lemma_find_from(s: Seq<char>, p: Seq<char>, i: int)
    requires
        0 <= i,
    ensures
        match find_from(s, p, i) {
            Some(k) => i <= k && occurs_at(s, p, k) && forall|j: int|
                i <= j < k ==> !occurs_at(s, p, j),
            None => forall|j: int| i <= j ==> !occurs_at(s, p, j),
        },
    decreases s.len() + 1 - i,
{
    if i + p.len() > s.len() {
    } else if occurs_at(s, p, i) {
    } else {
        lemma_find_from(s, p, i + 1);
    }
}

/// The characters of `s` split into lines.
pub fn split_lines(s: &[char]) -> (r: Vec<Vec<char>>)
    ensures
        r.deep_view() == lines_of(s@),
{
    let mut out: Vec<Vec<char>> = Vec::new();
    let mut cur: Vec<char> = Vec::new();
    let mut i: usize = 0;
    proof {
        assert(s@.skip(0) =~= s@);
        assert(out.deep_view() =~= Seq::<Seq<char>>::empty());
    }
    while i < s.len()
        invariant
            i <= s@.len(),
            lines_of(s@) == out.deep_view() + lines_after(s@.skip(i as int), cur@),
        decreases s@.len() - i,
    {
        let ghost rest = s@.skip(i as int);
        assert(rest[0] == s@[i as int]);
        assert(rest.drop_first() =~= s@.skip(i + 1));
        let c = s[i];
        if c == '\n' {
            let mut line = cur;
            let n = line.len();
            if n > 0 && line[n - 1] == '\r' {
                line.pop();
                assert(line@ =~= strip_cr(cur@));
            }
            let ghost before = out.deep_view();
            proof {
                lemma_deep_view_chars(line);
            }
            out.push(line);
            proof {
                assert(out.deep_view() =~= before.push(strip_cr(cur@)));
                assert(before + (seq![strip_cr(cur@)] + lines_after(s@.skip(i + 1), Seq::empty()))
                    =~= before.push(strip_cr(cur@)) + lines_after(s@.skip(i + 1), Seq::empty()));
            }
            cur = Vec::new();
            assert(cur@ =~= Seq::<char>::empty());
        } else {
            cur.push(c);
        }
        i = i + 1;
    }
    proof {
        assert(s@.skip(i as int) =~= Seq::<char>::empty());
    }
    if cur.len() > 0 {
        let ghost before = out.deep_view();
        let ghost last = cur@;
        proof {
            lemma_deep_view_chars(cur);
        }
        out.push(cur);
        assert(out.deep_view() =~= before + seq![last]);
    } else {
        assert(out.deep_view() + Seq::<Seq<char>>::empty() =~= out.deep_view());
    }
    out
}

/// The lines joined with line feeds between them.
pub fn join_with_newlines(ls: &Vec<Vec<char>>) -> (r: Vec<char>)
    ensures
        r@ == join_lines(ls.deep_view()),
{
    let mut out: Vec<char> = Vec::new();
    let mut i: usize = 0;
    while i < ls.len()
        invariant
            i <= ls@.len(),
            out@ == join_lines(ls.deep_view().take(i as int)),
        decreases ls@.len() - i,
    {
        let ghost prev = ls.deep_view().take(i as int);
        let ghost next = ls.deep_view().take(i + 1);
        assert(next.drop_last() =~= prev);
        assert(next.last() == ls@[i as int]@);
        if i > 0 {
            out.push('\n');
        }
        crate::text::push_all(&mut out, ls[i].as_slice());
        proof {
            if i == 0 {
                assert(out@ =~= next[0]);
            } else {
                assert(out@ =~= join_lines(prev) + seq!['\n'] + next.last());
            }
        }
        i = i + 1;
    }
    assert(ls.deep_view().take(ls@.len() as int) =~= ls.deep_view());
    out
}

/// The index of the first character of `s[from..to]` that is not whitespace, or `to`.
pub fn skip_whitespace(s: &[char], from: usize, to: usize) -> (k: usize)
    requires
        from <= to <= s@.len(),
    ensures
        from <= k <= to,
        trim_start(s@.subrange(from as int, to as int)) == s@.subrange(k as int, to as int),
{
    let mut k = from;
    while k < to && char_is_whitespace(s[k])
        invariant
            from <= k <= to,
            to <= s@.len(),
            trim_start(s@.subrange(from as int, to as int)) == trim_start(
                s@.subrange(k as int, to as int),
            ),
        decreases to - k,
    {
        assert(s@.subrange(k as int, to as int).drop_first() =~= s@.subrange(
            k + 1,
            to as int,
        ));
        k = k + 1;
    }
    if k < to {
        assert(s@.subrange(k as int, to as int)[0] == s@[k as int]);
    }
    k
}

/// The index just past the last character of `s[from..to]` that is not whitespace, or
/// `from`.
pub fn skip_whitespace_back(s: &[char], from: usize, to: usize) -> (k: usize)
    requires
        from <= to <= s@.len(),
    ensures
        from <= k <= to,
        trim_end(s@.subrange(from as int, to as int)) == s@.subrange(from as int, k as int),
{
    let mut k = to;
    while k > from && char_is_whitespace(s[k - 1])
        invariant
            from <= k <= to,
            to <= s@.len(),
            trim_end(s@.subrange(from as int, to as int)) == trim_end(
                s@.subrange(from as int, k as int),
            ),
        decreases k - from,
    {
        assert(s@.subrange(from as int, k as int).drop_last() =~= s@.subrange(
            from as int,
            k - 1,
        ));
        k = k - 1;
    }
    if k > from {
        assert(s@.subrange(from as int, k as int).last() == s@[k - 1]);
    }
    k
}

/// `s` with leading and trailing whitespace removed.
pub fn trimmed(s: &[char]) -> (r: Vec<char>)
    ensures
        r@ == trim(s@),
{
    let a = skip_whitespace(s, 0, s.len());
    let b = skip_whitespace_back(s, a, s.len());
    assert(s@.subrange(0, s@.len() as int) =~= s@);
    crate::text::chars_range(s, a, b)
}

/// `s` with trailing whitespace removed.
pub fn trimmed_end(s: &[char]) -> (r: Vec<char>)
    ensures
        r@ == trim_end(s@),
{
    let b = skip_whitespace_back(s, 0, s.len());
    assert(s@.subrange(0, s@.len() as int) =~= s@);
    crate::text::chars_range(s, 0, b)
}

/// `s` with leading whitespace removed.
pub fn trimmed_start(s: &[char]) -> (r: Vec<char>)
    ensures
        r@ == trim_start(s@),
{
    let a = skip_whitespace(s, 0, s.len());
    assert(s@.subrange(0, s@.len() as int) =~= s@);
    crate::text::chars_range(s, a, s.len())
}

/// Whether `p` occurs in `s` at index `i`.
pub fn occurs_at_exec(s: &[char], p: &[char], i: usize) -> (b: bool)
    ensures
        b == occurs_at(s@, p@, i as int),
{
    let n = s.len();
    if i > n || p.len() > n - i {
        return false;
    }
    let mut k: usize = 0;
    while k < p.len()
        invariant
            n == s@.len(),
            i + p@.len() <= s@.len(),
            k <= p@.len(),
            forall|j: int| 0 <= j < k ==> s@[i + j] == p@[j],
        decreases p@.len() - k,
    {
        if s[i + k] != p[k] {
            assert(s@.subrange(i as int, i + p@.len())[k as int] != p@[k as int]);
            return false;
        }
        k = k + 1;
    }
    assert(s@.subrange(i as int, i + p@.len()) =~= p@);
    true
}

/// Whether `s` starts with `p`.
pub fn starts_with(s: &[char], p: &[char]) -> (b: bool)
    ensures
        b == p@.is_prefix_of(s@),
{
    let b = occurs_at_exec(s, p, 0);
    proof {
        if b {
            assert(p@ =~= s@.subrange(0, p@.len() as int));
        }
    }
    b
}

/// Whether `s` starts with the characters of `p`.
pub fn starts_with_str(s: &[char], p: &str) -> (b: bool)
    ensures
        b == p@.is_prefix_of(s@),
{
    let pv = crate::text::chars_of(p);
    starts_with(s, pv.as_slice())
}

/// The first index at or after `from` where `p` occurs in `s`.
pub fn find(s: &[char], p: &[char], from: usize) -> (r: Option<usize>)
    ensures
        match r {
            Some(k) => find_from(s@, p@, from as int) == Some(k as int),
            None => find_from(s@, p@, from as int) is None,
        },
{
    let n = s.len();
    let mut i = from;
    loop
        invariant
            n == s@.len(),
            from <= i,
            find_from(s@, p@, from as int) == find_from(s@, p@, i as int),
        decreases n + 1 - i,
    {
        if i > n || p.len() > n - i {
            return None;
        }
        if occurs_at_exec(s, p, i) {
            return Some(i);
        }
        if i == n {
            assert(find_from(s@, p@, i + 1) is None);
            return None;
        }
        i = i + 1;
    }
}

/// Whether `p` occurs somewhere in `s`.
pub fn contains_exec(s: &[char], p: &[char]) -> (b: bool)
    ensures
        b == contains(s@, p@),
{
    proof {
        lemma_find_from(s@, p@, 0);
    }
    match find(s, p, 0) {
        Some(k) => {
            assert(occurs_at(s@, p@, k as int));
            true
        },
        None => false,
    }
}

/// Whether the characters of `p` occur somewhere in `s`.
pub fn contains_str(s: &[char], p: &str) -> (b: bool)
    ensures
        b == contains(s@, p@),
{
    let pv = crate::text::chars_of(p);
    contains_exec(s, pv.as_slice())
}

/// Whether the characters `v` spell exactly `lit`.
pub fn chars_are(v: &[char], lit: &str) -> (b: bool)
    ensures
        b == (v@ == lit@),
{
    let l = crate::text::chars_of(lit);
    crate::text::chars_equal(v, l.as_slice())
}

/// Whether two strings hold the same characters.
pub fn str_equal(a: &str, b: &str) -> (r: bool)
    ensures
        r == (a@ == b@),
{
    let av = crate::text::chars_of(a);
    chars_are(av.as_slice(), b)
}

/// The pieces of `s` that follow a partial piece `cur`, split at every `sep`.
pub open spec fn split_after(s: Seq<char>, sep: char, cur: Seq<char>) -> Seq<Seq<char>>
    decreases s.len(),
{
    if s.len() == 0 {
        seq![cur]
    } else if s[0] == sep {
        seq![cur] + split_after(s.drop_first(), sep, Seq::empty())
    } else {
        split_after(s.drop_first(), sep, cur.push(s[0]))
    }
}

/// The pieces of `s` between the occurrences of `sep`, as `str::split` yields them.
pub open spec fn split_on(s: Seq<char>, sep: char) -> Seq<Seq<char>> {
    split_after(s, sep, Seq::empty())
}

/// The pieces of `s` between the occurrences of `sep`.
pub fn split_chars(s: &[char], sep: char) -> (r: Vec<Vec<char>>)
    ensures
        r.deep_view() == split_on(s@, sep),
{
    let mut out: Vec<Vec<char>> = Vec::new();
    let mut cur: Vec<char> = Vec::new();
    let mut i: usize = 0;
    proof {
        assert(s@.skip(0) =~= s@);
        assert(out.deep_view() =~= Seq::<Seq<char>>::empty());
    }
    while i < s.len()
        invariant
            i <= s@.len(),
            split_on(s@, sep) == out.deep_view() + split_after(s@.skip(i as int), sep, cur@),
        decreases s@.len() - i,
    {
        let ghost rest = s@.skip(i as int);
        assert(rest[0] == s@[i as int]);
        assert(rest.drop_first() =~= s@.skip(i + 1));
        let c = s[i];
        if c == sep {
            let ghost before = out.deep_view();
            let ghost piece = cur@;
            proof {
                lemma_deep_view_chars(cur);
            }
            out.push(cur);
            proof {
                assert(out.deep_view() =~= before.push(piece));
                assert(before + (seq![piece] + split_after(s@.skip(i + 1), sep, Seq::empty()))
                    =~= before.push(piece) + split_after(s@.skip(i + 1), sep, Seq::empty()));
            }
            cur = Vec::new();
            assert(cur@ =~= Seq::<char>::empty());
        } else {
            cur.push(c);
        }
        i = i + 1;
    }
    proof {
        assert(s@.skip(i as int) =~= Seq::<char>::empty());
    }
    let ghost before = out.deep_view();
    let ghost last = cur@;
    proof {
        lemma_deep_view_chars(cur);
    }
    out.push(cur);
    assert(out.deep_view() =~= before + seq![last]);
    out
}

/// The words of `s` after a partial word `cur`: runs of characters between whitespace,
/// empty runs dropped.
pub open spec fn words_after(s: Seq<char>, cur: Seq<char>) -> Seq<Seq<char>>
    decreases s.len(),
{
    if s.len() == 0 {
        if cur.len() == 0 {
            Seq::empty()
        } else {
            seq![cur]
        }
    } else if is_whitespace(s[0]) {
        if cur.len() == 0 {
            words_after(s.drop_first(), Seq::empty())
        } else {
            seq![cur] + words_after(s.drop_first(), Seq::empty())
        }
    } else {
        words_after(s.drop_first(), cur.push(s[0]))
    }
}

/// The words of `s`, as `str::split_whitespace` yields them.
pub open spec fn words_of(s: Seq<char>) -> Seq<Seq<char>> {
    words_after(s, Seq::empty())
}

/// The words of `s`.
pub fn split_words(s: &[char]) -> (r: Vec<Vec<char>>)
    ensures
        r.deep_view() == words_of(s@),
{
    let mut out: Vec<Vec<char>> = Vec::new();
    let mut cur: Vec<char> = Vec::new();
    let mut i: usize = 0;
    proof {
        assert(s@.skip(0) =~= s@);
        assert(out.deep_view() =~= Seq::<Seq<char>>::empty());
    }
    while i < s.len()
        invariant
            i <= s@.len(),
            words_of(s@) == out.deep_view() + words_after(s@.skip(i as int), cur@),
        decreases s@.len() - i,
    {
        let ghost rest = s@.skip(i as int);
        assert(rest[0] == s@[i as int]);
        assert(rest.drop_first() =~= s@.skip(i + 1));
        let c = s[i];
        if char_is_whitespace(c) {
            if cur.len() > 0 {
                let ghost before = out.deep_view();
                let ghost piece = cur@;
                proof {
                    lemma_deep_view_chars(cur);
                }
                out.push(cur);
                proof {
                    assert(out.deep_view() =~= before.push(piece));
                    assert(before + (seq![piece] + words_after(s@.skip(i + 1), Seq::empty()))
                        =~= before.push(piece) + words_after(s@.skip(i + 1), Seq::empty()));
                }
                cur = Vec::new();
                assert(cur@ =~= Seq::<char>::empty());
            } else {
                assert(cur@ =~= Seq::<char>::empty());
            }
        } else {
            cur.push(c);
        }
        i = i + 1;
    }
    proof {
        assert(s@.skip(i as int) =~= Seq::<char>::empty());
    }
    if cur.len() > 0 {
        let ghost before = out.deep_view();
        let ghost last = cur@;
        proof {
            lemma_deep_view_chars(cur);
        }
        out.push(cur);
        assert(out.deep_view() =~= before + seq![last]);
    } else {
        assert(cur@ =~= Seq::<char>::empty());
        assert(out.deep_view() + Seq::<Seq<char>>::empty() =~= out.deep_view());
    }
    out
}

/// Whether `c` does not occur in `s`.
pub open spec fn free_of(s: Seq<char>, c: char) -> bool {
    forall|k: int| 0 <= k < s.len() ==> s[k] != c
}

/// Text without a line feed continues the partial line.
pub proof fn lemma_lines_after_plain(x: Seq<char>, t: Seq<char>, cur: Seq<char>)
    requires
        free_of(x, '\n'),
    ensures
        lines_after(x + t, cur) == lines_after(t, cur + x),
    decreases x.len(),
{
    if x.len() == 0 {
        assert(x + t =~= t);
        assert(cur + x =~= cur);
    } else {
        assert((x + t)[0] == x[0]);
        assert((x + t).drop_first() =~= x.drop_first() + t);
        lemma_lines_after_plain(x.drop_first(), t, cur.push(x[0]));
        assert(cur.push(x[0]) + x.drop_first() =~= cur + x);
    }
}

/// A line without a line feed, ended by one, is the first line of what it opens.
pub proof fn lemma_lines_line_then(x: Seq<char>, t: Seq<char>)
    requires
        free_of(x, '\n'),
    ensures
        lines_of(x + "\n"@ + t) == seq![strip_cr(x)] + lines_of(t),
{
    reveal_strlit("\n");
    assert(x + "\n"@ + t =~= x + ("\n"@ + t));
    lemma_lines_after_plain(x, "\n"@ + t, Seq::empty());
    assert(Seq::<char>::empty() + x =~= x);
    let u = "\n"@ + t;
    assert(u[0] == '\n');
    assert(u.drop_first() =~= t);
}

/// Text without the separator continues the partial piece.
pub proof fn lemma_split_after_plain(x: Seq<char>, t: Seq<char>, sep: char, cur: Seq<char>)
    requires
        free_of(x, sep),
    ensures
        split_after(x + t, sep, cur) == split_after(t, sep, cur + x),
    decreases x.len(),
{
    if x.len() == 0 {
        assert(x + t =~= t);
        assert(cur + x =~= cur);
    } else {
        assert((x + t)[0] == x[0]);
        assert((x + t).drop_first() =~= x.drop_first() + t);
        lemma_split_after_plain(x.drop_first(), t, sep, cur.push(x[0]));
        assert(cur.push(x[0]) + x.drop_first() =~= cur + x);
    }
}

/// A piece without the separator, followed by the separator, is the next piece.
pub proof fn lemma_split_piece_then(x: Seq<char>, t: Seq<char>, sep: char)
    requires
        free_of(x, sep),
    ensures
        split_after(x + seq![sep] + t, sep, Seq::empty()) == seq![x] + split_after(
            t,
            sep,
            Seq::empty(),
        ),
{
    assert(x + seq![sep] + t =~= x + (seq![sep] + t));
    lemma_split_after_plain(x, seq![sep] + t, sep, Seq::empty());
    assert(Seq::<char>::empty() + x =~= x);
    let u = seq![sep] + t;
    assert(u[0] == sep);
    assert(u.drop_first() =~= t);
}

/// Whether `t` has no whitespace at either end.
pub open spec fn trimmed_text(t: Seq<char>) -> bool {
    t.len() > 0 ==> !is_whitespace(t[0]) && !is_whitespace(t.last())
}

/// Trimming text padded with one space on each side gives the text back.
pub proof fn lemma_trim_padded(t: Seq<char>)
    requires
        trimmed_text(t),
    ensures
        trim(seq![' '] + t + seq![' ']) == t,
{
    let s = seq![' '] + t + seq![' '];
    assert(is_whitespace(' '));
    assert(s[0] == ' ');
    assert(s.drop_first() =~= t + seq![' ']);
    let u = t + seq![' '];
    if t.len() == 0 {
        assert(u =~= seq![' ']);
        assert(u.drop_first() =~= Seq::<char>::empty());
        assert(trim_start(u) == trim_start(u.drop_first()));
        assert(trim_start(s) =~= Seq::<char>::empty());
    } else {
        assert(u[0] == t[0]);
        assert(trim_start(s) == trim_start(s.drop_first()));
        assert(trim_start(u) == u);
        assert(trim_start(s) == u);
        assert(u.last() == ' ');
        assert(u.drop_last() =~= t);
        assert(trim_end(u) == trim_end(t));
        assert(t.last() == t[t.len() - 1]);
    }
}

} // verus!
