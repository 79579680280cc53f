//! Metadata guessed from a document's content, and a review of its markdown.

use crate::design::doc::DocState;
use crate::pattern::{capture, regex_capture, regex_compiles};
use crate::sexp::lexer::{utf8_len, utf8_len_of};
use crate::text::{
    chars_of, decimal, decimal_chars, is_whitespace, lowercase, push_all, push_str,
    str_to_lowercase, string_from_chars,
};
use crate::textops::{
    contains, contains_str, find, find_from, lemma_deep_view_chars, lemma_find_from, lines_of,
    split_lines, starts_with_str, trim, trim_start, trimmed, trimmed_start,
};
use vstd::prelude::*;

verus! {

/// The length of text in UTF-8 bytes (what `str::len` counts).
pub open spec fn byte_len(s: Seq<char>) -> nat
    decreases s.len(),
{
    if s.len() == 0 {
        0
    } else {
        byte_len(s.drop_last()) + utf8_len(s.last())
    }
}

/// A character takes one to four bytes.
pub proof fn lemma_byte_len_bounds(s: Seq<char>)
    ensures
        s.len() <= byte_len(s) <= 4 * s.len(),
    decreases s.len(),
{
    if s.len() > 0 {
        lemma_byte_len_bounds(s.drop_last());
    }
}

/// The UTF-8 length of a character sequence.
pub fn utf8_length(s: &[char]) -> (n: usize)
    requires
        4 * s@.len() <= usize::MAX,
    ensures
        n == byte_len(s@),
{
    let mut n: usize = 0;
    let mut i: usize = 0;
    while i < s.len()
        invariant
            i <= s@.len(),
            4 * s@.len() <= usize::MAX,
            n == byte_len(s@.take(i as int)),
            n <= 4 * i,
        decreases s@.len() - i,
    {
        proof {
            assert(s@.take(i + 1).drop_last() =~= s@.take(i as int));
            assert(s@.take(i + 1).last() == s@[i as int]);
        }
        n = n + utf8_len_of(s[i]);
        i = i + 1;
    }
    assert(s@.take(s@.len() as int) =~= s@);
    n
}

/// Whether the content, after leading whitespace, opens with a `---` line.
pub open spec fn opens_frontmatter(content: Seq<char>) -> bool {
    "---\n"@.is_prefix_of(trim_start(content))
}

/// Whether byte 4 of the content falls between two characters, at character `k`.
pub open spec fn byte_four_at(content: Seq<char>, k: int) -> bool {
    0 <= k <= content.len() && byte_len(content.take(k)) == 4
}

/// Whether byte 4 of the content falls between two characters.
pub open spec fn byte_four_boundary(content: Seq<char>) -> bool {
    exists|k: int| byte_four_at(content, k)
}

/// Where the body starts after a frontmatter block closed by `\n---\n` (or, failing that,
/// by `\n---`), searching from character `k`; 0 when neither closes it.
pub open spec fn body_start(content: Seq<char>, k: int) -> int {
    match find_from(content, "\n---\n"@, k) {
        Some(a) => a + 4,
        None => match find_from(content, "\n---"@, k) {
            Some(a) => a + 3,
            None => 0,
        },
    }
}

/// A longer prefix takes more bytes.
pub proof fn lemma_byte_len_prefix_grows(s: Seq<char>, a: int, b: int)
    requires
        0 <= a < b <= s.len(),
    ensures
        byte_len(s.take(a)) < byte_len(s.take(b)),
    decreases b - a,
{
    assert(s.take(b).drop_last() =~= s.take(b - 1));
    if a < b - 1 {
        lemma_byte_len_prefix_grows(s, a, b - 1);
    }
}

/// The character where byte 4 falls, when it falls between characters.
pub open spec fn byte_four_index(content: Seq<char>) -> int {
    choose|k: int| byte_four_at(content, k)
}

/// The text after the frontmatter block, or the whole content when it has none.
pub open spec fn body_of(content: Seq<char>) -> Seq<char> {
    if opens_frontmatter(content) {
        let s = body_start(content, byte_four_index(content));
        if s < content.len() {
            content.skip(s)
        } else {
            content
        }
    } else {
        content
    }
}

fn byte_four(cs: &Vec<char>) -> (k: usize)
    requires
        byte_four_boundary(cs@),
        4 * cs@.len() <= usize::MAX,
    ensures
        byte_four_at(cs@, k as int),
        k == byte_four_index(cs@),
{
    let ghost w = choose|k: int| byte_four_at(cs@, k);
    let mut k: usize = 0;
    let mut n: usize = 0;
    while n < 4 && k < cs.len()
        invariant
            k <= cs@.len(),
            n == byte_len(cs@.take(k as int)),
            byte_four_at(cs@, w),
            k <= w,
            4 * cs@.len() <= usize::MAX,
            n <= 4 * k,
        decreases cs@.len() - k,
    {
        proof {
            assert(cs@.take(k + 1).drop_last() =~= cs@.take(k as int));
            if k as int == w {
                assert(n == 4);
            }
        }
        n = n + utf8_len_of(cs[k]);
        k = k + 1;
    }
    proof {
        if (k as int) < w {
            lemma_byte_len_prefix_grows(cs@, k as int, w);
        }
        assert(k as int == w);
    }
    k
}

/// The first `# ` heading of the body, trimmed.
pub open spec fn first_h1_from(ls: Seq<Seq<char>>, i: int) -> Option<Seq<char>>
    decreases ls.len() - i,
{
    if i < 0 || i >= ls.len() {
        None
    } else if "# "@.is_prefix_of(trim(ls[i])) {
        Some(trim(trim(ls[i]).skip(2)))
    } else {
        first_h1_from(ls, i + 1)
    }
}

/// The author a pattern finds: its capture, trimmed, when that is 3 to 99 bytes long.
pub open spec fn author_by(p: Seq<char>, body: Seq<char>) -> Option<Seq<char>> {
    if regex_compiles(p) {
        match regex_capture(p, body, 1) {
            Some(m) => if 2 < byte_len(trim(m)) < 100 {
                Some(trim(m))
            } else {
                None
            },
            None => None,
        }
    } else {
        None
    }
}

pub open spec fn author_pattern_1() -> Seq<char> {
    "(?i)author:\\s*(.+)"@
}

pub open spec fn author_pattern_2() -> Seq<char> {
    "(?i)by\\s+([A-Z][a-z]+\\s+[A-Z][a-z]+)"@
}

pub open spec fn author_pattern_3() -> Seq<char> {
    "(?i)written by\\s+(.+)"@
}

/// The author the first matching pattern finds, in the order "author:", "by NAME NAME",
/// "written by".
pub open spec fn author_of(body: Seq<char>) -> Option<Seq<char>> {
    match author_by(author_pattern_1(), body) {
        Some(a) => Some(a),
        None => match author_by(author_pattern_2(), body) {
            Some(a) => Some(a),
            None => author_by(author_pattern_3(), body),
        },
    }
}

/// The state the wording of a document hints at, first match wins.
pub open spec fn state_hint_of(content: Seq<char>) -> Option<DocState> {
    let l = lowercase(content);
    if contains(l, "work in progress"@) || contains(l, "wip"@) {
        Some(DocState::Draft)
    } else if contains(l, "ready for review"@) || contains(l, "please review"@) {
        Some(DocState::UnderReview)
    } else if contains(l, "approved"@) || contains(l, "accepted"@) {
        Some(DocState::Accepted)
    } else if contains(l, "implemented"@) || contains(l, "complete"@) {
        Some(DocState::Final)
    } else if contains(l, "rejected"@) || contains(l, "not approved"@) {
        Some(DocState::Rejected)
    } else if contains(l, "deferred"@) || contains(l, "postponed"@) {
        Some(DocState::Deferred)
    } else {
        None
    }
}

/// The state a document's wording hints at.
pub fn detect_state_hint(content: &str) -> (r: Option<DocState>)
    ensures
        r == state_hint_of(content@),
{
    let lower = str_to_lowercase(content);
    let lv = chars_of(lower.as_str());
    let l = lv.as_slice();
    if contains_str(l, "work in progress") || contains_str(l, "wip") {
        Some(DocState::Draft)
    } else if contains_str(l, "ready for review") || contains_str(l, "please review") {
        Some(DocState::UnderReview)
    } else if contains_str(l, "approved") || contains_str(l, "accepted") {
        Some(DocState::Accepted)
    } else if contains_str(l, "implemented") || contains_str(l, "complete") {
        Some(DocState::Final)
    } else if contains_str(l, "rejected") || contains_str(l, "not approved") {
        Some(DocState::Rejected)
    } else if contains_str(l, "deferred") || contains_str(l, "postponed") {
        Some(DocState::Deferred)
    } else {
        None
    }
}

/// What the content tells of a document.
#[derive(Debug, Clone)]
pub struct ExtractedMetadata {
    pub title: Option<String>,
    pub author: Option<String>,
    pub state_hint: Option<DocState>,
    pub has_frontmatter: bool,
    pub first_heading: Option<String>,
}

pub open spec fn opt_text(o: Option<String>) -> Option<Seq<char>> {
    match o {
        Some(s) => Some(s@),
        None => None,
    }
}

fn body_chars(content: &str) -> (r: Vec<char>)
    requires
        opens_frontmatter(content@) ==> byte_four_boundary(content@),
    ensures
        r@ == body_of(content@),
{
    let cs = chars_of(content);
    let t = trimmed_start(cs.as_slice());
    if !starts_with_str(t.as_slice(), "---\n") {
        return cs;
    }
    let k = byte_four(&cs);
    let m1 = chars_of("\n---\n");
    let m2 = chars_of("\n---");
    proof {
        reveal_strlit("\n---\n");
        reveal_strlit("\n---");
        lemma_find_from(cs@, m1@, k as int);
        lemma_find_from(cs@, m2@, k as int);
    }
    let start: usize = match find(cs.as_slice(), m1.as_slice(), k) {
        Some(a) => a + 4,
        None => match find(cs.as_slice(), m2.as_slice(), k) {
            Some(a) => a + 3,
            None => 0,
        },
    };
    if start < cs.len() {
        let r = crate::text::chars_range(cs.as_slice(), start, cs.len());
        assert(r@ =~= cs@.skip(start as int));
        r
    } else {
        cs
    }
}

fn first_h1(bv: &Vec<char>) -> (r: Option<Vec<char>>)
    ensures
        match r {
            Some(h) => first_h1_from(lines_of(bv@), 0) == Some(h@),
            None => first_h1_from(lines_of(bv@), 0) is None,
        },
{
    let lines = split_lines(bv.as_slice());
    let ghost ls = lines.deep_view();
    let mut i: usize = 0;
    while i < lines.len()
        invariant
            i <= lines@.len(),
            ls == lines.deep_view(),
            ls == lines_of(bv@),
            first_h1_from(ls, 0) == first_h1_from(ls, i as int),
        decreases lines@.len() - i,
    {
        proof {
            assert(ls[i as int] == lines@[i as int]@);
            lemma_deep_view_chars(lines@[i as int]);
            reveal_strlit("# ");
        }
        let tl = trimmed(lines[i].as_slice());
        if starts_with_str(tl.as_slice(), "# ") {
            let rest = crate::text::chars_range(tl.as_slice(), 2, tl.len());
            assert(rest@ =~= tl@.skip(2));
            return Some(trimmed(rest.as_slice()));
        }
        i = i + 1;
    }
    None
}

fn author_from(pattern: &str, body: &str) -> (r: Option<String>)
    ensures
        opt_text(r) == author_by(pattern@, body@),
{
    match capture(pattern, body, 1) {
        Some(Some(m)) => {
            let mv = chars_of(m.as_str());
            let t = trimmed(mv.as_slice());
            proof {
                crate::textops::lemma_trim_len(mv@);
            }
            let n = utf8_length(t.as_slice());
            if n > 2 && n < 100 {
                Some(string_from_chars(t.as_slice()))
            } else {
                None
            }
        },
        _ => None,
    }
}

/// Reads what a document's content tells: whether it has frontmatter, its first `# `
/// heading (also taken as its title), an author named in the text, and a state hint.
pub open spec fn extracted_ok(content: Seq<char>, m: ExtractedMetadata) -> bool {
    let body = body_of(content);
    &&& m.has_frontmatter == opens_frontmatter(content)
    &&& opt_text(m.first_heading) == first_h1_from(lines_of(body), 0)
    &&& opt_text(m.title) == first_h1_from(lines_of(body), 0)
    &&& opt_text(m.author) == author_of(body)
    &&& m.state_hint == state_hint_of(body)
}

impl ExtractedMetadata {
    /// Extracts metadata from a document's content. When the content opens with
    /// frontmatter, its first four bytes must end on a character boundary (the content is
    /// sliced there).
    pub fn from_content(content: &str) -> (m: Self)
        requires
            opens_frontmatter(content@) ==> byte_four_boundary(content@),
        ensures
            extracted_ok(content@, m),
    {
        let cs = chars_of(content);
        let t = trimmed_start(cs.as_slice());
        let has_frontmatter = starts_with_str(t.as_slice(), "---\n");
        let bv = body_chars(content);
        let body = string_from_chars(bv.as_slice());
        let heading = first_h1(&bv);
        let (first_heading, title) = match heading {
            Some(h) => (Some(string_from_chars(h.as_slice())), Some(string_from_chars(h.as_slice()))),
            None => (None, None),
        };
        let author = match author_from("(?i)author:\\s*(.+)", body.as_str()) {
            Some(a) => Some(a),
            None => match author_from("(?i)by\\s+([A-Z][a-z]+\\s+[A-Z][a-z]+)", body.as_str()) {
                Some(a) => Some(a),
                None => author_from("(?i)written by\\s+(.+)", body.as_str()),
            },
        };
        let state_hint = detect_state_hint(body.as_str());
        ExtractedMetadata { title, author, state_hint, has_frontmatter, first_heading }
    }
}

// ---------------------------------------------------------------------------
// Reviewing the markdown
// ---------------------------------------------------------------------------

/// The text reviewed: what follows a frontmatter block closed by `\n---\n`, or the whole
/// content.
pub open spec fn review_body(content: Seq<char>) -> Seq<char> {
    if opens_frontmatter(content) {
        match find_from(content, "\n---\n"@, byte_four_index(content)) {
            Some(a) => content.skip(a + 4),
            None => content,
        }
    } else {
        content
    }
}

/// How many lines are `# ` headings.
pub open spec fn h1_count(ls: Seq<Seq<char>>) -> nat
    decreases ls.len(),
{
    if ls.len() == 0 {
        0
    } else {
        h1_count(ls.drop_last()) + if "# "@.is_prefix_of(trim(ls.last())) {
            1nat
        } else {
            0nat
        }
    }
}

/// Whether a trimmed line starts with a bullet marker.
pub open spec fn is_bullet_mark(c: char) -> bool {
    c == '-' || c == '*' || c == '+'
}

/// The bullet marker of each bullet line, in order.
pub open spec fn bullet_marks(ls: Seq<Seq<char>>) -> Seq<char>
    decreases ls.len(),
{
    if ls.len() == 0 {
        Seq::empty()
    } else {
        let t = trim(ls.last());
        if t.len() > 0 && is_bullet_mark(t[0]) {
            bullet_marks(ls.drop_last()).push(t[0])
        } else {
            bullet_marks(ls.drop_last())
        }
    }
}

/// How many lines are longer than 120 bytes.
pub open spec fn long_count(ls: Seq<Seq<char>>) -> nat
    decreases ls.len(),
{
    if ls.len() == 0 {
        0
    } else {
        long_count(ls.drop_last()) + if byte_len(ls.last()) > 120 {
            1nat
        } else {
            0nat
        }
    }
}

/// Whether not every bullet uses the first bullet's marker.
pub open spec fn mixed_marks(bs: Seq<char>) -> bool {
    bs.len() > 0 && exists|i: int| 0 <= i < bs.len() && #[trigger] bs[i] != bs[0]
}

/// The issues a review of the markdown reports, in order: the `# ` heading count, mixed
/// bullet markers, and many long lines.
pub open spec fn review_issues(content: Seq<char>) -> Seq<Seq<char>> {
    let ls = lines_of(review_body(content));
    let h = h1_count(ls);
    let a = if h == 0 {
        seq!["No H1 heading found"@]
    } else if h > 1 {
        seq!["Multiple H1 headings found ("@ + decimal(h) + ")"@]
    } else {
        Seq::empty()
    };
    let b = if mixed_marks(bullet_marks(ls)) {
        seq!["Inconsistent bullet point markers (-, *, +)"@]
    } else {
        Seq::empty()
    };
    let l = long_count(ls);
    let c = if l > 5 {
        seq!["Many long lines ("@ + decimal(l) + " lines > 120 chars)"@]
    } else {
        Seq::empty()
    };
    a + b + c
}

fn text_of(lit: &str) -> (r: String)
    ensures
        r@ == lit@,
{
    lit.to_string()
}

fn review_body_chars(content: &str) -> (r: Vec<char>)
    requires
        opens_frontmatter(content@) ==> byte_four_boundary(content@),
    ensures
        r@ == review_body(content@),
        4 * r@.len() <= usize::MAX,
{
    let cs = chars_of(content);
    let t = trimmed_start(cs.as_slice());
    if !starts_with_str(t.as_slice(), "---\n") {
        return cs;
    }
    let k = byte_four(&cs);
    let m1 = chars_of("\n---\n");
    proof {
        reveal_strlit("\n---\n");
        lemma_find_from(cs@, m1@, k as int);
    }
    match find(cs.as_slice(), m1.as_slice(), k) {
        Some(a) => {
            let r = crate::text::chars_range(cs.as_slice(), a + 4, cs.len());
            assert(r@ =~= cs@.skip(a + 4));
            r
        },
        None => cs,
    }
}

/// Reviews the markdown of a document: exactly one `# ` heading, one bullet marker, and
/// few lines longer than 120 bytes. When the content opens with frontmatter, its first four
/// bytes must end on a character boundary (the content is sliced there).
pub fn analyze_markdown(content: &str) -> (r: Vec<String>)
    requires
        opens_frontmatter(content@) ==> byte_four_boundary(content@),
    ensures
        r@.map_values(|s: String| s@) == review_issues(content@),
{
    let body = review_body_chars(content);
    let lines = split_lines(body.as_slice());
    let ghost ls = lines.deep_view();
    let mut h1: usize = 0;
    let mut marks: Vec<char> = Vec::new();
    let mut long: usize = 0;
    let mut i: usize = 0;
    while i < lines.len()
        invariant
            i <= lines@.len(),
            ls == lines.deep_view(),
            ls == lines_of(body@),
            4 * body@.len() <= usize::MAX,
            h1 == h1_count(ls.take(i as int)),
            h1 <= i,
            marks@ == bullet_marks(ls.take(i as int)),
            long == long_count(ls.take(i as int)),
            long <= i,
        decreases lines@.len() - i,
    {
        proof {
            assert(ls.take(i + 1).drop_last() =~= ls.take(i as int));
            assert(ls.take(i + 1).last() == ls[i as int]);
            assert(ls[i as int] == lines@[i as int]@);
            lemma_deep_view_chars(lines@[i as int]);
        }
        let t = trimmed(lines[i].as_slice());
        if starts_with_str(t.as_slice(), "# ") {
            h1 = h1 + 1;
        }
        if t.len() > 0 && (t[0] == '-' || t[0] == '*' || t[0] == '+') {
            marks.push(t[0]);
        }
        let line = &lines[i];
        proof {
            crate::textops::lemma_lines_len_bound(body@, Seq::empty());
            assert(ls[i as int].len() <= body@.len());
            assert(line@ == ls[i as int]);
        }
        let n = utf8_length(line.as_slice());
        if n > 120 {
            long = long + 1;
        }
        i = i + 1;
    }
    assert(ls.take(lines@.len() as int) =~= ls);
    let mut out: Vec<String> = Vec::new();
    if h1 == 0 {
        out.push(text_of("No H1 heading found"));
    } else if h1 > 1 {
        let mut v: Vec<char> = Vec::new();
        push_str(&mut v, "Multiple H1 headings found (");
        let d = decimal_chars(h1 as u64);
        push_all(&mut v, d.as_slice());
        push_str(&mut v, ")");
        out.push(string_from_chars(v.as_slice()));
    }
    let ghost after_h = out@.map_values(|s: String| s@);
    let mut mixed = false;
    let mut k: usize = 0;
    while k < marks.len()
        invariant
            k <= marks@.len(),
            mixed == exists|j: int| 0 <= j < k && #[trigger] marks@[j] != marks@[0],
        decreases marks@.len() - k,
    {
        if marks[k] != marks[0] {
            mixed = true;
        }
        k = k + 1;
    }
    if mixed {
        out.push(text_of("Inconsistent bullet point markers (-, *, +)"));
    }
    let ghost after_b = out@.map_values(|s: String| s@);
    if long > 5 {
        let mut v: Vec<char> = Vec::new();
        push_str(&mut v, "Many long lines (");
        let d = decimal_chars(long as u64);
        push_all(&mut v, d.as_slice());
        push_str(&mut v, " lines > 120 chars)");
        out.push(string_from_chars(v.as_slice()));
    }
    assert(out@.map_values(|s: String| s@) =~= review_issues(content@));
    out
}

/// Whether a character reads as text: visible ASCII or whitespace.
pub open spec fn is_text_char(c: char) -> bool {
    (33 <= (c as u32) <= 126) || is_whitespace(c)
}

/// How many characters of `s` read as text.
pub open spec fn text_char_count(s: Seq<char>) -> nat
    decreases s.len(),
{
    if s.len() == 0 {
        0
    } else {
        text_char_count(s.drop_last()) + if is_text_char(s.last()) {
            1nat
        } else {
            0nat
        }
    }
}

/// The byte length of the content and how many of its characters read as text; a document
/// looks like markdown when it is longer than 10 bytes and more than nine tenths of that
/// length are text characters.
pub fn markdown_stats(content: &str) -> (r: (usize, usize))
    ensures
        r.0 == byte_len(content@),
        r.1 == text_char_count(content@),
{
    let cs = chars_of(content);
    let n = utf8_length(cs.as_slice());
    let mut count: usize = 0;
    let mut i: usize = 0;
    while i < cs.len()
        invariant
            i <= cs@.len(),
            count == text_char_count(cs@.take(i as int)),
            count <= i,
        decreases cs@.len() - i,
    {
        proof {
            assert(cs@.take(i + 1).drop_last() =~= cs@.take(i as int));
            assert(cs@.take(i + 1).last() == cs@[i as int]);
        }
        let c = cs[i];
        let u = c as u32;
        let graphic = 33 <= u && u <= 126;
        if graphic || crate::text::char_is_whitespace(c) {
            count = count + 1;
        }
        i = i + 1;
    }
    assert(cs@.take(cs@.len() as int) =~= cs@);
    (n, count)
}

/// Whether content looks like markdown: longer than 10 bytes, and more than nine tenths of
/// its byte length counted in characters that read as text.
pub open spec fn looks_like_markdown(content: Seq<char>) -> bool {
    &&& byte_len(content) > 10
    &&& 10 * text_char_count(content) > 9 * byte_len(content)
}

/// Whether content looks like markdown rather than binary data.
pub fn is_valid_markdown(content: &str) -> (b: bool)
    ensures
        b == looks_like_markdown(content@),
{
    let (len, text) = markdown_stats(content);
    if len <= 10 {
        return false;
    }
    (text as u128) * 10 > (len as u128) * 9
}

} // verus!
