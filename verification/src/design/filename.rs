//! File names for documents: sanitized slugs, numbered names, and titles read back from
//! names.

use crate::design::docmeta::capitalized;
use crate::design::extract::byte_len;
use crate::pattern::{
    collapse_dashes, drop_number_prefix, keep_slug_chars, number_prefixed, regex_compiles,
    regex_replace, replace, replace_all, slug_char,
};
use crate::text::{all_ascii, ascii_lower, char_to_uppercase, chars_of, is_ascii_char, lowercase, push_all, push_str, str_to_lowercase, string_from_chars, zero_padded, zero_padded_chars};
use crate::textops::{join_with, lemma_deep_view_chars, split_words, words_of};
use vstd::prelude::*;

verus! {

/// The canonical decomposition (NFD) of a text that holds a character outside ASCII (what
/// `UnicodeNormalization::nfd` yields there).
pub uninterp spec fn nfd(s: Seq<char>) -> Seq<char>;

/// The canonical decomposition of a text: ASCII text is its own decomposition.
pub open spec fn decomposed(s: Seq<char>) -> Seq<char> {
    if all_ascii(s) {
        s
    } else {
        nfd(s)
    }
}

/// `unicode_normalization::UnicodeNormalization::nfd`, collected into a string.
/// Claims the result is the named decomposition, and that text made of ASCII characters
/// only, which have no decomposition, comes back unchanged.
#[verifier::external_body]
fn nfd_of(s: &str) -> (r: String)
    ensures
        r@ == decomposed(s@),
        !all_ascii(s@) ==> r@ == nfd(s@),
{
    unicode_normalization::UnicodeNormalization::nfd(s).collect()
}

/// The index of the last `c` in `s`.
pub open spec fn last_index_of(s: Seq<char>, c: char) -> Option<int>
    decreases s.len(),
{
    if s.len() == 0 {
        None
    } else if s.last() == c {
        Some(s.len() - 1)
    } else {
        last_index_of(s.drop_last(), c)
    }
}

/// A name without its extension: everything before its last dot.
pub open spec fn stem_of(name: Seq<char>) -> Seq<char> {
    match last_index_of(name, '.') {
        Some(p) => name.take(p),
        None => name,
    }
}

/// The characters of `s` that are ASCII.
pub open spec fn ascii_only(s: Seq<char>) -> Seq<char>
    decreases s.len(),
{
    if s.len() == 0 {
        Seq::empty()
    } else if is_ascii_char(s.last()) {
        ascii_only(s.drop_last()).push(s.last())
    } else {
        ascii_only(s.drop_last())
    }
}

/// `s` without leading and trailing hyphens.
pub open spec fn trim_dashes(s: Seq<char>) -> Seq<char>
    decreases s.len(),
{
    if s.len() > 0 && s[0] == '-' {
        trim_dashes(s.drop_first())
    } else if s.len() > 0 && s.last() == '-' {
        trim_dashes(s.drop_last())
    } else {
        s
    }
}

pub open spec fn number_prefix_pattern() -> Seq<char> {
    "^\\d{4}-"@
}

/// `text` with the regex replacement applied when the pattern compiles.
pub open spec fn replaced(p: Seq<char>, text: Seq<char>, rep: Seq<char>) -> Seq<char> {
    if regex_compiles(p) {
        regex_replace(p, text, rep)
    } else {
        text
    }
}

/// A name without an opening four-digit number and hyphen: on ASCII text exactly
/// `drop_number_prefix`; elsewhere what the regex `^\d{4}-` leaves, whose `\d` also
/// takes other decimal digits.
pub open spec fn without_number(s: Seq<char>) -> Seq<char> {
    if all_ascii(s) {
        drop_number_prefix(s)
    } else {
        replaced(number_prefix_pattern(), s, ""@)
    }
}

/// Spaces and underscores become hyphens.
pub open spec fn blank_to_dash(c: char) -> char {
    if c == ' ' || c == '_' {
        '-'
    } else {
        c
    }
}

/// The slug before its length is limited: the stem without a number prefix, decomposed and
/// kept to ASCII, lowercased, blanks as hyphens, only `[a-z0-9-]` kept, hyphen runs
/// collapsed, and hyphens trimmed from the ends.
pub open spec fn slug_body(name: Seq<char>) -> Seq<char> {
    let s1 = without_number(stem_of(name));
    let s2 = ascii_only(decomposed(s1));
    let s3 = lowercase(s2).map_values(|c: char| blank_to_dash(c));
    let s4 = keep_slug_chars(s3);
    let s5 = collapse_dashes(s4);
    trim_dashes(s5)
}

/// `s` with opening `dddd-` numbers removed until none is left.
pub open spec fn strip_number_prefixes(s: Seq<char>) -> Seq<char>
    decreases s.len(),
{
    if number_prefixed(s) {
        strip_number_prefixes(s.skip(5))
    } else {
        s
    }
}

/// The slug of a name: the slug body without opening numbers, cut to 100 characters (all
/// of them ASCII, so 100 bytes) and trimmed of hyphens again, and "untitled" when nothing
/// is left.
pub open spec fn slug_of(name: Seq<char>) -> Seq<char> {
    let b = strip_number_prefixes(slug_body(name));
    let c = if b.len() > 100 {
        trim_dashes(b.take(100))
    } else {
        b
    };
    if c.len() == 0 {
        "untitled"@
    } else {
        c
    }
}

/// No hyphen follows another.
pub open spec fn no_double_dash(s: Seq<char>) -> bool {
    forall|i: int| 0 <= i < s.len() - 1 ==> !(#[trigger] s[i] == '-' && s[i + 1] == '-')
}

/// The shape of every slug: 1 to 100 characters of `[a-z0-9-]`, no hyphen at either end
/// or after another, and no opening `dddd-` number.
pub open spec fn slug_shaped(s: Seq<char>) -> bool {
    &&& 0 < s.len() <= 100
    &&& forall|i: int| 0 <= i < s.len() ==> slug_char(#[trigger] s[i])
    &&& no_double_dash(s)
    &&& s[0] != '-'
    &&& s.last() != '-'
    &&& !number_prefixed(s)
}

fn stem(name: &[char]) -> (r: Vec<char>)
    ensures
        r@ == stem_of(name@),
{
    let mut k = name.len();
    assert(name@.take(name@.len() as int) =~= name@);
    while k > 0 && name[k - 1] != '.'
        invariant
            k <= name@.len(),
            last_index_of(name@, '.') == last_index_of(name@.take(k as int), '.'),
        decreases k,
    {
        assert(name@.take(k as int).drop_last() =~= name@.take(k - 1));
        k = k - 1;
    }
    proof {
        assert(name@.take(name@.len() as int) =~= name@);
    }
    if k == 0 {
        assert(name@.take(0) =~= Seq::<char>::empty());
        crate::text::chars_range(name, 0, name.len())
    } else {
        assert(name@.take(k as int).last() == '.');
        crate::text::chars_range(name, 0, k - 1)
    }
}

fn keep_ascii(s: &[char]) -> (r: Vec<char>)
    ensures
        r@ == ascii_only(s@),
{
    let mut out: Vec<char> = Vec::new();
    let mut i: usize = 0;
    while i < s.len()
        invariant
            i <= s@.len(),
            out@ == ascii_only(s@.take(i as int)),
        decreases s@.len() - i,
    {
        assert(s@.take(i + 1).drop_last() =~= s@.take(i as int));
        if (s[i] as u32) < 128 {
            out.push(s[i]);
        }
        i = i + 1;
    }
    assert(s@.take(s@.len() as int) =~= s@);
    out
}

fn trim_dash_chars(s: &[char]) -> (r: Vec<char>)
    ensures
        r@ == trim_dashes(s@),
{
    let mut a: usize = 0;
    let mut b: usize = s.len();
    assert(s@.subrange(0, s@.len() as int) =~= s@);
    while a < b && (s[a] == '-' || s[b - 1] == '-')
        invariant
            a <= b <= s@.len(),
            trim_dashes(s@) == trim_dashes(s@.subrange(a as int, b as int)),
        decreases b - a,
    {
        if s[a] == '-' {
            assert(s@.subrange(a as int, b as int).drop_first() =~= s@.subrange(a + 1, b as int));
            a = a + 1;
        } else {
            assert(s@.subrange(a as int, b as int).drop_last() =~= s@.subrange(a as int, b - 1));
            b = b - 1;
        }
    }
    proof {
        assert(s@.subrange(0, s@.len() as int) =~= s@);
    }
    crate::text::chars_range(s, a, b)
}

fn slug_body_chars(name: &str) -> (r: Vec<char>)
    ensures
        r@ == slug_body(name@),
{
    let nv = chars_of(name);
    let st = stem(nv.as_slice());
    let stem_text = string_from_chars(st.as_slice());
    let s1 = match replace("^\\d{4}-", stem_text.as_str(), "") {
        Some(s) => s,
        None => stem_text,
    };
    let decomposed_text = nfd_of(s1.as_str());
    let dv = chars_of(decomposed_text.as_str());
    let s2 = keep_ascii(dv.as_slice());
    let s2_text = string_from_chars(s2.as_slice());
    let lower = str_to_lowercase(s2_text.as_str());
    let lv = chars_of(lower.as_str());
    let mut s3: Vec<char> = Vec::new();
    let mut i: usize = 0;
    while i < lv.len()
        invariant
            i <= lv@.len(),
            s3@ == lv@.take(i as int).map_values(|c: char| blank_to_dash(c)),
        decreases lv@.len() - i,
    {
        let c = lv[i];
        s3.push(
            if c == ' ' || c == '_' {
                '-'
            } else {
                c
            },
        );
        i = i + 1;
        assert(s3@ =~= lv@.take(i as int).map_values(|c: char| blank_to_dash(c)));
    }
    assert(lv@.take(lv@.len() as int) =~= lv@);
    let s3_text = string_from_chars(s3.as_slice());
    let s4 = match replace_all("[^a-z0-9-]", s3_text.as_str(), "") {
        Some(s) => s,
        None => s3_text,
    };
    let s5 = match replace_all("-+", s4.as_str(), "-") {
        Some(s) => s,
        None => s4,
    };
    let s5v = chars_of(s5.as_str());
    trim_dash_chars(s5v.as_slice())
}

/// The filesystem-friendly slug of a name: at most 100 characters of `[a-z0-9-]`, with
/// an opening four-digit number removed, from the name and from the slug, so that the
/// slug of a slug is the slug itself.
pub fn sanitize_filename(name: &str) -> (r: String)
    ensures
        r@ == slug_of(name@),
        slug_shaped(r@),
{
    proof {
        lemma_slug_shape(name@);
    }
    let body = slug_body_chars(name);
    let mut cur = string_from_chars(body.as_slice());
    proof {
        lemma_slug_body_shape(name@);
    }
    loop
        invariant
            strip_number_prefixes(cur@) == strip_number_prefixes(slug_body(name@)),
            forall|i: int| 0 <= i < cur@.len() ==> slug_char(#[trigger] cur@[i]),
        ensures
            cur@ == strip_number_prefixes(slug_body(name@)),
        decreases cur@.len(),
    {
        proof {
            lemma_slug_chars_ascii(cur@);
        }
        let next = match replace("^\\d{4}-", cur.as_str(), "") {
            Some(s) => s,
            None => cur.clone(),
        };
        assert(next@ == drop_number_prefix(cur@));
        if chars_of(next.as_str()).len() == chars_of(cur.as_str()).len() {
            assert(!number_prefixed(cur@));
            break;
        }
        proof {
            assert(number_prefixed(cur@));
            assert forall|i: int| 0 <= i < next@.len() implies slug_char(#[trigger] next@[i]) by {
                assert(next@[i] == cur@[i + 5]);
            }
        }
        cur = next;
    }
    let cv = chars_of(cur.as_str());
    let cut = if cv.len() > 100 {
        let head = crate::text::chars_range(cv.as_slice(), 0, 100);
        assert(head@ =~= cv@.take(100));
        trim_dash_chars(head.as_slice())
    } else {
        cv
    };
    if cut.len() == 0 {
        "untitled".to_string()
    } else {
        string_from_chars(cut.as_slice())
    }
}

/// The slug of a string (the same as `sanitize_filename`).
pub fn slugify(s: &str) -> (r: String)
    ensures
        r@ == slug_of(s@),
        slug_shaped(r@),
{
    sanitize_filename(s)
}

/// A document's file name: its four-digit number, a hyphen, the slug of its title, `.md`.
pub fn build_filename(number: u32, title: &str) -> (r: String)
    ensures
        r@ == zero_padded(number as nat, 4) + "-"@ + slug_of(title@) + ".md"@,
{
    let slug = sanitize_filename(title);
    let mut v = zero_padded_chars(number as u64, 4);
    push_str(&mut v, "-");
    push_str(&mut v, slug.as_str());
    push_str(&mut v, ".md");
    string_from_chars(v.as_slice())
}

/// Hyphens and underscores read as spaces.
pub open spec fn dash_to_blank(c: char) -> char {
    if c == '-' || c == '_' {
        ' '
    } else {
        c
    }
}

/// The title a file name spells: its stem without a number prefix, hyphens and underscores
/// as spaces, each word capitalized, joined with single spaces.
pub open spec fn title_of_name(filename: Seq<char>) -> Seq<char> {
    let s1 = replaced(number_prefix_pattern(), stem_of(filename), ""@);
    let s2 = s1.map_values(|c: char| dash_to_blank(c));
    join_with(words_of(s2).map_values(|w: Seq<char>| capitalized(w)), " "@)
}

/// Reads a title back from a file name: `0001-my-feature.md` gives "My Feature".
pub fn filename_to_title(filename: &str) -> (r: String)
    ensures
        r@ == title_of_name(filename@),
{
    let nv = chars_of(filename);
    let st = stem(nv.as_slice());
    let stem_text = string_from_chars(st.as_slice());
    let s1 = match replace("^\\d{4}-", stem_text.as_str(), "") {
        Some(s) => s,
        None => stem_text,
    };
    let s1v = chars_of(s1.as_str());
    let mut s2: Vec<char> = Vec::new();
    let mut i: usize = 0;
    while i < s1v.len()
        invariant
            i <= s1v@.len(),
            s2@ == s1v@.take(i as int).map_values(|c: char| dash_to_blank(c)),
        decreases s1v@.len() - i,
    {
        let c = s1v[i];
        s2.push(
            if c == '-' || c == '_' {
                ' '
            } else {
                c
            },
        );
        i = i + 1;
        assert(s2@ =~= s1v@.take(i as int).map_values(|c: char| dash_to_blank(c)));
    }
    assert(s1v@.take(s1v@.len() as int) =~= s1v@);
    let words = split_words(s2.as_slice());
    let ghost ws = words.deep_view();
    let mut out: Vec<char> = Vec::new();
    let mut k: usize = 0;
    while k < words.len()
        invariant
            k <= words@.len(),
            ws == words.deep_view(),
            out@ == join_with(ws.take(k as int).map_values(|w: Seq<char>| capitalized(w)), " "@),
        decreases words@.len() - k,
    {
        proof {
            assert(ws[k as int] == words@[k as int]@);
            lemma_deep_view_chars(words@[k as int]);
        }
        let mut c: Vec<char> = Vec::new();
        let w = &words[k];
        if w.len() > 0 {
            let up = char_to_uppercase(w[0]);
            push_str(&mut c, up.as_str());
            let rest = crate::text::chars_range(w.as_slice(), 1, w.len());
            push_all(&mut c, rest.as_slice());
            assert(rest@ =~= w@.skip(1));
        }
        assert(c@ =~= capitalized(w@));
        let ghost prev = ws.take(k as int).map_values(|w: Seq<char>| capitalized(w));
        let ghost next = ws.take(k + 1).map_values(|w: Seq<char>| capitalized(w));
        assert(next.drop_last() =~= prev);
        assert(next.last() == capitalized(ws[k as int]));
        if k > 0 {
            push_str(&mut out, " ");
        }
        push_all(&mut out, c.as_slice());
        proof {
            reveal_strlit(" ");
            if k == 0 {
                assert(out@ =~= next[0]);
            } else {
                assert(out@ =~= join_with(prev, " "@) + " "@ + next.last());
            }
        }
        k = k + 1;
    }
    assert(ws.take(words@.len() as int) =~= ws);
    string_from_chars(out.as_slice())
}

proof fn lemma_keep_slug_chars(s: Seq<char>)
    ensures
        forall|i: int| 0 <= i < keep_slug_chars(s).len() ==> slug_char(#[trigger] keep_slug_chars(s)[i]),
        (forall|i: int| 0 <= i < s.len() ==> slug_char(#[trigger] s[i])) ==> keep_slug_chars(s) == s,
    decreases s.len(),
{
    if s.len() > 0 {
        let t = s.drop_last();
        lemma_keep_slug_chars(t);
        let k = keep_slug_chars(t);
        if slug_char(s.last()) {
            let r = k.push(s.last());
            assert forall|i: int| 0 <= i < r.len() implies slug_char(#[trigger] r[i]) by {
                if i < k.len() {
                    assert(r[i] == k[i]);
                }
            }
        }
        if forall|i: int| 0 <= i < s.len() ==> slug_char(#[trigger] s[i]) {
            assert(slug_char(s[s.len() - 1]));
            assert forall|i: int| 0 <= i < t.len() implies slug_char(#[trigger] t[i]) by {
                assert(t[i] == s[i]);
            }
            assert(t.push(s.last()) =~= s);
        }
    }
}

proof fn lemma_collapse_dashes(s: Seq<char>)
    requires
        forall|i: int| 0 <= i < s.len() ==> slug_char(#[trigger] s[i]),
    ensures
        forall|i: int| 0 <= i < collapse_dashes(s).len() ==> slug_char(#[trigger] collapse_dashes(s)[i]),
        no_double_dash(collapse_dashes(s)),
        s.len() > 0 ==> collapse_dashes(s).len() > 0 && collapse_dashes(s).last() == s.last(),
        no_double_dash(s) ==> collapse_dashes(s) == s,
    decreases s.len(),
{
    if s.len() > 0 {
        let t = s.drop_last();
        assert forall|i: int| 0 <= i < t.len() implies slug_char(#[trigger] t[i]) by {
            assert(t[i] == s[i]);
        }
        lemma_collapse_dashes(t);
        let c = collapse_dashes(t);
        if s.last() == '-' && s.len() >= 2 && s[s.len() - 2] == '-' {
            assert(t.last() == s[s.len() - 2]);
        } else {
            let r = c.push(s.last());
            assert(slug_char(s[s.len() - 1]));
            assert forall|i: int| 0 <= i < r.len() - 1 implies !(#[trigger] r[i] == '-' && r[i + 1]
                == '-') by {
                if i < r.len() - 2 {
                    assert(r[i] == c[i] && r[i + 1] == c[i + 1]);
                } else {
                    assert(r[i] == c.last());
                    assert(c.last() == t.last());
                    assert(t.last() == s[s.len() - 2]);
                }
            }
            if no_double_dash(s) {
                assert forall|i: int| 0 <= i < t.len() - 1 implies !(#[trigger] t[i] == '-' && t[i + 1]
                    == '-') by {
                    assert(t[i] == s[i] && t[i + 1] == s[i + 1]);
                }
                assert(t.push(s.last()) =~= s);
            }
        }
    }
}

proof fn lemma_trim_dashes_sub(s: Seq<char>)
    ensures
        exists|a: int, b: int| 0 <= a <= b <= s.len() && trim_dashes(s) == s.subrange(a, b),
        trim_dashes(s).len() > 0 ==> trim_dashes(s)[0] != '-' && trim_dashes(s).last() != '-',
        s.len() > 0 && s[0] != '-' ==> trim_dashes(s).is_prefix_of(s),
    decreases s.len(),
{
    if s.len() > 0 && s[0] == '-' {
        let t = s.drop_first();
        lemma_trim_dashes_sub(t);
        let (a, b) = choose|a: int, b: int| 0 <= a <= b <= t.len() && trim_dashes(t) == t.subrange(a, b);
        assert(t.subrange(a, b) =~= s.subrange(a + 1, b + 1));
    } else if s.len() > 0 && s.last() == '-' {
        let t = s.drop_last();
        lemma_trim_dashes_sub(t);
        let (a, b) = choose|a: int, b: int| 0 <= a <= b <= t.len() && trim_dashes(t) == t.subrange(a, b);
        assert(t.subrange(a, b) =~= s.subrange(a, b));
        if s[0] != '-' {
            if t.len() == 0 {
                assert(trim_dashes(t) =~= Seq::<char>::empty());
            } else {
                assert(t[0] == s[0]);
            }
        }
    } else {
        assert(s.subrange(0, s.len() as int) =~= s);
    }
}

/// What a subrange keeps of a slug's characters.
proof fn lemma_sub_slug(s: Seq<char>, a: int, b: int)
    requires
        0 <= a <= b <= s.len(),
        forall|i: int| 0 <= i < s.len() ==> slug_char(#[trigger] s[i]),
        no_double_dash(s),
    ensures
        forall|i: int| 0 <= i < s.subrange(a, b).len() ==> slug_char(#[trigger] s.subrange(a, b)[i]),
        no_double_dash(s.subrange(a, b)),
{
    let t = s.subrange(a, b);
    assert forall|i: int| 0 <= i < t.len() implies slug_char(#[trigger] t[i]) by {
        assert(t[i] == s[a + i]);
    }
    assert forall|i: int| 0 <= i < t.len() - 1 implies !(#[trigger] t[i] == '-' && t[i + 1] == '-') by {
        assert(t[i] == s[a + i] && t[i + 1] == s[a + i + 1]);
    }
}

/// The slug body is made of `[a-z0-9-]`, with no hyphen after another or at either end.
proof fn lemma_slug_body_shape(name: Seq<char>)
    ensures
        forall|i: int| 0 <= i < slug_body(name).len() ==> slug_char(#[trigger] slug_body(name)[i]),
        no_double_dash(slug_body(name)),
        slug_body(name).len() > 0 ==> slug_body(name)[0] != '-' && slug_body(name).last() != '-',
{
    let s1 = without_number(stem_of(name));
    let s2 = ascii_only(decomposed(s1));
    let s3 = lowercase(s2).map_values(|c: char| blank_to_dash(c));
    let s4 = keep_slug_chars(s3);
    let s5 = collapse_dashes(s4);
    lemma_keep_slug_chars(s3);
    lemma_collapse_dashes(s4);
    lemma_trim_dashes_sub(s5);
    let (a, b) = choose|a: int, b: int| 0 <= a <= b <= s5.len() && trim_dashes(s5) == s5.subrange(a, b);
    lemma_sub_slug(s5, a, b);
}

proof fn lemma_strip_number_prefixes(s: Seq<char>)
    requires
        forall|i: int| 0 <= i < s.len() ==> slug_char(#[trigger] s[i]),
        no_double_dash(s),
        s.len() > 0 ==> s[0] != '-' && s.last() != '-',
    ensures
        forall|i: int|
            0 <= i < strip_number_prefixes(s).len() ==> slug_char(#[trigger] strip_number_prefixes(s)[i]),
        no_double_dash(strip_number_prefixes(s)),
        strip_number_prefixes(s).len() > 0 ==> strip_number_prefixes(s)[0] != '-'
            && strip_number_prefixes(s).last() != '-',
        !number_prefixed(strip_number_prefixes(s)),
    decreases s.len(),
{
    if number_prefixed(s) {
        let t = s.skip(5);
        lemma_sub_slug(s, 5, s.len() as int);
        assert(t =~= s.subrange(5, s.len() as int));
        if t.len() > 0 {
            assert(t[0] == s[5]);
            assert(!(s[4] == '-' && s[5] == '-'));
        }
        lemma_strip_number_prefixes(t);
    }
}

proof fn lemma_slug_chars_ascii(s: Seq<char>)
    requires
        forall|i: int| 0 <= i < s.len() ==> slug_char(#[trigger] s[i]),
    ensures
        all_ascii(s),
        byte_len(s) == s.len(),
    decreases s.len(),
{
    assert forall|i: int| 0 <= i < s.len() implies is_ascii_char(#[trigger] s[i]) by {
        assert(slug_char(s[i]));
    }
    if s.len() > 0 {
        let t = s.drop_last();
        assert forall|i: int| 0 <= i < t.len() implies slug_char(#[trigger] t[i]) by {
            assert(t[i] == s[i]);
        }
        lemma_slug_chars_ascii(t);
        assert(slug_char(s[s.len() - 1]));
    }
}

/// Every slug has the shape of a slug: 1 to 100 characters of `[a-z0-9-]`, as many bytes
/// as characters, no hyphen at either end or after another, and no opening `dddd-`.
pub proof fn lemma_slug_shape(name: Seq<char>)
    ensures
        slug_shaped(slug_of(name)),
        byte_len(slug_of(name)) == slug_of(name).len(),
{
    lemma_slug_body_shape(name);
    let b = strip_number_prefixes(slug_body(name));
    lemma_strip_number_prefixes(slug_body(name));
    if b.len() > 100 {
        let t = b.take(100);
        lemma_sub_slug(b, 0, 100);
        assert(t =~= b.subrange(0, 100));
        lemma_trim_dashes_sub(t);
        let (x, y) = choose|x: int, y: int| 0 <= x <= y <= t.len() && trim_dashes(t) == t.subrange(x, y);
        lemma_sub_slug(t, x, y);
        let c = trim_dashes(t);
        if c.len() >= 5 {
            assert(c.is_prefix_of(t));
            assert(c[0] == b[0] && c[1] == b[1] && c[2] == b[2] && c[3] == b[3] && c[4] == b[4]);
        }
    }
    reveal_strlit("untitled");
    let u = "untitled"@;
    assert(slug_char(u[0]) && slug_char(u[1]) && slug_char(u[2]) && slug_char(u[3]));
    assert(slug_char(u[4]) && slug_char(u[5]) && slug_char(u[6]) && slug_char(u[7]));
    assert(no_double_dash(u));
    let r = slug_of(name);
    lemma_slug_chars_ascii(r);
}

proof fn lemma_no_dot(s: Seq<char>)
    requires
        forall|i: int| 0 <= i < s.len() ==> slug_char(#[trigger] s[i]),
    ensures
        last_index_of(s, '.') is None,
    decreases s.len(),
{
    if s.len() > 0 {
        let t = s.drop_last();
        assert forall|i: int| 0 <= i < t.len() implies slug_char(#[trigger] t[i]) by {
            assert(t[i] == s[i]);
        }
        assert(slug_char(s[s.len() - 1]));
        lemma_no_dot(t);
    }
}

proof fn lemma_ascii_only_ascii(s: Seq<char>)
    requires
        all_ascii(s),
    ensures
        ascii_only(s) == s,
    decreases s.len(),
{
    if s.len() > 0 {
        lemma_ascii_only_ascii(s.drop_last());
        assert(is_ascii_char(s[s.len() - 1]));
        assert(s.drop_last().push(s.last()) =~= s);
    }
}

/// A slug is its own slug: sanitizing a sanitized name changes nothing.
pub proof fn lemma_slug_idempotent(name: Seq<char>)
    ensures
        slug_of(slug_of(name)) == slug_of(name),
{
    lemma_slug_shape(name);
    let o = slug_of(name);
    lemma_no_dot(o);
    lemma_slug_chars_ascii(o);
    assert(stem_of(o) == o);
    assert(without_number(o) == o);
    lemma_ascii_only_ascii(o);
    assert(ascii_only(decomposed(o)) == o);
    assert(lowercase(o) == ascii_lower(o));
    assert(ascii_lower(o) =~= o) by {
        assert forall|i: int| 0 <= i < o.len() implies #[trigger] ascii_lower(o)[i] == o[i] by {
            assert(slug_char(o[i]));
        }
    }
    let s3 = lowercase(o).map_values(|c: char| blank_to_dash(c));
    assert(s3 =~= o) by {
        assert forall|i: int| 0 <= i < o.len() implies #[trigger] s3[i] == o[i] by {
            assert(slug_char(o[i]));
        }
    }
    lemma_keep_slug_chars(o);
    lemma_collapse_dashes(o);
    assert(trim_dashes(o) == o);
    assert(slug_body(o) == o);
    assert(strip_number_prefixes(o) == o);
}

/// A document file name starts with the number written in four digits and a hyphen, and
/// ends with `.md`.
pub proof fn lemma_filename_format(number: u32, title: Seq<char>)
    ensures
        (zero_padded(number as nat, 4) + "-"@).is_prefix_of(
            zero_padded(number as nat, 4) + "-"@ + slug_of(title) + ".md"@,
        ),
        ".md"@.is_suffix_of(zero_padded(number as nat, 4) + "-"@ + slug_of(title) + ".md"@),
{
    reveal_strlit(".md");
    let p = zero_padded(number as nat, 4) + "-"@;
    let f = p + slug_of(title) + ".md"@;
    assert(f.subrange(0, p.len() as int) =~= p);
    assert(f.subrange(f.len() - 3, f.len() as int) =~= ".md"@);
}

} // verus!
