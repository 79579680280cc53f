//! Design document states and the places they live in.

use crate::text::{all_ascii, ascii_lower, chars_of, is_ascii_alpha, is_ascii_char, is_ascii_space, lowercase, str_to_lowercase};
use crate::textops::{contains, contains_str, starts_with_str, trim_end, trim_start, trimmed_start};
use crate::paths::{
    file_name_of, join, parent_of, path_file_name, path_join, path_parent, path_strip_prefix,
    path_with_file_name, strip_prefix_of, with_file_name,
};
use crate::pattern::{capture, is_match, regex_capture, regex_compiles, regex_is_match};
use crate::builder::helpers::{parse_i128, parse_i128_spec};
use crate::textops::{chars_are, trim, trimmed};
use vstd::prelude::*;

verus! {

/// The lifecycle state of a design document.
#[derive(Debug, Clone, Copy, PartialEq, Eq, Structural)]
pub enum DocState {
    Draft,
    UnderReview,
    Revised,
    Accepted,
    Active,
    Final,
    Deferred,
    Rejected,
    Withdrawn,
    Superseded,
}

/// The display name of a state.
pub open spec fn state_name(s: DocState) -> Seq<char> {
    match s {
        DocState::Draft => "Draft"@,
        DocState::UnderReview => "Under Review"@,
        DocState::Revised => "Revised"@,
        DocState::Accepted => "Accepted"@,
        DocState::Active => "Active"@,
        DocState::Final => "Final"@,
        DocState::Deferred => "Deferred"@,
        DocState::Rejected => "Rejected"@,
        DocState::Withdrawn => "Withdrawn"@,
        DocState::Superseded => "Superseded"@,
    }
}

/// The directory that holds the documents of a state.
pub open spec fn state_directory(s: DocState) -> Seq<char> {
    match s {
        DocState::Draft => "01-draft"@,
        DocState::UnderReview => "02-under-review"@,
        DocState::Revised => "03-revised"@,
        DocState::Accepted => "04-accepted"@,
        DocState::Active => "05-active"@,
        DocState::Final => "06-final"@,
        DocState::Deferred => "07-deferred"@,
        DocState::Rejected => "08-rejected"@,
        DocState::Withdrawn => "09-withdrawn"@,
        DocState::Superseded => "10-superseded"@,
    }
}

/// The state whose directory is named `d`, current names and legacy ones alike.
pub open spec fn state_of_directory(d: Seq<char>) -> Option<DocState> {
    if d == "01-draft"@ || d == "01-drafts"@ {
        Some(DocState::Draft)
    } else if d == "02-under-review"@ {
        Some(DocState::UnderReview)
    } else if d == "03-revised"@ {
        Some(DocState::Revised)
    } else if d == "04-accepted"@ {
        Some(DocState::Accepted)
    } else if d == "05-active"@ {
        Some(DocState::Active)
    } else if d == "06-final"@ || d == "03-final"@ {
        Some(DocState::Final)
    } else if d == "07-deferred"@ {
        Some(DocState::Deferred)
    } else if d == "08-rejected"@ {
        Some(DocState::Rejected)
    } else if d == "09-withdrawn"@ {
        Some(DocState::Withdrawn)
    } else if d == "10-superseded"@ || d == "04-superseded"@ {
        Some(DocState::Superseded)
    } else {
        None
    }
}

/// Hyphens and underscores read as spaces.
pub open spec fn dash_to_space(c: char) -> char {
    if c == '-' || c == '_' {
        ' '
    } else {
        c
    }
}

/// The key a state name is looked up by: lowercased, hyphens and underscores turned
/// into spaces, surrounding whitespace removed.
pub open spec fn state_key(s: Seq<char>) -> Seq<char> {
    trim(lowercase(s).map_values(|c: char| dash_to_space(c)))
}

/// The state a normalized key names.
pub open spec fn state_of_key(k: Seq<char>) -> Option<DocState> {
    if k == "draft"@ {
        Some(DocState::Draft)
    } else if k == "under review"@ || k == "review"@ || k == "underreview"@ {
        Some(DocState::UnderReview)
    } else if k == "revised"@ {
        Some(DocState::Revised)
    } else if k == "accepted"@ {
        Some(DocState::Accepted)
    } else if k == "active"@ {
        Some(DocState::Active)
    } else if k == "final"@ {
        Some(DocState::Final)
    } else if k == "deferred"@ {
        Some(DocState::Deferred)
    } else if k == "rejected"@ {
        Some(DocState::Rejected)
    } else if k == "withdrawn"@ {
        Some(DocState::Withdrawn)
    } else if k == "superseded"@ {
        Some(DocState::Superseded)
    } else {
        None
    }
}

proof fn lemma_key_of_ascii(n: Seq<char>, k: Seq<char>)
    requires
        all_ascii(n),
        ascii_lower(n).map_values(|c: char| dash_to_space(c)) == k,
        k.len() > 0,
        k[0] != ' ',
        k.last() != ' ',
        forall|i: int| 0 <= i < k.len() ==> is_ascii_char(#[trigger] k[i]),
        !is_ascii_space(k[0]),
        !is_ascii_space(k.last()),
    ensures
        state_key(n) == k,
{
    assert(is_ascii_char(k[0]));
    assert(is_ascii_char(k[k.len() - 1]));
    assert(trim_start(k) == k);
    assert(trim_end(k) == k);
}

/// Any text that differs from the name of a state only in the case of its letters (the
/// name in capitals, say) reads back as that state.
pub proof fn lemma_state_name_any_case(s: DocState, t: Seq<char>)
    requires
        all_ascii(t),
        ascii_lower(t) == ascii_lower(state_name(s)),
    ensures
        state_of_key(state_key(t)) == Some(s),
{
    let n = state_name(s);
    let k = ascii_lower(n).map_values(|c: char| dash_to_space(c));
    reveal_strlit("Draft");
    reveal_strlit("Under Review");
    reveal_strlit("Revised");
    reveal_strlit("Accepted");
    reveal_strlit("Active");
    reveal_strlit("Final");
    reveal_strlit("Deferred");
    reveal_strlit("Rejected");
    reveal_strlit("Withdrawn");
    reveal_strlit("Superseded");
    reveal_strlit("draft");
    reveal_strlit("under review");
    reveal_strlit("revised");
    reveal_strlit("accepted");
    reveal_strlit("active");
    reveal_strlit("final");
    reveal_strlit("deferred");
    reveal_strlit("rejected");
    reveal_strlit("withdrawn");
    reveal_strlit("superseded");
    reveal_strlit("review");
    reveal_strlit("underreview");
    assert(all_ascii(n));
    let key = match s {
        DocState::Draft => "draft"@,
        DocState::UnderReview => "under review"@,
        DocState::Revised => "revised"@,
        DocState::Accepted => "accepted"@,
        DocState::Active => "active"@,
        DocState::Final => "final"@,
        DocState::Deferred => "deferred"@,
        DocState::Rejected => "rejected"@,
        DocState::Withdrawn => "withdrawn"@,
        DocState::Superseded => "superseded"@,
    };
    assert(k =~= key);
    lemma_key_of_ascii(n, key);
    assert(key.len() > 0 && key[0] == key[0]);
    assert(state_of_key(key) == Some(s));
    assert(lowercase(t) == lowercase(n));
    assert(state_key(t) == state_key(n));
}

/// Every state, in lifecycle order.
pub open spec fn all_states_seq() -> Seq<DocState> {
    seq![
        DocState::Draft,
        DocState::UnderReview,
        DocState::Revised,
        DocState::Accepted,
        DocState::Active,
        DocState::Final,
        DocState::Deferred,
        DocState::Rejected,
        DocState::Withdrawn,
        DocState::Superseded,
    ]
}

impl DocState {
    /// The display name of this state.
    pub fn as_str(&self) -> (r: &'static str)
        ensures
            r@ == state_name(*self),
    {
        match self {
            DocState::Draft => "Draft",
            DocState::UnderReview => "Under Review",
            DocState::Revised => "Revised",
            DocState::Accepted => "Accepted",
            DocState::Active => "Active",
            DocState::Final => "Final",
            DocState::Deferred => "Deferred",
            DocState::Rejected => "Rejected",
            DocState::Withdrawn => "Withdrawn",
            DocState::Superseded => "Superseded",
        }
    }

    /// The directory name for this state.
    pub fn directory(&self) -> (r: &'static str)
        ensures
            r@ == state_directory(*self),
    {
        match self {
            DocState::Draft => "01-draft",
            DocState::UnderReview => "02-under-review",
            DocState::Revised => "03-revised",
            DocState::Accepted => "04-accepted",
            DocState::Active => "05-active",
            DocState::Final => "06-final",
            DocState::Deferred => "07-deferred",
            DocState::Rejected => "08-rejected",
            DocState::Withdrawn => "09-withdrawn",
            DocState::Superseded => "10-superseded",
        }
    }

    /// Reads a state name written in any case, with hyphens, underscores or spaces
    /// between words and whitespace around it.
    pub fn from_str_flexible(s: &str) -> (r: Option<DocState>)
        ensures
            r == state_of_key(state_key(s@)),
    {
        let lower = str_to_lowercase(s);
        let cs = chars_of(lower.as_str());
        let mut mapped: Vec<char> = Vec::new();
        let mut i: usize = 0;
        while i < cs.len()
            invariant
                i <= cs@.len(),
                mapped@ == cs@.subrange(0, i as int).map_values(|c: char| dash_to_space(c)),
            decreases cs@.len() - i,
        {
            let c = cs[i];
            let d = if c == '-' || c == '_' {
                ' '
            } else {
                c
            };
            mapped.push(d);
            i = i + 1;
            assert(mapped@ =~= cs@.subrange(0, i as int).map_values(|c: char| dash_to_space(c)));
        }
        assert(cs@.subrange(0, cs@.len() as int) =~= cs@);
        let key = trimmed(mapped.as_slice());
        let k = key.as_slice();
        if chars_are(k, "draft") {
            Some(DocState::Draft)
        } else if chars_are(k, "under review") || chars_are(k, "review") || chars_are(
            k,
            "underreview",
        ) {
            Some(DocState::UnderReview)
        } else if chars_are(k, "revised") {
            Some(DocState::Revised)
        } else if chars_are(k, "accepted") {
            Some(DocState::Accepted)
        } else if chars_are(k, "active") {
            Some(DocState::Active)
        } else if chars_are(k, "final") {
            Some(DocState::Final)
        } else if chars_are(k, "deferred") {
            Some(DocState::Deferred)
        } else if chars_are(k, "rejected") {
            Some(DocState::Rejected)
        } else if chars_are(k, "withdrawn") {
            Some(DocState::Withdrawn)
        } else if chars_are(k, "superseded") {
            Some(DocState::Superseded)
        } else {
            None
        }
    }

    /// The state whose directory is named `dir` (legacy names included).
    pub fn from_directory(dir: &str) -> (r: Option<DocState>)
        ensures
            r == state_of_directory(dir@),
    {
        let dv = chars_of(dir);
        let d = dv.as_slice();
        if chars_are(d, "01-draft") || chars_are(d, "01-drafts") {
            Some(DocState::Draft)
        } else if chars_are(d, "02-under-review") {
            Some(DocState::UnderReview)
        } else if chars_are(d, "03-revised") {
            Some(DocState::Revised)
        } else if chars_are(d, "04-accepted") {
            Some(DocState::Accepted)
        } else if chars_are(d, "05-active") {
            Some(DocState::Active)
        } else if chars_are(d, "06-final") || chars_are(d, "03-final") {
            Some(DocState::Final)
        } else if chars_are(d, "07-deferred") {
            Some(DocState::Deferred)
        } else if chars_are(d, "08-rejected") {
            Some(DocState::Rejected)
        } else if chars_are(d, "09-withdrawn") {
            Some(DocState::Withdrawn)
        } else if chars_are(d, "10-superseded") || chars_are(d, "04-superseded") {
            Some(DocState::Superseded)
        } else {
            None
        }
    }

    /// Every state, in lifecycle order.
    pub fn all_states() -> (r: Vec<DocState>)
        ensures
            r@ == all_states_seq(),
    {
        let r = vec![
            DocState::Draft,
            DocState::UnderReview,
            DocState::Revised,
            DocState::Accepted,
            DocState::Active,
            DocState::Final,
            DocState::Deferred,
            DocState::Rejected,
            DocState::Withdrawn,
            DocState::Superseded,
        ];
        assert(r@ =~= all_states_seq());
        r
    }

    /// The display names of every state, in lifecycle order.
    pub fn all_state_names() -> (r: Vec<&'static str>)
        ensures
            r@.len() == all_states_seq().len(),
            forall|i: int| 0 <= i < r@.len() ==> r@[i]@ == state_name(#[trigger] all_states_seq()[i]),
    {
        let states = Self::all_states();
        let mut names: Vec<&'static str> = Vec::new();
        let mut i: usize = 0;
        while i < states.len()
            invariant
                i <= states@.len(),
                states@ == all_states_seq(),
                names@.len() == i,
                forall|j: int| 0 <= j < i ==> names@[j]@ == state_name(#[trigger] all_states_seq()[j]),
            decreases states@.len() - i,
        {
            names.push(states[i].as_str());
            i = i + 1;
        }
        names
    }
}

/// A word made of ASCII letters and inner spaces keys to its ASCII lowercase.
proof fn lemma_key_of_words(w: Seq<char>)
    requires
        w.len() > 0,
        forall|i: int| 0 <= i < w.len() ==> is_ascii_alpha(#[trigger] w[i]) || w[i] == ' ',
        is_ascii_alpha(w[0]),
        is_ascii_alpha(w.last()),
    ensures
        state_key(w) == ascii_lower(w),
{
    assert(all_ascii(w));
    let m = ascii_lower(w).map_values(|c: char| dash_to_space(c));
    assert(m =~= ascii_lower(w));
    assert(trim_start(m) == m);
    assert(trim_end(m) == m);
}

/// Reading back the directory name of a state gives that state.
pub proof fn lemma_directory_round_trip(s: DocState)
    ensures
        state_of_directory(state_directory(s)) == Some(s),
{
    reveal_strlit("01-draft");
    reveal_strlit("01-drafts");
    reveal_strlit("02-under-review");
    reveal_strlit("03-revised");
    reveal_strlit("04-accepted");
    reveal_strlit("05-active");
    reveal_strlit("06-final");
    reveal_strlit("03-final");
    reveal_strlit("07-deferred");
    reveal_strlit("08-rejected");
    reveal_strlit("09-withdrawn");
    reveal_strlit("10-superseded");
    reveal_strlit("04-superseded");
    let d = state_directory(s);
    match s {
        DocState::Draft => {},
        DocState::UnderReview => {
            assert(d[1] != "01-draft"@[1]);
            assert(d[1] != "01-drafts"@[1]);
        },
        DocState::Revised => {
            assert(d[1] != "01-draft"@[1]);
            assert(d[1] != "01-drafts"@[1]);
            assert(d[1] != "02-under-review"@[1]);
        },
        DocState::Accepted => {
            assert(d[1] != "01-draft"@[1]);
            assert(d[1] != "01-drafts"@[1]);
            assert(d[1] != "02-under-review"@[1]);
            assert(d[1] != "03-revised"@[1]);
        },
        DocState::Active => {
            assert(d[1] != "01-draft"@[1]);
            assert(d[1] != "01-drafts"@[1]);
            assert(d[1] != "02-under-review"@[1]);
            assert(d[1] != "03-revised"@[1]);
            assert(d[1] != "04-accepted"@[1]);
        },
        DocState::Final => {
            assert(d[1] != "01-draft"@[1]);
            assert(d[1] != "01-drafts"@[1]);
            assert(d[1] != "02-under-review"@[1]);
            assert(d[1] != "03-revised"@[1]);
            assert(d[1] != "04-accepted"@[1]);
            assert(d[1] != "05-active"@[1]);
        },
        DocState::Deferred => {
            assert(d[1] != "01-draft"@[1]);
            assert(d[1] != "01-drafts"@[1]);
            assert(d[1] != "02-under-review"@[1]);
            assert(d[1] != "03-revised"@[1]);
            assert(d[1] != "04-accepted"@[1]);
            assert(d[1] != "05-active"@[1]);
            assert(d[1] != "06-final"@[1]);
            assert(d[1] != "03-final"@[1]);
        },
        DocState::Rejected => {
            assert(d[1] != "01-draft"@[1]);
            assert(d[1] != "01-drafts"@[1]);
            assert(d[1] != "02-under-review"@[1]);
            assert(d[1] != "03-revised"@[1]);
            assert(d[1] != "04-accepted"@[1]);
            assert(d[1] != "05-active"@[1]);
            assert(d[1] != "06-final"@[1]);
            assert(d[1] != "03-final"@[1]);
            assert(d[1] != "07-deferred"@[1]);
        },
        DocState::Withdrawn => {
            assert(d[1] != "01-draft"@[1]);
            assert(d[1] != "01-drafts"@[1]);
            assert(d[1] != "02-under-review"@[1]);
            assert(d[1] != "03-revised"@[1]);
            assert(d[1] != "04-accepted"@[1]);
            assert(d[1] != "05-active"@[1]);
            assert(d[1] != "06-final"@[1]);
            assert(d[1] != "03-final"@[1]);
            assert(d[1] != "07-deferred"@[1]);
            assert(d[1] != "08-rejected"@[1]);
        },
        DocState::Superseded => {
            assert(d[0] != "01-draft"@[0]);
            assert(d[0] != "01-drafts"@[0]);
            assert(d[0] != "02-under-review"@[0]);
            assert(d[0] != "03-revised"@[0]);
            assert(d[0] != "04-accepted"@[0]);
            assert(d[0] != "05-active"@[0]);
            assert(d[0] != "06-final"@[0]);
            assert(d[0] != "03-final"@[0]);
            assert(d[0] != "07-deferred"@[0]);
            assert(d[0] != "08-rejected"@[0]);
            assert(d[0] != "09-withdrawn"@[0]);
        },
    }
}

/// Reading back the display name of a state gives that state.
pub proof fn lemma_name_round_trip(s: DocState)
    ensures
        state_of_key(state_key(state_name(s))) == Some(s),
{
    reveal_strlit("Draft");
    reveal_strlit("Under Review");
    reveal_strlit("Revised");
    reveal_strlit("Accepted");
    reveal_strlit("Active");
    reveal_strlit("Final");
    reveal_strlit("Deferred");
    reveal_strlit("Rejected");
    reveal_strlit("Withdrawn");
    reveal_strlit("Superseded");
    reveal_strlit("draft");
    reveal_strlit("under review");
    reveal_strlit("review");
    reveal_strlit("underreview");
    reveal_strlit("revised");
    reveal_strlit("accepted");
    reveal_strlit("active");
    reveal_strlit("final");
    reveal_strlit("deferred");
    reveal_strlit("rejected");
    reveal_strlit("withdrawn");
    reveal_strlit("superseded");
    let n = state_name(s);
    lemma_key_of_words(n);
    let l = ascii_lower(n);
    match s {
        DocState::Draft => assert(l =~= "draft"@),
        DocState::UnderReview => assert(l =~= "under review"@),
        DocState::Revised => assert(l =~= "revised"@),
        DocState::Accepted => assert(l =~= "accepted"@),
        DocState::Active => assert(l =~= "active"@),
        DocState::Final => assert(l =~= "final"@),
        DocState::Deferred => assert(l =~= "deferred"@),
        DocState::Rejected => assert(l =~= "rejected"@),
        DocState::Withdrawn => assert(l =~= "withdrawn"@),
        DocState::Superseded => assert(l =~= "superseded"@),
    }
}

/// Distinct states have distinct display names and distinct directories.
pub proof fn lemma_names_distinct(a: DocState, b: DocState)
    requires
        a != b,
    ensures
        state_name(a) != state_name(b),
        state_directory(a) != state_directory(b),
{
    lemma_directory_round_trip(a);
    lemma_directory_round_trip(b);
    lemma_name_round_trip(a);
    lemma_name_round_trip(b);
}

/// Every state occurs in the list of all states, exactly once.
pub proof fn lemma_all_states_complete(s: DocState)
    ensures
        all_states_seq().contains(s),
        forall|i: int, j: int|
            0 <= i < j < all_states_seq().len() ==> all_states_seq()[i] != all_states_seq()[j],
{
    let a = all_states_seq();
    match s {
        DocState::Draft => assert(a[0] == s),
        DocState::UnderReview => assert(a[1] == s),
        DocState::Revised => assert(a[2] == s),
        DocState::Accepted => assert(a[3] == s),
        DocState::Active => assert(a[4] == s),
        DocState::Final => assert(a[5] == s),
        DocState::Deferred => assert(a[6] == s),
        DocState::Rejected => assert(a[7] == s),
        DocState::Withdrawn => assert(a[8] == s),
        DocState::Superseded => assert(a[9] == s),
    }
}

/// The state named by the directory that holds the file at `p`.
pub open spec fn state_of_parent_dir(p: Seq<char>) -> Option<DocState> {
    match path_parent(p) {
        None => None,
        Some(q) => match path_file_name(q) {
            None => None,
            Some(n) => state_of_directory(n),
        },
    }
}

/// The state named by the directory that holds `file_path`, if it is a state directory.
pub fn state_from_directory(file_path: &str) -> (r: Option<DocState>)
    ensures
        r == state_of_parent_dir(file_path@),
{
    match parent_of(file_path) {
        None => None,
        Some(parent) => match file_name_of(parent.as_str()) {
            None => None,
            Some(name) => DocState::from_directory(name.as_str()),
        },
    }
}

/// Whether `file_path` lies directly in one of the state directories.
pub fn is_in_state_dir(file_path: &str) -> (b: bool)
    ensures
        b == state_of_parent_dir(file_path@) is Some,
{
    state_from_directory(file_path).is_some()
}

/// Whether the content, after leading whitespace, opens with a `---` line.
pub open spec fn has_frontmatter_spec(content: Seq<char>) -> bool {
    "---\n"@.is_prefix_of(trim_start(content))
}

/// Whether the content opens (after leading whitespace) with a YAML frontmatter marker.
pub fn has_frontmatter(content: &str) -> (b: bool)
    ensures
        b == has_frontmatter_spec(content@),
{
    let cs = chars_of(content);
    let t = trimmed_start(cs.as_slice());
    starts_with_str(t.as_slice(), "---\n")
}

/// Whether the frontmatter still carries one of the template's placeholder values.
pub open spec fn has_placeholder_spec(content: Seq<char>) -> bool {
    contains(content, "number: NNNN"@) || contains(content, "number: 0\n"@) || contains(
        content,
        "author: Unknown"@,
    ) || contains(content, "title: \"\""@)
}

/// Whether the frontmatter still carries one of the template's placeholder values.
pub fn has_placeholder_values(content: &str) -> (b: bool)
    ensures
        b == has_placeholder_spec(content@),
{
    let cs = chars_of(content);
    let c = cs.as_slice();
    contains_str(c, "number: NNNN") || contains_str(c, "number: 0\n") || contains_str(
        c,
        "author: Unknown",
    ) || contains_str(c, "title: \"\"")
}

/// The pattern of a four-digit number prefix.
pub open spec fn number_prefix_pattern() -> Seq<char> {
    "^\\d{4}-"@
}

/// Whether the filename starts with a four-digit number and a hyphen.
pub fn has_number_prefix(filename: &str) -> (b: bool)
    ensures
        b == (regex_compiles(number_prefix_pattern()) && regex_is_match(
            number_prefix_pattern(),
            filename@,
        )),
{
    match is_match("^\\d{4}-", filename) {
        Some(m) => m,
        None => false,
    }
}

/// What `str::parse::<u32>` accepts: an optional `+` and one or more ASCII digits whose
/// value fits in a `u32`.
pub open spec fn parse_u32_spec(s: Seq<char>) -> Option<u32> {
    if s.len() > 0 && s[0] == '-' {
        None
    } else {
        match parse_i128_spec(s) {
            Some(v) => if 0 <= v <= u32::MAX {
                Some(v as u32)
            } else {
                None
            },
            None => None,
        }
    }
}

/// `str::parse::<u32>`, written out.
pub fn parse_u32(s: &str) -> (r: Option<u32>)
    ensures
        r == parse_u32_spec(s@),
{
    let cs = chars_of(s);
    if cs.len() > 0 && cs[0] == '-' {
        return None;
    }
    match parse_i128(s) {
        Some(v) => if 0 <= v && v <= 0xffff_ffff {
            Some(v as u32)
        } else {
            None
        },
        None => None,
    }
}

/// The pattern of a leading document number.
pub open spec fn leading_number_pattern() -> Seq<char> {
    "^(\\d+)-"@
}

/// The document number a filename starts with (`0001-title.md` gives 1), or 0.
pub open spec fn number_of_filename(f: Seq<char>) -> u32 {
    if !regex_compiles(leading_number_pattern()) {
        0
    } else {
        match regex_capture(leading_number_pattern(), f, 1) {
            Some(t) => match parse_u32_spec(t) {
                Some(n) => n,
                None => 0,
            },
            None => 0,
        }
    }
}

/// The number a filename starts with, 0 where there is none or it does not fit.
pub fn extract_number_from_filename(filename: &str) -> (n: u32)
    ensures
        n == number_of_filename(filename@),
{
    match capture("^(\\d+)-", filename, 1) {
        Some(Some(num)) => match parse_u32(num.as_str()) {
            Some(n) => n,
            None => 0,
        },
        _ => 0,
    }
}

/// Where a file goes when its name gets its four-digit number in front: beside itself,
/// named `NNNN-name`; `None` when the path has no file name.
pub fn number_prefixed_path(path: &str, number: u32) -> (r: Option<String>)
    ensures
        match path_file_name(path@) {
            Some(n) => r matches Some(q) && q@ == path_with_file_name(
                path@,
                crate::text::zero_padded(number as nat, 4) + "-"@ + n,
            ),
            None => r is None,
        },
{
    match file_name_of(path) {
        Some(name) => {
            let mut v = crate::text::zero_padded_chars(number as u64, 4);
            crate::text::push_str(&mut v, "-");
            crate::text::push_str(&mut v, name.as_str());
            let new_name = crate::text::string_from_chars(v.as_slice());
            Some(with_file_name(path, new_name.as_str()))
        },
        None => None,
    }
}

/// Where a file goes when moved into the state directory of `state` under `project_dir`;
/// `None` when the path has no file name.
pub fn state_dir_path(file_path: &str, state: DocState, project_dir: &str) -> (r: Option<String>)
    ensures
        match path_file_name(file_path@) {
            Some(n) => r matches Some(q) && q@ == path_join(
                path_join(project_dir@, state_directory(state)),
                n,
            ),
            None => r is None,
        },
{
    match file_name_of(file_path) {
        Some(name) => {
            let dir = join(project_dir, state.directory());
            Some(join(dir.as_str(), name.as_str()))
        },
        None => None,
    }
}

/// Whether `file_path` lies inside `project_dir`: the directory's components lead the
/// file path's (callers hand both in canonical form).
pub fn path_within(file_path: &str, project_dir: &str) -> (b: bool)
    ensures
        b == (path_strip_prefix(file_path@, project_dir@) is Some),
{
    strip_prefix_of(file_path, project_dir).is_some()
}

/// Where a file goes when moved into `project_dir`; `None` when the path has no file
/// name.
pub fn project_path(file_path: &str, project_dir: &str) -> (r: Option<String>)
    ensures
        match path_file_name(file_path@) {
            Some(n) => r matches Some(q) && q@ == path_join(project_dir@, n),
            None => r is None,
        },
{
    match file_name_of(file_path) {
        Some(name) => Some(join(project_dir, name.as_str())),
        None => None,
    }
}

} // verus!
