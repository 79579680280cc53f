//! Regular-expression matching through the `regex` crate.
//!
//! Each operation compiles its pattern with `regex::Regex::new` and reports `None` when the
//! pattern does not compile. What a compiled pattern matches is named, not restated: the
//! names below are functions of the pattern and the text alone. Three patterns whose effect
//! a line states (`[^a-z0-9-]`, `-+`, and `^\d{4}-` on ASCII text) have it stated too, as
//! does escaping.

use crate::text::{all_ascii, is_ascii_digit};
use vstd::prelude::*;

verus! {

/// A character of the class `[a-z0-9-]`.
pub open spec fn slug_char(c: char) -> bool {
    ('a' <= c && c <= 'z') || ('0' <= c && c <= '9') || c == '-'
}

/// The characters of `s` in the class `[a-z0-9-]`, in order: what replacing every match
/// of `[^a-z0-9-]` with nothing leaves.
pub open spec fn keep_slug_chars(s: Seq<char>) -> Seq<char>
    decreases s.len(),
{
    if s.len() == 0 {
        s
    } else if slug_char(s.last()) {
        keep_slug_chars(s.drop_last()).push(s.last())
    } else {
        keep_slug_chars(s.drop_last())
    }
}

/// `s` with each run of hyphens shortened to one: what replacing every match of `-+` with
/// `-` gives.
pub open spec fn collapse_dashes(s: Seq<char>) -> Seq<char>
    decreases s.len(),
{
    if s.len() == 0 {
        s
    } else if s.last() == '-' && s.len() >= 2 && s[s.len() - 2] == '-' {
        collapse_dashes(s.drop_last())
    } else {
        collapse_dashes(s.drop_last()).push(s.last())
    }
}

/// Whether `s` opens with four ASCII digits and a hyphen.
pub open spec fn number_prefixed(s: Seq<char>) -> bool {
    &&& s.len() >= 5
    &&& is_ascii_digit(s[0])
    &&& is_ascii_digit(s[1])
    &&& is_ascii_digit(s[2])
    &&& is_ascii_digit(s[3])
    &&& s[4] == '-'
}

/// `s` without an opening `dddd-`: what replacing the match of `^\d{4}-` with nothing
/// gives on ASCII text.
pub open spec fn drop_number_prefix(s: Seq<char>) -> Seq<char> {
    if number_prefixed(s) {
        s.skip(5)
    } else {
        s
    }
}

/// Whether `regex::Regex::new` accepts `pattern`.
pub uninterp spec fn regex_compiles(pattern: Seq<char>) -> bool;

/// What `regex::Regex::is_match` answers for `pattern` on `text`.
pub uninterp spec fn regex_is_match(pattern: Seq<char>, text: Seq<char>) -> bool;

/// Capture group `group` of the leftmost-first match of `pattern` in `text`
/// (`regex::Regex::captures`, then `Captures::get`), or `None` when there is no match or
/// the group took no part in it.
pub uninterp spec fn regex_capture(pattern: Seq<char>, text: Seq<char>, group: nat) -> Option<
    Seq<char>,
>;

/// `text` with the leftmost-first match of `pattern` replaced by `rep`, `$`-references
/// expanded (`regex::Regex::replace`).
pub uninterp spec fn regex_replace(pattern: Seq<char>, text: Seq<char>, rep: Seq<char>) -> Seq<
    char,
>;

/// `text` with every non-overlapping match of `pattern` replaced by `rep`, `$`-references
/// expanded (`regex::Regex::replace_all`).
pub uninterp spec fn regex_replace_all(pattern: Seq<char>, text: Seq<char>, rep: Seq<char>) -> Seq<
    char,
>;

/// `regex::Regex::new` followed by `Regex::is_match`.
/// Claims `None` exactly when the pattern does not compile, and otherwise the named answer.
#[verifier::external_body]
pub(crate) fn is_match(pattern: &str, text: &str) -> (r: Option<bool>)
    ensures
        r is Some <==> regex_compiles(pattern@),
        r matches Some(b) ==> b == regex_is_match(pattern@, text@),
{
    match regex::Regex::new(pattern) {
        Ok(re) => Some(re.is_match(text)),
        Err(_) => None,
    }
}

/// `regex::Regex::new` followed by `Regex::captures` and `Captures::get`.
/// Claims `None` exactly when the pattern does not compile, and otherwise the named capture.
#[verifier::external_body]
pub(crate) fn capture(pattern: &str, text: &str, group: usize) -> (r: Option<Option<String>>)
    ensures
        r is Some <==> regex_compiles(pattern@),
        r matches Some(c) ==> match c {
            Some(s) => regex_capture(pattern@, text@, group as nat) == Some(s@),
            None => regex_capture(pattern@, text@, group as nat) is None,
        },
{
    match regex::Regex::new(pattern) {
        Ok(re) => Some(re.captures(text).and_then(|c| c.get(group)).map(|m| m.as_str().to_string())),
        Err(_) => None,
    }
}

/// `regex::Regex::new` followed by `Regex::replace`.
/// Claims `None` exactly when the pattern does not compile, and otherwise the named result;
/// and that `^\d{4}-` replaced by nothing on ASCII text (where `\d` matches exactly the
/// ASCII digits) removes an opening `dddd-` and nothing else.
#[verifier::external_body]
pub(crate) fn replace(pattern: &str, text: &str, rep: &str) -> (r: Option<String>)
    ensures
        r is Some <==> regex_compiles(pattern@),
        r matches Some(s) ==> s@ == regex_replace(pattern@, text@, rep@),
        pattern@ == "^\\d{4}-"@ && rep@ == ""@ && all_ascii(text@) ==> r is Some && r->0@
            == drop_number_prefix(text@),
{
    match regex::Regex::new(pattern) {
        Ok(re) => Some(re.replace(text, rep).into_owned()),
        Err(_) => None,
    }
}

/// `regex::Regex::new` followed by `Regex::replace_all`.
/// Claims `None` exactly when the pattern does not compile, and otherwise the named result;
/// and, for two patterns whose effect a line states, that effect: `[^a-z0-9-]` replaced by
/// nothing keeps exactly the characters of that class, and `-+` replaced by `-` shortens
/// each run of hyphens to one.
#[verifier::external_body]
pub(crate) fn replace_all(pattern: &str, text: &str, rep: &str) -> (r: Option<String>)
    ensures
        r is Some <==> regex_compiles(pattern@),
        r matches Some(s) ==> s@ == regex_replace_all(pattern@, text@, rep@),
        pattern@ == "[^a-z0-9-]"@ && rep@ == ""@ ==> r is Some && r->0@ == keep_slug_chars(text@),
        pattern@ == "-+"@ && rep@ == "-"@ ==> r is Some && r->0@ == collapse_dashes(text@),
{
    match regex::Regex::new(pattern) {
        Ok(re) => Some(re.replace_all(text, rep).into_owned()),
        Err(_) => None,
    }
}

/// The message `regex::Error` displays when `pattern` does not compile.
pub uninterp spec fn regex_error_message(pattern: Seq<char>) -> Seq<char>;

/// The characters that have a meaning in a regular expression.
pub open spec fn regex_meta_char(c: char) -> bool {
    c == '\\' || c == '.' || c == '+' || c == '*' || c == '?' || c == '(' || c == ')' || c == '|'
        || c == '[' || c == ']' || c == '{' || c == '}' || c == '^' || c == '$' || c == '#' || c
        == '&' || c == '-' || c == '~'
}

/// `text` with a backslash before each of its regular-expression metacharacters.
pub open spec fn regex_escaped(text: Seq<char>) -> Seq<char>
    decreases text.len(),
{
    if text.len() == 0 {
        text
    } else if regex_meta_char(text.last()) {
        regex_escaped(text.drop_last()) + seq!['\\', text.last()]
    } else {
        regex_escaped(text.drop_last()).push(text.last())
    }
}

/// `regex::Regex::new` followed by `Regex::replace`, keeping the compile error's message.
/// Claims `Ok` exactly when the pattern compiles, with the named result, and otherwise the
/// named message.
#[verifier::external_body]
pub(crate) fn try_replace(pattern: &str, text: &str, rep: &str) -> (r: Result<String, String>)
    ensures
        r is Ok <==> regex_compiles(pattern@),
        match r {
            Ok(s) => s@ == regex_replace(pattern@, text@, rep@),
            Err(m) => m@ == regex_error_message(pattern@),
        },
{
    match regex::Regex::new(pattern) {
        Ok(re) => Ok(re.replace(text, rep).into_owned()),
        Err(e) => Err(e.to_string()),
    }
}

/// `regex::escape`.
/// Claims the result is the text with a backslash put before each of the eighteen
/// metacharacters that `regex_syntax::is_meta_character` lists.
#[verifier::external_body]
pub(crate) fn escape(text: &str) -> (r: String)
    ensures
        r@ == regex_escaped(text@),
{
    regex::escape(text)
}

} // verus!
