//! Document metadata and its YAML frontmatter: building it, completing it, and updating
//! single fields.

use crate::design::doc::{
    extract_number_from_filename, has_frontmatter, has_frontmatter_spec, has_placeholder_spec,
    has_placeholder_values, number_of_filename, state_name, state_of_parent_dir,
    state_from_directory, DocState,
};
use crate::design::validate::DateStamp;
use crate::pattern::{
    capture, escape, regex_capture, regex_compiles, regex_error_message, regex_escaped,
    regex_replace, replace, try_replace,
};
use crate::text::{
    all_ascii, ascii_lower, ascii_lower_char, is_ascii_alpha, is_ascii_char, is_ascii_digit,
    is_ascii_lower, is_ascii_upper, char_is_alphanumeric, char_to_uppercase, chars_of, decimal, decimal_chars, is_alphanumeric,
    lowercase, push_all, push_str, str_to_lowercase, string_from_chars, uppercase_char,
    zero_padded, zero_padded_chars,
};
use crate::textops::{
    contains, find, find_from, join_with, lemma_deep_view_chars, lemma_find_from, lines_of, occurs_at, split_chars,
    split_lines, split_on, starts_with_str, trim, trim_start, trimmed, trimmed_start,
};
use vstd::prelude::*;

verus! {

/// Why a document could not be read or updated.
#[derive(Debug, Clone)]
pub enum DocError {
    InvalidFormat(String),
    MissingField(String),
    InvalidDate(String),
    InvalidState(String),
}

pub enum DocErrorV {
    InvalidFormat(Seq<char>),
    MissingField(Seq<char>),
    InvalidDate(Seq<char>),
    InvalidState(Seq<char>),
}

impl View for DocError {
    type V = DocErrorV;

    open spec fn view(&self) -> DocErrorV {
        match self {
            DocError::InvalidFormat(s) => DocErrorV::InvalidFormat(s@),
            DocError::MissingField(s) => DocErrorV::MissingField(s@),
            DocError::InvalidDate(s) => DocErrorV::InvalidDate(s@),
            DocError::InvalidState(s) => DocErrorV::InvalidState(s@),
        }
    }
}

/// The message a document error displays.
pub open spec fn doc_error_message(e: DocErrorV) -> Seq<char> {
    match e {
        DocErrorV::InvalidFormat(s) => "Invalid document format: "@ + s,
        DocErrorV::MissingField(s) => "Missing required field: "@ + s,
        DocErrorV::InvalidDate(s) => "Invalid date format: "@ + s,
        DocErrorV::InvalidState(s) => "Invalid state: "@ + s,
    }
}

impl DocError {
    /// The message this error displays.
    pub fn display_string(&self) -> (r: String)
        ensures
            r@ == doc_error_message(self@),
    {
        let mut v: Vec<char> = Vec::new();
        match self {
            DocError::InvalidFormat(s) => {
                push_str(&mut v, "Invalid document format: ");
                push_str(&mut v, s.as_str());
            },
            DocError::MissingField(s) => {
                push_str(&mut v, "Missing required field: ");
                push_str(&mut v, s.as_str());
            },
            DocError::InvalidDate(s) => {
                push_str(&mut v, "Invalid date format: ");
                push_str(&mut v, s.as_str());
            },
            DocError::InvalidState(s) => {
                push_str(&mut v, "Invalid state: ");
                push_str(&mut v, s.as_str());
            },
        }
        string_from_chars(v.as_slice())
    }
}

/// The frontmatter fields of a document.
#[derive(Debug, Clone)]
pub struct DocMetadata {
    pub number: u32,
    pub title: String,
    pub author: String,
    pub created: DateStamp,
    pub updated: DateStamp,
    pub state: DocState,
    pub supersedes: Option<u32>,
    pub superseded_by: Option<u32>,
}

/// A design document: its metadata, its body and where it lives.
#[derive(Debug, Clone)]
pub struct DesignDoc {
    pub metadata: DocMetadata,
    pub content: String,
    pub path: String,
}

/// A date as plain values.
pub struct DateStampV {
    pub year: i32,
    pub month: u32,
    pub day: u32,
    pub text: Seq<char>,
}

impl DeepView for DateStamp {
    type V = DateStampV;

    open spec fn deep_view(&self) -> DateStampV {
        DateStampV { year: self.year, month: self.month, day: self.day, text: self.text@ }
    }
}

/// Document metadata as plain values.
pub struct DocMetadataV {
    pub number: u32,
    pub title: Seq<char>,
    pub author: Seq<char>,
    pub created: DateStampV,
    pub updated: DateStampV,
    pub state: DocState,
    pub supersedes: Option<u32>,
    pub superseded_by: Option<u32>,
}

impl DeepView for DocMetadata {
    type V = DocMetadataV;

    open spec fn deep_view(&self) -> DocMetadataV {
        DocMetadataV {
            number: self.number,
            title: self.title@,
            author: self.author@,
            created: self.created.deep_view(),
            updated: self.updated.deep_view(),
            state: self.state,
            supersedes: self.supersedes,
            superseded_by: self.superseded_by,
        }
    }
}

/// A design document as plain values.
pub struct DesignDocV {
    pub metadata: DocMetadataV,
    pub content: Seq<char>,
    pub path: Seq<char>,
}

impl DeepView for DesignDoc {
    type V = DesignDocV;

    open spec fn deep_view(&self) -> DesignDocV {
        DesignDocV {
            metadata: self.metadata.deep_view(),
            content: self.content@,
            path: self.path@,
        }
    }
}

fn text_of(lit: &str) -> (r: String)
    ensures
        r@ == lit@,
{
    lit.to_string()
}

pub(crate) fn clone_string(s: &String) -> (r: String)
    ensures
        r@ == s@,
{
    s.clone()
}

pub(crate) fn clone_date(d: &DateStamp) -> (r: DateStamp)
    ensures
        r.year == d.year,
        r.month == d.month,
        r.day == d.day,
        r.text@ == d.text@,
{
    DateStamp { year: d.year, month: d.month, day: d.day, text: clone_string(&d.text) }
}

/// A copy of document metadata.
pub fn copy_metadata(m: &DocMetadata) -> (r: DocMetadata)
    ensures
        r.deep_view() == m.deep_view(),
{
    DocMetadata {
        number: m.number,
        title: clone_string(&m.title),
        author: clone_string(&m.author),
        created: clone_date(&m.created),
        updated: clone_date(&m.updated),
        state: m.state,
        supersedes: m.supersedes,
        superseded_by: m.superseded_by,
    }
}

// ---------------------------------------------------------------------------
// The frontmatter text
// ---------------------------------------------------------------------------

/// One optional reference line: its number, or `null`.
pub open spec fn ref_line(key: Seq<char>, v: Option<u32>) -> Seq<char> {
    match v {
        Some(n) => key + ": "@ + decimal(n as nat) + "\n"@,
        None => key + ": null\n"@,
    }
}

/// The YAML lines of the frontmatter, each closed by a line feed.
pub open spec fn yaml_lines(m: DocMetadata) -> Seq<char> {
    "number: "@ + decimal(m.number as nat) + "\n"@ + "title: \""@ + m.title@ + "\"\n"@
        + "author: \""@ + m.author@ + "\"\n"@ + "created: "@ + m.created.text@ + "\n"@
        + "updated: "@ + m.updated.text@ + "\n"@ + "state: "@ + state_name(m.state) + "\n"@
        + ref_line("supersedes"@, m.supersedes) + ref_line("superseded-by"@, m.superseded_by)
}

/// The complete YAML frontmatter of a document, closed by a blank line.
pub open spec fn frontmatter_text(m: DocMetadata) -> Seq<char> {
    "---\n"@ + yaml_lines(m) + "---\n\n"@
}

/// Frontmatter opens with `---` on a line of its own and closes with `---` and a blank
/// line.
pub proof fn lemma_frontmatter_delimited(m: DocMetadata)
    ensures
        "---\n"@.is_prefix_of(frontmatter_text(m)),
        "---\n\n"@.is_suffix_of(frontmatter_text(m)),
{
    let t = frontmatter_text(m);
    reveal_strlit("---\n");
    reveal_strlit("---\n\n");
    assert(t.subrange(0, 4) =~= "---\n"@);
    assert(t.subrange(t.len() - 5, t.len() as int) =~= "---\n\n"@);
}

fn push_ref_line(v: &mut Vec<char>, key: &str, r: Option<u32>)
    ensures
        final(v)@ == old(v)@ + ref_line(key@, r),
{
    push_str(v, key);
    match r {
        Some(n) => {
            push_str(v, ": ");
            let d = decimal_chars(n as u64);
            push_all(v, d.as_slice());
            push_str(v, "\n");
        },
        None => {
            push_str(v, ": null\n");
        },
    }
}

/// Builds the complete YAML frontmatter for the metadata.
pub fn build_yaml_frontmatter(m: &DocMetadata) -> (r: String)
    ensures
        r@ == frontmatter_text(*m),
{
    let mut v: Vec<char> = Vec::new();
    push_str(&mut v, "---\n");
    push_str(&mut v, "number: ");
    let d = decimal_chars(m.number as u64);
    push_all(&mut v, d.as_slice());
    push_str(&mut v, "\n");
    push_str(&mut v, "title: \"");
    push_str(&mut v, m.title.as_str());
    push_str(&mut v, "\"\n");
    push_str(&mut v, "author: \"");
    push_str(&mut v, m.author.as_str());
    push_str(&mut v, "\"\n");
    push_str(&mut v, "created: ");
    push_str(&mut v, m.created.text.as_str());
    push_str(&mut v, "\n");
    push_str(&mut v, "updated: ");
    push_str(&mut v, m.updated.text.as_str());
    push_str(&mut v, "\n");
    push_str(&mut v, "state: ");
    push_str(&mut v, m.state.as_str());
    push_str(&mut v, "\n");
    push_ref_line(&mut v, "supersedes", m.supersedes);
    push_ref_line(&mut v, "superseded-by", m.superseded_by);
    push_str(&mut v, "---\n\n");
    assert(v@ =~= frontmatter_text(*m));
    string_from_chars(v.as_slice())
}

// ---------------------------------------------------------------------------
// The title
// ---------------------------------------------------------------------------

/// The text of the first `# ` heading from line `i` on.
pub open spec fn first_heading_from(ls: Seq<Seq<char>>, i: int) -> Option<Seq<char>>
    decreases ls.len() - i,
{
    if i < 0 || i >= ls.len() {
        None
    } else if "# "@.is_prefix_of(trim(ls[i])) {
        Some(trim(trim(ls[i]).skip(2)))
    } else {
        first_heading_from(ls, i + 1)
    }
}

/// A word with its first character capitalized.
pub open spec fn capitalized(w: Seq<char>) -> Seq<char> {
    if w.len() == 0 {
        Seq::empty()
    } else {
        uppercase_char(w[0]) + w.skip(1)
    }
}

/// The pattern of a numbered markdown file name, capturing the words after the number.
pub open spec fn numbered_name_pattern() -> Seq<char> {
    "^\\d+-(.+)\\.md$"@
}

/// The title a document carries: its first `# ` heading; failing that the words of a
/// numbered file name (`0001-my-doc.md` gives "My Doc"); failing that "Untitled Document".
pub open spec fn title_of(content: Seq<char>, filename: Seq<char>) -> Seq<char> {
    match first_heading_from(lines_of(content), 0) {
        Some(t) => t,
        None => if regex_compiles(numbered_name_pattern()) {
            match regex_capture(numbered_name_pattern(), filename, 1) {
                Some(slug) => join_with(
                    split_on(slug, '-').map_values(|w: Seq<char>| capitalized(w)),
                    " "@,
                ),
                None => "Untitled Document"@,
            }
        } else {
            "Untitled Document"@
        },
    }
}

fn capitalize(w: &Vec<char>) -> (r: Vec<char>)
    ensures
        r@ == capitalized(w@),
{
    let mut out: Vec<char> = Vec::new();
    if w.len() > 0 {
        let up = char_to_uppercase(w[0]);
        push_str(&mut out, up.as_str());
        let rest = crate::text::chars_range(w.as_slice(), 1, w.len());
        push_all(&mut out, rest.as_slice());
        assert(rest@ =~= w@.skip(1));
    } else {
        assert(out@ =~= capitalized(w@));
    }
    out
}

/// The title of a document: its first heading, or the words of its numbered file name.
pub fn extract_title_from_content(content: &str, filename: &str) -> (r: String)
    ensures
        r@ == title_of(content@, filename@),
{
    let cs = chars_of(content);
    let lines = split_lines(cs.as_slice());
    let ghost ls = lines.deep_view();
    let mut i: usize = 0;
    while i < lines.len()
        invariant
            i <= lines@.len(),
            ls == lines.deep_view(),
            ls == lines_of(content@),
            first_heading_from(ls, 0) == first_heading_from(ls, i as int),
        decreases lines@.len() - i,
    {
        proof {
            assert(ls[i as int] == lines@[i as int]@);
            lemma_deep_view_chars(lines@[i as int]);
            reveal_strlit("# ");
        }
        let t = trimmed(lines[i].as_slice());
        if starts_with_str(t.as_slice(), "# ") {
            let rest = crate::text::chars_range(t.as_slice(), 2, t.len());
            assert(rest@ =~= t@.skip(2));
            let title = trimmed(rest.as_slice());
            return string_from_chars(title.as_slice());
        }
        i = i + 1;
    }
    match capture("^\\d+-(.+)\\.md$", filename, 1) {
        Some(Some(slug)) => {
            let sv = chars_of(slug.as_str());
            let words = split_chars(sv.as_slice(), '-');
            let ghost ws = words.deep_view();
            let mut out: Vec<char> = Vec::new();
            let mut k: usize = 0;
            while k < words.len()
                invariant
                    k <= words@.len(),
                    ws == words.deep_view(),
                    out@ == join_with(
                        ws.take(k as int).map_values(|w: Seq<char>| capitalized(w)),
                        " "@,
                    ),
                decreases words@.len() - k,
            {
                proof {
                    assert(ws[k as int] == words@[k as int]@);
                    lemma_deep_view_chars(words@[k as int]);
                }
                let c = capitalize(&words[k]);
                let ghost prev = ws.take(k as int).map_values(|w: Seq<char>| capitalized(w));
                let ghost next = ws.take(k + 1).map_values(|w: Seq<char>| capitalized(w));
                assert(next.drop_last() =~= prev);
                assert(next.last() == capitalized(ws[k as int]));
                if k > 0 {
                    push_str(&mut out, " ");
                }
                push_all(&mut out, c.as_slice());
                proof {
                    reveal_strlit(" ");
                    if k == 0 {
                        assert(next.len() == 1);
                        assert(out@ =~= next[0]);
                    } else {
                        assert(out@ =~= join_with(prev, " "@) + " "@ + next.last());
                    }
                }
                k = k + 1;
            }
            assert(ws.take(words@.len() as int) =~= ws);
            string_from_chars(out.as_slice())
        },
        _ => text_of("Untitled Document"),
    }
}

// ---------------------------------------------------------------------------
// Completing the headers
// ---------------------------------------------------------------------------

/// The pattern of a whole frontmatter block with the blank lines after it.
pub open spec fn frontmatter_block_pattern() -> Seq<char> {
    "(?s)^---\\n.*?\\n---\\n*"@
}

/// The body of a document whose frontmatter block is removed, without leading whitespace.
pub open spec fn body_without_block(content: Seq<char>) -> Seq<char> {
    if regex_compiles(frontmatter_block_pattern()) {
        trim_start(regex_replace(frontmatter_block_pattern(), content, ""@))
    } else {
        trim_start(content)
    }
}

fn body_after_block(content: &str) -> (r: Vec<char>)
    ensures
        r@ == body_without_block(content@),
{
    match replace("(?s)^---\\n.*?\\n---\\n*", content, "") {
        Some(s) => {
            let v = chars_of(s.as_str());
            trimmed_start(v.as_slice())
        },
        None => {
            let v = chars_of(content);
            trimmed_start(v.as_slice())
        },
    }
}

/// The names of every frontmatter field, as reported when all were added.
pub open spec fn all_field_names() -> Seq<Seq<char>> {
    seq![
        "number"@,
        "title"@,
        "author"@,
        "created"@,
        "updated"@,
        "state"@,
        "supersedes"@,
        "superseded-by"@,
    ]
}

/// Metadata made from what was discovered: a draft that supersedes nothing.
pub open spec fn fresh_metadata_ok(
    m: DocMetadata,
    number: u32,
    title: Seq<char>,
    author: Seq<char>,
    created: DateStamp,
    updated: DateStamp,
) -> bool {
    &&& m.number == number
    &&& m.title@ == title
    &&& m.author@ == author
    &&& m.created.text@ == created.text@
    &&& m.updated.text@ == updated.text@
    &&& m.state == DocState::Draft
    &&& m.supersedes is None
    &&& m.superseded_by is None
}

/// What completing existing metadata changes: the number when it is 0 and one was found,
/// the title when it is empty or "Untitled Document", the author when it is empty or
/// "Unknown Author"; the names of the fields it changed, in that order.
pub open spec fn completed_fields(
    m: DocMetadata,
    number: u32,
) -> Seq<Seq<char>> {
    (if m.number == 0 && number > 0 {
        seq!["number"@]
    } else {
        Seq::empty()
    }) + (if m.title@.len() == 0 || m.title@ == "Untitled Document"@ {
        seq!["title"@]
    } else {
        Seq::empty()
    }) + (if m.author@.len() == 0 || m.author@ == "Unknown Author"@ {
        seq!["author"@]
    } else {
        Seq::empty()
    })
}

pub open spec fn completed_ok(
    old_m: DocMetadata,
    m: DocMetadata,
    number: u32,
    title: Seq<char>,
    author: Seq<char>,
) -> bool {
    &&& m.number == (if old_m.number == 0 && number > 0 {
        number
    } else {
        old_m.number
    })
    &&& m.title@ == (if old_m.title@.len() == 0 || old_m.title@ == "Untitled Document"@ {
        title
    } else {
        old_m.title@
    })
    &&& m.author@ == (if old_m.author@.len() == 0 || old_m.author@ == "Unknown Author"@ {
        author
    } else {
        old_m.author@
    })
    &&& m.created == old_m.created
    &&& m.updated == old_m.updated
    &&& m.state == old_m.state
    &&& m.supersedes == old_m.supersedes
    &&& m.superseded_by == old_m.superseded_by
}

fn fresh_metadata(
    number: u32,
    title: &String,
    author: &str,
    created: &DateStamp,
    updated: &DateStamp,
) -> (m: DocMetadata)
    ensures
        fresh_metadata_ok(m, number, title@, author@, *created, *updated),
{
    DocMetadata {
        number,
        title: clone_string(title),
        author: author.to_string(),
        created: clone_date(created),
        updated: clone_date(updated),
        state: DocState::Draft,
        supersedes: None,
        superseded_by: None,
    }
}

fn all_field_name_strings() -> (r: Vec<String>)
    ensures
        r@.map_values(|s: String| s@) == all_field_names(),
{
    let mut r: Vec<String> = Vec::new();
    r.push(text_of("number"));
    r.push(text_of("title"));
    r.push(text_of("author"));
    r.push(text_of("created"));
    r.push(text_of("updated"));
    r.push(text_of("state"));
    r.push(text_of("supersedes"));
    r.push(text_of("superseded-by"));
    assert(r@.map_values(|s: String| s@) =~= all_field_names());
    r
}

/// Completes parsed metadata with what was discovered, as far as its fields are empty
/// or placeholders, and names the fields it changed.
pub fn complete_metadata(meta: DocMetadata, number: u32, title: &String, author: &str) -> (r: (
    DocMetadata,
    Vec<String>,
))
    ensures
        completed_ok(meta, r.0, number, title@, author@),
        r.1@.map_values(|s: String| s@) == completed_fields(meta, number),
{
    let ghost old_m = meta;
    let mut m = meta;
    let mut added: Vec<String> = Vec::new();
    let ghost a0 = added@.map_values(|s: String| s@);
    if m.number == 0 && number > 0 {
        m.number = number;
        added.push(text_of("number"));
    }
    let ghost a1 = added@.map_values(|s: String| s@);
    let untitled = crate::textops::str_equal(m.title.as_str(), "Untitled Document");
    if m.title.as_str().is_empty() || untitled {
        m.title = clone_string(title);
        added.push(text_of("title"));
    }
    let ghost a2 = added@.map_values(|s: String| s@);
    let unknown = crate::textops::str_equal(m.author.as_str(), "Unknown Author");
    if m.author.as_str().is_empty() || unknown {
        m.author = author.to_string();
        added.push(text_of("author"));
    }
    assert(added@.map_values(|s: String| s@) =~= completed_fields(old_m, number));
    (m, added)
}

/// Whether the content, after leading whitespace, opens with `---`.
pub open spec fn opens_with_marker(content: Seq<char>) -> bool {
    "---"@.is_prefix_of(trim_start(content))
}

/// The document with complete frontmatter, and the fields that were added. `existing` is
/// the document's metadata when it opens with `---` and its frontmatter parsed.
pub open spec fn headers_added(
    filename: Seq<char>,
    content: Seq<char>,
    author: Seq<char>,
    created: DateStamp,
    updated: DateStamp,
    existing: Option<DocMetadata>,
    r: (Seq<char>, Seq<Seq<char>>),
    m: DocMetadata,
) -> bool {
    let number = number_of_filename(filename);
    let title = title_of(content, filename);
    if opens_with_marker(content) {
        match existing {
            Some(old_m) => {
                &&& completed_ok(old_m, m, number, title, author)
                &&& r.0 == frontmatter_text(m) + body_without_block(content)
                &&& r.1 == completed_fields(old_m, number)
            },
            None => {
                &&& fresh_metadata_ok(m, number, title, author, created, updated)
                &&& r.0 == frontmatter_text(m) + body_without_block(content)
                &&& r.1 == all_field_names()
            },
        }
    } else {
        &&& fresh_metadata_ok(m, number, title, author, created, updated)
        &&& r.0 == frontmatter_text(m) + content
        &&& r.1 == all_field_names()
    }
}

/// Adds or completes the YAML frontmatter of a document named `filename`: the number comes
/// from the file name, the title from the content, the author and dates as discovered.
/// `existing` is the metadata parsed from the document's frontmatter, if it had one that
/// parsed. Returns the new content, the metadata written, and the names of added fields.
pub fn add_missing_headers(
    filename: &str,
    content: &str,
    author: &str,
    created: &DateStamp,
    updated: &DateStamp,
    existing: Option<DocMetadata>,
) -> (r: (String, DocMetadata, Vec<String>))
    ensures
        headers_added(
            filename@,
            content@,
            author@,
            *created,
            *updated,
            existing,
            (r.0@, r.2@.map_values(|s: String| s@)),
            r.1,
        ),
{
    let number = extract_number_from_filename(filename);
    let title = extract_title_from_content(content, filename);
    let cs = chars_of(content);
    let t = trimmed_start(cs.as_slice());
    if starts_with_str(t.as_slice(), "---") {
        let body = body_after_block(content);
        match existing {
            Some(meta) => {
                let (m, added) = complete_metadata(meta, number, &title, author);
                let mut v = chars_of(build_yaml_frontmatter(&m).as_str());
                push_all(&mut v, body.as_slice());
                (string_from_chars(v.as_slice()), m, added)
            },
            None => {
                let m = fresh_metadata(number, &title, author, created, updated);
                let mut v = chars_of(build_yaml_frontmatter(&m).as_str());
                push_all(&mut v, body.as_slice());
                (string_from_chars(v.as_slice()), m, all_field_name_strings())
            },
        }
    } else {
        let m = fresh_metadata(number, &title, author, created, updated);
        let mut v = chars_of(build_yaml_frontmatter(&m).as_str());
        push_str(&mut v, content);
        (string_from_chars(v.as_slice()), m, all_field_name_strings())
    }
}

/// Whether a document needs its headers completed: it has no frontmatter, or its
/// frontmatter still holds placeholders.
pub open spec fn needs_headers(content: Seq<char>) -> bool {
    !has_frontmatter_spec(content) || has_placeholder_spec(content)
}

/// Whether a document needs its headers completed; only then does completing them need
/// the author and dates (which callers read from git).
pub fn headers_needed(content: &str) -> (b: bool)
    ensures
        b == needs_headers(content@),
{
    !has_frontmatter(content) || has_placeholder_values(content)
}

/// The document with valid headers: completed as `add_missing_headers` does when it lacks
/// frontmatter or still holds placeholders, unchanged otherwise. The author and dates are
/// only read when `headers_needed` holds.
pub fn ensure_valid_headers(
    filename: &str,
    content: &str,
    author: &str,
    created: &DateStamp,
    updated: &DateStamp,
    existing: Option<DocMetadata>,
) -> (r: String)
    ensures
        !needs_headers(content@) ==> r@ == content@,
        needs_headers(content@) ==> exists|m: DocMetadata, fields: Seq<Seq<char>>|
            headers_added(
                filename@,
                content@,
                author@,
                *created,
                *updated,
                existing,
                (r@, fields),
                m,
            ),
{
    if !has_frontmatter(content) || has_placeholder_values(content) {
        let (c, m, fields) = add_missing_headers(filename, content, author, created, updated, existing);
        assert(headers_added(
            filename@,
            content@,
            author@,
            *created,
            *updated,
            existing,
            (c@, fields@.map_values(|s: String| s@)),
            m,
        ));
        c
    } else {
        content.to_string()
    }
}

// ---------------------------------------------------------------------------
// Reading and updating frontmatter fields
// ---------------------------------------------------------------------------

/// The frontmatter and body of a document: the text between the first two `---` markers
/// and the text after the second, both trimmed; `None` when there are fewer than two.
pub open spec fn frontmatter_parts(content: Seq<char>) -> Option<(Seq<char>, Seq<char>)> {
    match find_from(content, "---"@, 0) {
        None => None,
        Some(a) => match find_from(content, "---"@, a + 3) {
            None => None,
            Some(b) => Some((trim(content.subrange(a + 3, b)), trim(content.skip(b + 3)))),
        },
    }
}

/// Splits a document into its frontmatter text and its body, as `splitn(3, "---")` does.
pub fn split_frontmatter(content: &str) -> (r: Result<(String, String), DocError>)
    ensures
        match r {
            Ok((f, b)) => frontmatter_parts(content@) == Some((f@, b@)),
            Err(e) => frontmatter_parts(content@) is None && e@ == DocErrorV::InvalidFormat(
                "Missing YAML frontmatter"@,
            ),
        },
{
    proof {
        reveal_strlit("---");
    }
    let cs = chars_of(content);
    let marker = chars_of("---");
    proof {
        lemma_find_from(cs@, marker@, 0);
    }
    match find(cs.as_slice(), marker.as_slice(), 0) {
        None => Err(DocError::InvalidFormat(text_of("Missing YAML frontmatter"))),
        Some(a) => {
            proof {
                lemma_find_from(cs@, marker@, a + 3);
            }
            match find(cs.as_slice(), marker.as_slice(), a + 3) {
                None => Err(DocError::InvalidFormat(text_of("Missing YAML frontmatter"))),
                Some(b) => {
                    let fm = crate::text::chars_range(cs.as_slice(), a + 3, b);
                    let body = crate::text::chars_range(cs.as_slice(), b + 3, cs.len());
                    assert(body@ =~= cs@.skip(b + 3));
                    let f = trimmed(fm.as_slice());
                    let t = trimmed(body.as_slice());
                    Ok((string_from_chars(f.as_slice()), string_from_chars(t.as_slice())))
                },
            }
        },
    }
}

/// The pattern that finds a field's line in the frontmatter.
pub open spec fn field_pattern(field: Seq<char>) -> Seq<char> {
    "(?m)^"@ + regex_escaped(field) + ": .*$"@
}

/// The content with the first line `FIELD: ...` replaced by `FIELD: VALUE`.
pub open spec fn field_updated(content: Seq<char>, field: Seq<char>, value: Seq<char>) -> Result<
    Seq<char>,
    DocErrorV,
> {
    let p = field_pattern(field);
    if regex_compiles(p) {
        Ok(regex_replace(p, content, field + ": "@ + value))
    } else {
        Err(DocErrorV::InvalidFormat("Regex error: "@ + regex_error_message(p)))
    }
}

pub open spec fn doc_result(r: Result<String, DocError>) -> Result<Seq<char>, DocErrorV> {
    match r {
        Ok(s) => Ok(s@),
        Err(e) => Err(e@),
    }
}

/// No character of `s` is a hyphen.
pub open spec fn dash_free(s: Seq<char>) -> bool {
    forall|i: int| 0 <= i < s.len() ==> #[trigger] s[i] != '-'
}

proof fn lemma_dash_free_no_marker(s: Seq<char>)
    requires
        dash_free(s),
    ensures
        !contains(s, "---"@),
{
    reveal_strlit("---");
    if contains(s, "---"@) {
        let i = choose|i: int| occurs_at(s, "---"@, i);
        assert(s.subrange(i, i + 3)[0] == s[i]);
    }
}

/// Two texts without `---` make none when joined, if a hyphen does not meet a hyphen
/// where they meet.
proof fn lemma_glue(a: Seq<char>, b: Seq<char>)
    requires
        !contains(a, "---"@),
        !contains(b, "---"@),
        a.len() == 0 || b.len() == 0 || a.last() != '-' || b[0] != '-',
    ensures
        !contains(a + b, "---"@),
{
    reveal_strlit("---");
    let c = a + b;
    if contains(c, "---"@) {
        let i = choose|i: int| occurs_at(c, "---"@, i);
        let w = c.subrange(i, i + 3);
        assert(w[0] == '-' && w[1] == '-' && w[2] == '-');
        if i + 3 <= a.len() {
            assert(a.subrange(i, i + 3) =~= w);
            assert(occurs_at(a, "---"@, i));
        } else if i >= a.len() {
            assert(b.subrange(i - a.len(), i - a.len() + 3) =~= w);
            assert(occurs_at(b, "---"@, i - a.len()));
        } else {
            assert(c[a.len() - 1] == a.last());
            assert(c[a.len() as int] == b[0]);
            assert(c[a.len() - 1] == w[a.len() - 1 - i]);
            assert(c[a.len() as int] == w[a.len() - i]);
        }
    }
}

proof fn lemma_decimal_dash_free(n: nat)
    ensures
        dash_free(decimal(n)),
        decimal(n).len() > 0,
    decreases n,
{
    if n >= 10 {
        lemma_decimal_dash_free(n / 10);
        let d = decimal(n / 10).push(crate::text::digit_char(n % 10));
        assert forall|i: int| 0 <= i < d.len() implies #[trigger] d[i] != '-' by {
            if i < d.len() - 1 {
                assert(d[i] == decimal(n / 10)[i]);
            }
        }
    }
}

proof fn lemma_state_name_dash_free(s: DocState)
    ensures
        dash_free(state_name(s)),
        state_name(s).len() > 0,
{
    reveal_strlit("Draft");
    reveal_strlit("Under Review");
    reveal_strlit("Revised");
    reveal_strlit("Accepted");
    reveal_strlit("Active");
    reveal_strlit("Final");
    reveal_strlit("Deferred");
    reveal_strlit("Rejected");
    reveal_strlit("Withdrawn");
    reveal_strlit("Superseded");
}

proof fn lemma_ref_line_clean(key: Seq<char>, v: Option<u32>)
    requires
        !contains(key, "---"@),
        key.len() > 0,
        key.last() != '-',
    ensures
        !contains(ref_line(key, v), "---"@),
        ref_line(key, v).len() > 0,
        ref_line(key, v).last() == '\n',
        ref_line(key, v)[0] == key[0],
{
    reveal_strlit(": ");
    reveal_strlit("\n");
    reveal_strlit(": null\n");
    match v {
        Some(n) => {
            lemma_decimal_dash_free(n as nat);
            lemma_dash_free_no_marker(decimal(n as nat));
            lemma_dash_free_no_marker(": "@);
            lemma_dash_free_no_marker("\n"@);
            lemma_glue(key, ": "@);
            lemma_glue(key + ": "@, decimal(n as nat));
            lemma_glue(key + ": "@ + decimal(n as nat), "\n"@);
        },
        None => {
            lemma_dash_free_no_marker(": null\n"@);
            lemma_glue(key, ": null\n"@);
        },
    }
}

/// Where `p` first occurs from `i` on, when it occurs at `k` and nowhere between.
proof fn lemma_find_first(s: Seq<char>, p: Seq<char>, i: int, k: int)
    requires
        0 <= i <= k,
        occurs_at(s, p, k),
        forall|j: int| i <= j < k ==> !occurs_at(s, p, j),
    ensures
        find_from(s, p, i) == Some(k),
    decreases k - i,
{
    if i < k {
        lemma_find_first(s, p, i + 1, k);
    }
}

proof fn lemma_trim_line_feeds(x: Seq<char>, b: Seq<char>)
    requires
        forall|i: int| 0 <= i < x.len() ==> #[trigger] x[i] == '\n',
    ensures
        trim(x + b) == trim(b),
    decreases x.len(),
{
    if x.len() > 0 {
        assert((x + b)[0] == '\n');
        assert((x + b).drop_first() =~= x.drop_first() + b);
        lemma_trim_line_feeds(x.drop_first(), b);
    } else {
        assert(x + b =~= b);
    }
}

/// A document made of built frontmatter and a body splits back into the frontmatter's
/// YAML lines and the body (each trimmed), when no text field holds `---`.
pub proof fn lemma_frontmatter_splits_back(m: DocMetadata, body: Seq<char>)
    requires
        !contains(m.title@, "---"@),
        !contains(m.author@, "---"@),
        !contains(m.created.text@, "---"@),
        !contains(m.updated.text@, "---"@),
    ensures
        frontmatter_parts(frontmatter_text(m) + body) == Some((trim(yaml_lines(m)), trim(body))),
{
    reveal_strlit("---");
    reveal_strlit("---\n");
    reveal_strlit("---\n\n");
    reveal_strlit("number: ");
    reveal_strlit("\n");
    reveal_strlit("title: \"");
    reveal_strlit("\"\n");
    reveal_strlit("author: \"");
    reveal_strlit("created: ");
    reveal_strlit("updated: ");
    reveal_strlit("state: ");
    reveal_strlit("supersedes");
    reveal_strlit("superseded-by");
    let lf = "\n"@;
    let q = "\"\n"@;
    lemma_dash_free_no_marker("number: "@);
    lemma_dash_free_no_marker(lf);
    lemma_dash_free_no_marker("title: \""@);
    lemma_dash_free_no_marker(q);
    lemma_dash_free_no_marker("author: \""@);
    lemma_dash_free_no_marker("created: "@);
    lemma_dash_free_no_marker("updated: "@);
    lemma_dash_free_no_marker("state: "@);
    lemma_dash_free_no_marker("supersedes"@);
    let num = decimal(m.number as nat);
    lemma_decimal_dash_free(m.number as nat);
    lemma_dash_free_no_marker(num);
    lemma_state_name_dash_free(m.state);
    lemma_dash_free_no_marker(state_name(m.state));
    let sb = "superseded-by"@;
    if contains(sb, "---"@) {
        let i = choose|i: int| occurs_at(sb, "---"@, i);
        let w = sb.subrange(i, i + 3);
        assert(w[0] == sb[i] && w[1] == sb[i + 1]);
    }
    lemma_ref_line_clean("supersedes"@, m.supersedes);
    lemma_ref_line_clean(sb, m.superseded_by);
    let a1 = "number: "@ + num;
    lemma_glue("number: "@, num);
    let a2 = a1 + lf;
    lemma_glue(a1, lf);
    let a3 = a2 + "title: \""@;
    lemma_glue(a2, "title: \""@);
    let a4 = a3 + m.title@;
    lemma_glue(a3, m.title@);
    let a5 = a4 + q;
    lemma_glue(a4, q);
    let a6 = a5 + "author: \""@;
    lemma_glue(a5, "author: \""@);
    let a7 = a6 + m.author@;
    lemma_glue(a6, m.author@);
    let a8 = a7 + q;
    lemma_glue(a7, q);
    let a9 = a8 + "created: "@;
    lemma_glue(a8, "created: "@);
    let a10 = a9 + m.created.text@;
    lemma_glue(a9, m.created.text@);
    let a11 = a10 + lf;
    lemma_glue(a10, lf);
    let a12 = a11 + "updated: "@;
    lemma_glue(a11, "updated: "@);
    let a13 = a12 + m.updated.text@;
    lemma_glue(a12, m.updated.text@);
    let a14 = a13 + lf;
    lemma_glue(a13, lf);
    let a15 = a14 + "state: "@;
    lemma_glue(a14, "state: "@);
    let a16 = a15 + state_name(m.state);
    lemma_glue(a15, state_name(m.state));
    let a17 = a16 + lf;
    lemma_glue(a16, lf);
    let r1 = ref_line("supersedes"@, m.supersedes);
    let a18 = a17 + r1;
    lemma_glue(a17, r1);
    let r2 = ref_line(sb, m.superseded_by);
    let y = a18 + r2;
    lemma_glue(a18, r2);
    assert(y == yaml_lines(m));
    let head = lf + y;
    lemma_glue(lf, y);
    let t = frontmatter_text(m) + body;
    let close: int = 4 + y.len() as int;
    assert(t =~= "---\n"@ + y + "---\n\n"@ + body);
    assert(y.last() == '\n');
    assert(t.subrange(0, 3) =~= "---"@);
    assert(occurs_at(t, "---"@, 0));
    lemma_find_first(t, "---"@, 0, 0);
    assert(t.subrange(close, close + 3) =~= "---"@);
    assert(t.subrange(3, close) =~= head);
    assert forall|j: int| 3 <= j < close implies !occurs_at(t, "---"@, j) by {
        if occurs_at(t, "---"@, j) {
            let w = t.subrange(j, j + 3);
            if j + 3 <= close {
                assert(head.subrange(j - 3, j) =~= w) by {
                    assert forall|k: int| 0 <= k < 3 implies head.subrange(j - 3, j)[k] == w[k] by {
                        assert(head[j - 3 + k] == t[j + k]);
                    }
                }
                assert(occurs_at(head, "---"@, j - 3));
            } else {
                assert(t[close - 1] == y.last());
                assert(w[close - 1 - j] == t[close - 1]);
            }
        }
    }
    lemma_find_first(t, "---"@, 3, close);
    reveal_strlit("\n\n");
    assert(t.skip(close + 3) =~= "\n\n"@ + body);
    lemma_trim_line_feeds("\n\n"@, body);
    lemma_trim_line_feeds(lf, y);
}

/// Replaces the line of a frontmatter field with `FIELD: VALUE`.
pub fn update_yaml_field(content: &str, field: &str, value: &str) -> (r: Result<String, DocError>)
    ensures
        doc_result(r) == field_updated(content@, field@, value@),
{
    let mut p: Vec<char> = Vec::new();
    push_str(&mut p, "(?m)^");
    let esc = escape(field);
    push_str(&mut p, esc.as_str());
    push_str(&mut p, ": .*$");
    let pattern = string_from_chars(p.as_slice());
    let mut rv: Vec<char> = Vec::new();
    push_str(&mut rv, field);
    push_str(&mut rv, ": ");
    push_str(&mut rv, value);
    let rep = string_from_chars(rv.as_slice());
    match try_replace(pattern.as_str(), content, rep.as_str()) {
        Ok(s) => Ok(s),
        Err(m) => {
            let mut ev: Vec<char> = Vec::new();
            push_str(&mut ev, "Regex error: ");
            push_str(&mut ev, m.as_str());
            Err(DocError::InvalidFormat(string_from_chars(ev.as_slice())))
        },
    }
}

/// The content with its state set to `new_state` and its updated date set to `today`.
pub open spec fn state_updated(content: Seq<char>, new_state: DocState, today: Seq<char>) -> Result<
    Seq<char>,
    DocErrorV,
> {
    match field_updated(content, "state"@, state_name(new_state)) {
        Ok(c) => field_updated(c, "updated"@, today),
        Err(e) => Err(e),
    }
}

/// Sets the state and the updated date (`today`, as `YYYY-MM-DD`) in one go.
pub fn update_state(content: &str, new_state: DocState, today: &str) -> (r: Result<String, DocError>)
    ensures
        doc_result(r) == state_updated(content@, new_state, today@),
{
    match update_yaml_field(content, "state", new_state.as_str()) {
        Ok(c) => update_yaml_field(c.as_str(), "updated", today),
        Err(e) => Err(e),
    }
}

/// What reading a document gives: its frontmatter and body split at the `---` markers,
/// the frontmatter's YAML read as `yaml` says (the outcome of reading the frontmatter text
/// as metadata, or that reader's message), the body trimmed; `path` is where it lies.
pub open spec fn doc_parsed(
    content: Seq<char>,
    path: Seq<char>,
    yaml: Result<DocMetadataV, Seq<char>>,
) -> Result<DesignDocV, DocErrorV> {
    match frontmatter_parts(content) {
        None => Err(DocErrorV::InvalidFormat("Missing YAML frontmatter"@)),
        Some((_, body)) => match yaml {
            Err(m) => Err(DocErrorV::InvalidFormat("YAML parse error: "@ + m)),
            Ok(meta) => Ok(DesignDocV { metadata: meta, content: body, path }),
        },
    }
}

/// The metadata outcome as plain values.
pub open spec fn yaml_view(yaml: Result<DocMetadata, String>) -> Result<DocMetadataV, Seq<char>> {
    match yaml {
        Ok(m) => Ok(m.deep_view()),
        Err(e) => Err(e@),
    }
}

impl DesignDoc {
    /// Reads a document: its frontmatter and body are split at the `---` markers, and
    /// `yaml` is what reading that frontmatter's YAML as metadata gave (the metadata, or
    /// the reader's message).
    pub fn parse(content: &str, path: &str, yaml: Result<DocMetadata, String>) -> (r: Result<
        DesignDoc,
        DocError,
    >)
        ensures
            match r {
                Ok(d) => doc_parsed(content@, path@, yaml_view(yaml)) == Ok::<DesignDocV, DocErrorV>(
                    d.deep_view(),
                ),
                Err(e) => doc_parsed(content@, path@, yaml_view(yaml)) == Err::<DesignDocV, DocErrorV>(
                    e@,
                ),
            },
    {
        let (_, body) = match split_frontmatter(content) {
            Ok(parts) => parts,
            Err(e) => {
                return Err(e);
            },
        };
        match yaml {
            Err(m) => {
                let mut v: Vec<char> = Vec::new();
                push_str(&mut v, "YAML parse error: ");
                push_str(&mut v, m.as_str());
                Err(DocError::InvalidFormat(string_from_chars(v.as_slice())))
            },
            Ok(metadata) => Ok(DesignDoc { metadata, content: body, path: path.to_string() }),
        }
    }
}

/// A document made of built frontmatter and a body reads back, when no text field holds
/// `---`, as a document whose metadata is what reading the YAML lines gave (`meta`), whose
/// body is the given one trimmed, and whose path is where it lies.
pub proof fn lemma_built_document_reads_back(
    m: DocMetadata,
    body: Seq<char>,
    path: Seq<char>,
    meta: DocMetadataV,
)
    requires
        !contains(m.title@, "---"@),
        !contains(m.author@, "---"@),
        !contains(m.created.text@, "---"@),
        !contains(m.updated.text@, "---"@),
    ensures
        doc_parsed(frontmatter_text(m) + body, path, Ok(meta)) == Ok::<DesignDocV, DocErrorV>(
            DesignDocV { metadata: meta, content: trim(body), path },
        ),
{
    lemma_frontmatter_splits_back(m, body);
}

/// The content brought in line with the state directory it lies in: its state set to the
/// directory's (dated `today`) when they differ. `yaml` is what reading its frontmatter's
/// YAML as metadata gave.
pub open spec fn synced(
    path: Seq<char>,
    content: Seq<char>,
    yaml: Result<DocMetadataV, Seq<char>>,
    today: Seq<char>,
) -> Result<Seq<char>, DocErrorV> {
    match state_of_parent_dir(path) {
        None => Err(DocErrorV::InvalidFormat("Document not in a state directory"@)),
        Some(dir_state) => match doc_parsed(content, path, yaml) {
            Err(e) => Err(e),
            Ok(d) => if d.metadata.state != dir_state {
                state_updated(content, dir_state, today)
            } else {
                Ok(content)
            },
        },
    }
}

/// Brings a document's state in line with the state directory at `path`; `yaml` is what
/// reading its frontmatter's YAML as metadata gave, `today` the date written as updated.
pub fn sync_state_with_directory(
    path: &str,
    content: &str,
    yaml: Result<DocMetadata, String>,
    today: &str,
) -> (r: Result<String, DocError>)
    ensures
        doc_result(r) == synced(path@, content@, yaml_view(yaml), today@),
{
    let dir_state = match state_from_directory(path) {
        Some(s) => s,
        None => {
            return Err(DocError::InvalidFormat(text_of("Document not in a state directory")));
        },
    };
    let doc = match DesignDoc::parse(content, path, yaml) {
        Ok(d) => d,
        Err(e) => {
            return Err(e);
        },
    };
    if doc.metadata.state != dir_state {
        update_state(content, dir_state, today)
    } else {
        Ok(content.to_string())
    }
}

/// Syncing refuses a document with "Document not in a state directory" exactly when its
/// path lies outside a state directory, whatever its content and whatever reading its
/// frontmatter gave.
pub proof fn lemma_sync_refuses_only_outside_state_dirs(
    path: Seq<char>,
    content: Seq<char>,
    yaml: Result<DocMetadataV, Seq<char>>,
    today: Seq<char>,
)
    ensures
        (synced(path, content, yaml, today) == Err::<Seq<char>, DocErrorV>(
            DocErrorV::InvalidFormat("Document not in a state directory"@),
        )) <==> state_of_parent_dir(path) is None,
{
    let msg = "Document not in a state directory"@;
    reveal_strlit("Document not in a state directory");
    reveal_strlit("Regex error: ");
    reveal_strlit("YAML parse error: ");
    reveal_strlit("Missing YAML frontmatter");
    assert(msg[0] == 'D');
    assert forall|x: Seq<char>| ("Regex error: "@ + x) != msg by {
        assert(("Regex error: "@ + x)[0] == 'R');
    }
    assert forall|x: Seq<char>| ("YAML parse error: "@ + x) != msg by {
        assert(("YAML parse error: "@ + x)[0] == 'Y');
    }
    assert("Missing YAML frontmatter"@[0] == 'M');
    assert("Missing YAML frontmatter"@ != msg);
    match state_of_parent_dir(path) {
        None => {},
        Some(d) => match doc_parsed(content, path, yaml) {
            Err(e) => {},
            Ok(doc) => {
                if doc.metadata.state != d {
                    let p1 = field_pattern("state"@);
                    let p2 = field_pattern("updated"@);
                    if !regex_compiles(p1) {
                        assert(("Regex error: "@ + regex_error_message(p1)) != msg);
                    } else if !regex_compiles(p2) {
                        assert(("Regex error: "@ + regex_error_message(p2)) != msg);
                    }
                }
            },
        },
    }
}

// ---------------------------------------------------------------------------
// File names
// ---------------------------------------------------------------------------

/// Whether a character is kept in a file name: alphanumeric or a hyphen.
pub open spec fn keeps_char(c: char) -> bool {
    is_alphanumeric(c) || c == '-'
}

/// The characters of `s` that a file name keeps.
pub open spec fn kept_chars(s: Seq<char>) -> Seq<char>
    decreases s.len(),
{
    if s.len() == 0 {
        Seq::empty()
    } else if keeps_char(s.last()) {
        kept_chars(s.drop_last()).push(s.last())
    } else {
        kept_chars(s.drop_last())
    }
}

/// A space becomes a hyphen.
pub open spec fn space_to_hyphen(c: char) -> char {
    if c == ' ' {
        '-'
    } else {
        c
    }
}

/// The file name of a document: its four-digit number, then its lowercased title with
/// spaces as hyphens and only alphanumerics and hyphens kept, then `.md`.
pub open spec fn doc_filename(number: u32, title: Seq<char>) -> Seq<char> {
    zero_padded(number as nat, 4) + "-"@ + kept_chars(
        lowercase(title).map_values(|c: char| space_to_hyphen(c)),
    ) + ".md"@
}

/// The ASCII digits of `s`, in order.
pub open spec fn digits_in(s: Seq<char>) -> Seq<char>
    decreases s.len(),
{
    if s.len() == 0 {
        s
    } else if is_ascii_digit(s.last()) {
        digits_in(s.drop_last()).push(s.last())
    } else {
        digits_in(s.drop_last())
    }
}

/// The ASCII letters of `s`, in order, each in lowercase.
pub open spec fn lower_letters_in(s: Seq<char>) -> Seq<char>
    decreases s.len(),
{
    if s.len() == 0 {
        s
    } else if is_ascii_alpha(s.last()) {
        lower_letters_in(s.drop_last()).push(ascii_lower_char(s.last()))
    } else {
        lower_letters_in(s.drop_last())
    }
}

/// How many times `c` occurs in `s`.
pub open spec fn occurrences(s: Seq<char>, c: char) -> nat
    decreases s.len(),
{
    if s.len() == 0 {
        0
    } else {
        occurrences(s.drop_last(), c) + if s.last() == c {
            1nat
        } else {
            0nat
        }
    }
}

/// A character a file name may hold: a lowercase ASCII letter, an ASCII digit or a hyphen.
pub open spec fn file_name_char(c: char) -> bool {
    is_ascii_lower(c) || is_ascii_digit(c) || c == '-'
}

/// What one title character becomes before the file name keeps it or not.
spec fn name_form(c: char) -> char {
    space_to_hyphen(ascii_lower_char(c))
}

/// The characters of `s` that a file name may hold, in order, as a file name writes them:
/// spaces as hyphens, ASCII letters in lowercase, and only lowercase letters, digits and
/// hyphens kept.
pub open spec fn file_chars_of(s: Seq<char>) -> Seq<char>
    decreases s.len(),
{
    if s.len() == 0 {
        s
    } else {
        let c = if s.last() == ' ' {
            '-'
        } else {
            ascii_lower_char(s.last())
        };
        if file_name_char(c) {
            file_chars_of(s.drop_last()).push(c)
        } else {
            file_chars_of(s.drop_last())
        }
    }
}

proof fn lemma_kept_title(t: Seq<char>)
    requires
        all_ascii(t),
    ensures
        ({
            let part = kept_chars(t.map_values(|c: char| name_form(c)));
            &&& part == file_chars_of(t)
            &&& forall|i: int| 0 <= i < part.len() ==> file_name_char(#[trigger] part[i])
            &&& digits_in(part) == digits_in(t)
            &&& lower_letters_in(part) == lower_letters_in(t)
            &&& occurrences(part, '-') == occurrences(t, ' ') + occurrences(t, '-')
        }),
    decreases t.len(),
{
    let m = t.map_values(|c: char| name_form(c));
    if t.len() > 0 {
        let u = t.drop_last();
        assert forall|i: int| 0 <= i < u.len() implies is_ascii_char(#[trigger] u[i]) by {
            assert(u[i] == t[i]);
        }
        lemma_kept_title(u);
        let mu = u.map_values(|c: char| name_form(c));
        assert(m.drop_last() =~= mu);
        let c = t.last();
        assert(is_ascii_char(t[t.len() - 1]));
        let g = name_form(c);
        assert(m.last() == g);
        let pu = kept_chars(mu);
        let part = kept_chars(m);
        if is_ascii_upper(c) {
            assert(g == ((c as u32) + 32) as char);
            assert((g as u32) == (c as u32) + 32);
            assert(is_ascii_lower(g));
            assert(keeps_char(g));
            assert(part == pu.push(g));
        } else if is_ascii_lower(c) || is_ascii_digit(c) {
            assert(g == c);
            assert(keeps_char(g));
            assert(part == pu.push(g));
        } else if c == ' ' || c == '-' {
            assert(g == '-');
            assert(keeps_char(g));
            assert(part == pu.push(g));
        } else {
            assert(g == c);
            assert(!keeps_char(g));
            assert(part == pu);
        }
        assert forall|i: int| 0 <= i < part.len() implies file_name_char(#[trigger] part[i]) by {
            if i < pu.len() {
                assert(part[i] == pu[i]);
            }
        }
        if keeps_char(g) {
            assert(part.drop_last() =~= pu);
        }
    }
}

/// A document's file name keeps its title, for a title of ASCII characters: between the
/// four-digit number with its hyphen and `.md` stand the title's letters (in lowercase),
/// digits and hyphens, with a hyphen for each space, in the title's order, and nothing
/// else; so the title's digits all appear there, in order; so do its letters, in order and
/// in lowercase; and there is one hyphen for each space and each hyphen of the title.
pub proof fn lemma_doc_filename_keeps_title(number: u32, title: Seq<char>)
    requires
        all_ascii(title),
    ensures
        exists|part: Seq<char>|
            #[trigger] (zero_padded(number as nat, 4) + "-"@ + part + ".md"@) == doc_filename(
                number,
                title,
            ) && part == file_chars_of(title) && (forall|i: int| 0 <= i < part.len() ==> file_name_char(
                #[trigger] part[i],
            ))
                && digits_in(part) == digits_in(title) && lower_letters_in(part) == lower_letters_in(
                title,
            ) && occurrences(part, '-') == occurrences(title, ' ') + occurrences(title, '-'),
{
    lemma_kept_title(title);
    assert(lowercase(title) == ascii_lower(title));
    assert(ascii_lower(title).map_values(|c: char| space_to_hyphen(c)) =~= title.map_values(
        |c: char| name_form(c),
    ));
    let part = kept_chars(title.map_values(|c: char| name_form(c)));
    assert(zero_padded(number as nat, 4) + "-"@ + part + ".md"@ == doc_filename(number, title));
}

/// The file name a document numbered `number` with title `title` should have.
pub fn doc_file_name(number: u32, title: &str) -> (r: String)
    ensures
        r@ == doc_filename(number, title@),
{
    let lower = str_to_lowercase(title);
    let cs = chars_of(lower.as_str());
    let ghost mapped = cs@.map_values(|c: char| space_to_hyphen(c));
    let mut kept: Vec<char> = Vec::new();
    let mut i: usize = 0;
    while i < cs.len()
        invariant
            i <= cs@.len(),
            mapped == cs@.map_values(|c: char| space_to_hyphen(c)),
            kept@ == kept_chars(mapped.take(i as int)),
        decreases cs@.len() - i,
    {
        let c = if cs[i] == ' ' {
            '-'
        } else {
            cs[i]
        };
        proof {
            assert(mapped.take(i + 1).drop_last() =~= mapped.take(i as int));
            assert(mapped.take(i + 1).last() == c);
        }
        if char_is_alphanumeric(c) || c == '-' {
            kept.push(c);
        }
        i = i + 1;
    }
    assert(mapped.take(cs@.len() as int) =~= mapped);
    let mut v = zero_padded_chars(number as u64, 4);
    push_str(&mut v, "-");
    push_all(&mut v, kept.as_slice());
    push_str(&mut v, ".md");
    string_from_chars(v.as_slice())
}

impl DesignDoc {
    /// The file name this document should have.
    pub fn filename(&self) -> (r: String)
        ensures
            r@ == doc_filename(self.metadata.number, self.metadata.title@),
    {
        doc_file_name(self.metadata.number, self.metadata.title.as_str())
    }
}

} // verus!
