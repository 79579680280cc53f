//! Taking a markdown file in as a design document: its title, author, number, file name,
//! frontmatter and body.

use crate::design::doc::DocState;
use crate::design::docmeta::{build_yaml_frontmatter, doc_file_name, doc_filename, frontmatter_text, DocMetadata};
use crate::design::extract::ExtractedMetadata;
use crate::design::filename::{build_filename, filename_to_title, slug_of, title_of_name};
use crate::design::normalize::{strip_frontmatter, strip_frontmatter_spec};
use crate::design::validate::DateStamp;
use crate::text::{chars_of, decimal, decimal_chars, push_all, push_str, string_from_chars, zero_padded};
use crate::textops::{trim, trimmed};
use vstd::prelude::*;

verus! {

fn copy_text(s: &String) -> (r: String)
    ensures
        r@ == s@,
{
    s.clone()
}

/// The title a document gets without asking: the one its content names, else its first
/// heading, else one made from its file name.
pub open spec fn auto_title(title: Option<String>, heading: Option<String>, filename: Seq<char>) -> Seq<char> {
    match title {
        Some(t) => t@,
        None => match heading {
            Some(h) => h@,
            None => title_of_name(filename),
        },
    }
}

/// The title a document gets without asking.
pub fn determine_title_auto(extracted: &ExtractedMetadata, filename: &str) -> (r: String)
    ensures
        r@ == auto_title(extracted.title, extracted.first_heading, filename@),
{
    match &extracted.title {
        Some(t) => copy_text(t),
        None => match &extracted.first_heading {
            Some(h) => copy_text(h),
            None => filename_to_title(filename),
        },
    }
}

/// The author a document gets without asking: the one its content names, else
/// `fallback` (the author git knows of).
pub fn determine_author_auto(extracted: &ExtractedMetadata, fallback: &str) -> (r: String)
    ensures
        r@ == match extracted.author {
            Some(a) => a@,
            None => fallback@,
        },
{
    match &extracted.author {
        Some(a) => copy_text(a),
        None => fallback.to_string(),
    }
}

/// A document's body once taken in: without its old frontmatter, trimmed, and ended by
/// a newline unless empty.
pub open spec fn taken_body(content: Seq<char>, has_frontmatter: bool) -> Seq<char> {
    let b = trim(
        if has_frontmatter {
            strip_frontmatter_spec(content)
        } else {
            content
        },
    );
    if b.len() > 0 && b.last() != '\n' {
        b.push('\n')
    } else {
        b
    }
}

/// A document ready to be written: its metadata, its file name, and its text.
pub struct PreparedDocument {
    pub metadata: DocMetadata,
    pub filename: String,
    pub content: String,
}

/// Takes a document in as number `number`: metadata with `today` as both dates and no
/// references, the file name `NNNN-slug.md`, and the complete frontmatter followed by the
/// body without its old frontmatter.
pub fn prepare_document(
    content: &str,
    has_frontmatter: bool,
    number: u32,
    title: &str,
    author: &str,
    state: DocState,
    today: &DateStamp,
) -> (r: PreparedDocument)
    ensures
        r.metadata.number == number,
        r.metadata.title@ == title@,
        r.metadata.author@ == author@,
        r.metadata.created.text@ == today.text@,
        r.metadata.created.year == today.year && r.metadata.created.month == today.month
            && r.metadata.created.day == today.day,
        r.metadata.updated.text@ == today.text@,
        r.metadata.updated.year == today.year && r.metadata.updated.month == today.month
            && r.metadata.updated.day == today.day,
        r.metadata.state == state,
        r.metadata.supersedes is None,
        r.metadata.superseded_by is None,
        today.wf() ==> r.metadata.created.wf() && r.metadata.updated.wf(),
        r.filename@ == zero_padded(number as nat, 4) + "-"@ + slug_of(title@) + ".md"@,
        r.content@ == frontmatter_text(r.metadata) + taken_body(content@, has_frontmatter),
{
    let metadata = DocMetadata {
        number,
        title: title.to_string(),
        author: author.to_string(),
        created: DateStamp { year: today.year, month: today.month, day: today.day, text: copy_text(&today.text) },
        updated: DateStamp { year: today.year, month: today.month, day: today.day, text: copy_text(&today.text) },
        state,
        supersedes: None,
        superseded_by: None,
    };
    let stripped = if has_frontmatter {
        strip_frontmatter(content)
    } else {
        content.to_string()
    };
    let cs = chars_of(stripped.as_str());
    let mut body = trimmed(cs.as_slice());
    if body.len() > 0 && body[body.len() - 1] != '\n' {
        body.push('\n');
    }
    let front = build_yaml_frontmatter(&metadata);
    let mut text = chars_of(front.as_str());
    push_all(&mut text, body.as_slice());
    let filename = build_filename(number, title);
    PreparedDocument { metadata, filename, content: string_from_chars(text.as_slice()) }
}

/// The outline a new document starts from, after its title heading.
pub open spec fn outline() -> Seq<char> {
    "\n\n## Overview\n\n*Brief description of what this document covers*\n\n## Background\n\n*Context and motivation for this design*\n\n## Proposal\n\n*Detailed description of the proposed design*\n\n## Alternatives Considered\n\n*What other approaches were considered and why were they rejected?*\n\n## Implementation Plan\n\n*Steps needed to implement this design*\n\n## Open Questions\n\n*Unresolved questions that need discussion*\n\n## Success Criteria\n\n*How will we know this design is successful?*\n"@
}

/// The text of a new draft: its frontmatter (dated `today`, no references), its title
/// heading, and the outline.
pub open spec fn new_document_spec(number: u32, title: Seq<char>, author: Seq<char>, today: Seq<char>) -> Seq<char> {
    "---\nnumber: "@ + decimal(number as nat) + "\ntitle: \""@ + title + "\"\nauthor: \""@ + author
        + "\"\ncreated: "@ + today + "\nupdated: "@ + today
        + "\nstate: Draft\nsupersedes: null\nsuperseded-by: null\n---\n\n# "@ + title + outline()
}

/// A new draft numbered `number`: its text and its file name.
pub fn new_document_text(number: u32, title: &str, author: &str, today: &str) -> (r: (String, String))
    ensures
        r.0@ == new_document_spec(number, title@, author@, today@),
        r.1@ == doc_filename(number, title@),
{
    let mut v: Vec<char> = Vec::new();
    push_str(&mut v, "---\nnumber: ");
    let d = decimal_chars(number as u64);
    push_all(&mut v, d.as_slice());
    push_str(&mut v, "\ntitle: \"");
    push_str(&mut v, title);
    push_str(&mut v, "\"\nauthor: \"");
    push_str(&mut v, author);
    push_str(&mut v, "\"\ncreated: ");
    push_str(&mut v, today);
    push_str(&mut v, "\nupdated: ");
    push_str(&mut v, today);
    push_str(&mut v, "\nstate: Draft\nsupersedes: null\nsuperseded-by: null\n---\n\n# ");
    push_str(&mut v, title);
    push_str(&mut v, "\n\n## Overview\n\n*Brief description of what this document covers*\n\n## Background\n\n*Context and motivation for this design*\n\n## Proposal\n\n*Detailed description of the proposed design*\n\n## Alternatives Considered\n\n*What other approaches were considered and why were they rejected?*\n\n## Implementation Plan\n\n*Steps needed to implement this design*\n\n## Open Questions\n\n*Unresolved questions that need discussion*\n\n## Success Criteria\n\n*How will we know this design is successful?*\n");
    (string_from_chars(v.as_slice()), doc_file_name(number, title))
}

} // verus!
