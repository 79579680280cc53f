//! Replacing a document while it keeps its number: the metadata of the old and the new
//! version merged, the new version read (with or without frontmatter), and the names and
//! text that the replacement writes.

use crate::design::doc::DocState;
use crate::design::docmeta::{
    build_yaml_frontmatter, clone_date, clone_string, doc_parsed, extract_title_from_content,
    frontmatter_text, title_of, yaml_view, DateStampV, DesignDoc, DesignDocV, DocMetadata,
    DocMetadataV,
};
use crate::design::filename::{build_filename, slug_of};
use crate::design::state::{uuid_head, uuid_head_of, without_md, without_md_chars};
use crate::design::validate::DateStamp;
use crate::paths::{file_name_of, path_file_name};
use crate::text::{chars_of, push_all, push_str, string_from_chars, zero_padded};
use crate::textops::{starts_with_str, str_equal, trim, trim_start, trimmed, trimmed_start};
use vstd::prelude::*;

verus! {

/// The new version's text, unless it is empty or the placeholder, else the old version's.
pub open spec fn kept_text(new: Seq<char>, old: Seq<char>, placeholder: Seq<char>) -> Seq<char> {
    if new.len() > 0 && new != placeholder {
        new
    } else {
        old
    }
}

/// The new version's reference when it has one, else the old version's.
pub open spec fn kept_ref(new: Option<u32>, old: Option<u32>) -> Option<u32> {
    match new {
        Some(n) => Some(n),
        None => old,
    }
}

/// The metadata of a replacement: the kept number, the old version's creation date,
/// updated `today`, a draft again; the new version's title and author unless they are
/// empty or the placeholders, and its references where it has them.
pub open spec fn merged_metadata(
    old: DocMetadataV,
    new: DocMetadataV,
    number: u32,
    today: DateStampV,
) -> DocMetadataV {
    DocMetadataV {
        number,
        title: kept_text(new.title, old.title, "Untitled Document"@),
        author: kept_text(new.author, old.author, "Unknown Author"@),
        created: old.created,
        updated: today,
        state: DocState::Draft,
        supersedes: kept_ref(new.supersedes, old.supersedes),
        superseded_by: kept_ref(new.superseded_by, old.superseded_by),
    }
}

fn kept_string(new: &String, old: &String, placeholder: &str) -> (r: String)
    ensures
        r@ == kept_text(new@, old@, placeholder@),
{
    if chars_of(new.as_str()).len() > 0 && !str_equal(new.as_str(), placeholder) {
        clone_string(new)
    } else {
        clone_string(old)
    }
}

/// Merges the metadata of the old and the new version of a replaced document.
pub fn merge_metadata(old: &DocMetadata, new: &DocMetadata, number: u32, today: &DateStamp) -> (m:
    DocMetadata)
    ensures
        m.deep_view() == merged_metadata(old.deep_view(), new.deep_view(), number, today.deep_view()),
        old.created.wf() ==> m.created.wf(),
        today.wf() ==> m.updated.wf(),
{
    let m = DocMetadata {
        number,
        title: kept_string(&new.title, &old.title, "Untitled Document"),
        author: kept_string(&new.author, &old.author, "Unknown Author"),
        created: clone_date(&old.created),
        updated: clone_date(today),
        state: DocState::Draft,
        supersedes: match new.supersedes {
            Some(n) => Some(n),
            None => old.supersedes,
        },
        superseded_by: match new.superseded_by {
            Some(n) => Some(n),
            None => old.superseded_by,
        },
    };
    m
}

/// What is read of a document without usable frontmatter: its title from its first
/// heading or file name, the given author, dated `today`, a draft, the whole text as body.
pub open spec fn basic_doc(
    content: Seq<char>,
    path: Seq<char>,
    file_name: Seq<char>,
    author: Seq<char>,
    today: DateStampV,
) -> DesignDocV {
    DesignDocV {
        metadata: DocMetadataV {
            number: 0,
            title: title_of(content, file_name),
            author,
            created: today,
            updated: today,
            state: DocState::Draft,
            supersedes: None,
            superseded_by: None,
        },
        content,
        path,
    }
}

/// Reads a document whose frontmatter is missing or broken, as far as it can be read.
pub fn extract_basic_doc(content: &str, path: &str, file_name: &str, author: &str, today: &DateStamp) -> (r:
    DesignDoc)
    ensures
        r.deep_view() == basic_doc(content@, path@, file_name@, author@, today.deep_view()),
{
    DesignDoc {
        metadata: DocMetadata {
            number: 0,
            title: extract_title_from_content(content, file_name),
            author: author.to_string(),
            created: clone_date(today),
            updated: clone_date(today),
            state: DocState::Draft,
            supersedes: None,
            superseded_by: None,
        },
        content: content.to_string(),
        path: path.to_string(),
    }
}

/// The new version of a replaced document: read with its frontmatter when the text opens
/// with `---` and reads (`yaml` being what reading its YAML gave), else read as far as it
/// can be without.
pub open spec fn replacement_doc_spec(
    content: Seq<char>,
    path: Seq<char>,
    file_name: Seq<char>,
    yaml: Result<DocMetadataV, Seq<char>>,
    author: Seq<char>,
    today: DateStampV,
) -> DesignDocV {
    if "---"@.is_prefix_of(trim_start(content)) {
        match doc_parsed(content, path, yaml) {
            Ok(d) => d,
            Err(_) => basic_doc(content, path, file_name, author, today),
        }
    } else {
        basic_doc(content, path, file_name, author, today)
    }
}

/// Reads the new version of a replaced document.
pub fn read_replacement(
    content: &str,
    path: &str,
    file_name: &str,
    yaml: Result<DocMetadata, String>,
    author: &str,
    today: &DateStamp,
) -> (r: DesignDoc)
    ensures
        r.deep_view() == replacement_doc_spec(
            content@,
            path@,
            file_name@,
            yaml_view(yaml),
            author@,
            today.deep_view(),
        ),
{
    let cs = chars_of(content);
    let t = trimmed_start(cs.as_slice());
    if starts_with_str(t.as_slice(), "---") {
        match DesignDoc::parse(content, path, yaml) {
            Ok(d) => d,
            Err(_) => extract_basic_doc(content, path, file_name, author, today),
        }
    } else {
        extract_basic_doc(content, path, file_name, author, today)
    }
}

/// What a replacement writes: the new version's file name (in the draft directory), the
/// name the old version takes in the dustbin, and the new version's text.
pub struct ReplacementPlan {
    pub file_name: String,
    pub dustbin_name: String,
    pub content: String,
}

/// Plans a replacement: the new file is named by the kept number and the merged title;
/// the old file goes to the dustbin under its name without `.md`, a hyphen, the first
/// group of `uuid`, and `.md`; the new text is the merged frontmatter, a line feed and
/// the trimmed body. `None` when the old path has no file name.
pub fn replacement_plan(
    old_path: &str,
    uuid: &str,
    number: u32,
    merged: &DocMetadata,
    body: &str,
) -> (r: Option<ReplacementPlan>)
    ensures
        match path_file_name(old_path@) {
            None => r is None,
            Some(name) => r matches Some(p) && p.file_name@ == zero_padded(number as nat, 4) + "-"@
                + slug_of(merged.title@) + ".md"@ && p.dustbin_name@ == without_md(name) + "-"@
                + uuid_head(uuid@) + ".md"@ && p.content@ == frontmatter_text(*merged) + "\n"@ + trim(
                body@,
            ),
        },
{
    let name = match file_name_of(old_path) {
        Some(n) => n,
        None => {
            return None;
        },
    };
    let file_name = build_filename(number, merged.title.as_str());
    let mut d: Vec<char> = without_md_chars(name.as_str());
    push_str(&mut d, "-");
    let head = uuid_head_of(uuid);
    push_all(&mut d, head.as_slice());
    push_str(&mut d, ".md");
    let mut c: Vec<char> = Vec::new();
    let fm = build_yaml_frontmatter(merged);
    push_str(&mut c, fm.as_str());
    push_str(&mut c, "\n");
    let bc = chars_of(body);
    let bt = trimmed(bc.as_slice());
    push_all(&mut c, bt.as_slice());
    Some(
        ReplacementPlan {
            file_name,
            dustbin_name: string_from_chars(d.as_slice()),
            content: string_from_chars(c.as_slice()),
        },
    )
}

} // verus!
