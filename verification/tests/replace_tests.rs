use oxur::design::doc::DocState;
use oxur::design::docmeta::{build_yaml_frontmatter, DocMetadata};
use oxur::design::replace::{extract_basic_doc, merge_metadata, read_replacement, replacement_plan};
use oxur::design::validate::DateStamp;

fn meta(number: u32, title: &str, author: &str, state: DocState) -> DocMetadata {
    DocMetadata {
        number,
        title: title.to_string(),
        author: author.to_string(),
        created: DateStamp::from_ymd(2024, 1, 1),
        updated: DateStamp::from_ymd(2024, 1, 2),
        state,
        supersedes: None,
        superseded_by: None,
    }
}

#[test]
fn merge_keeps_number_and_created_and_prefers_real_new_values() {
    let mut old = meta(5, "Old Title", "Alice", DocState::Final);
    old.supersedes = Some(2);
    let mut new = meta(0, "Untitled Document", "Bob", DocState::Accepted);
    new.created = DateStamp::from_ymd(2025, 2, 2);
    new.superseded_by = Some(9);
    let today = DateStamp::from_ymd(2025, 3, 4);
    let m = merge_metadata(&old, &new, 7, &today);
    assert_eq!(m.number, 7);
    assert_eq!(m.title, "Old Title");
    assert_eq!(m.author, "Bob");
    assert_eq!(m.created.text, "2024-01-01");
    assert_eq!(m.updated.text, "2025-03-04");
    assert_eq!(m.state, DocState::Draft);
    assert_eq!(m.supersedes, Some(2));
    assert_eq!(m.superseded_by, Some(9));

    let new = meta(0, "New Title", "", DocState::Draft);
    let m = merge_metadata(&old, &new, 5, &today);
    assert_eq!(m.title, "New Title");
    assert_eq!(m.author, "Alice");
    let new = meta(0, "", "Unknown Author", DocState::Draft);
    let m = merge_metadata(&old, &new, 5, &today);
    assert_eq!(m.title, "Old Title");
    assert_eq!(m.author, "Alice");
}

#[test]
fn a_new_version_without_frontmatter_is_read_from_its_text() {
    let today = DateStamp::from_ymd(2025, 3, 4);
    let d = read_replacement("# Fresh Start\n\nText.", "in/new.md", "new.md", Err("none".to_string()), "Carol", &today);
    assert_eq!(d.metadata.title, "Fresh Start");
    assert_eq!(d.metadata.author, "Carol");
    assert_eq!(d.metadata.number, 0);
    assert_eq!(d.metadata.state, DocState::Draft);
    assert_eq!(d.content, "# Fresh Start\n\nText.");
    let broken = "---\nnot: [valid\n---\n# Kept\nBody";
    let d = read_replacement(broken, "in/new.md", "new.md", Err("bad yaml".to_string()), "Carol", &today);
    assert_eq!(d.metadata.title, "Kept");
    assert_eq!(d.content, broken);
    let b = extract_basic_doc("no heading", "in/0012-some-name.md", "0012-some-name.md", "Dan", &today);
    assert_eq!(b.metadata.title, "Some Name");
}

#[test]
fn a_new_version_with_frontmatter_keeps_what_it_says() {
    let today = DateStamp::from_ymd(2025, 3, 4);
    let text = "---\nnumber: 3\ntitle: \"Given\"\n---\n\nThe body.\n";
    let d = read_replacement(text, "in/new.md", "new.md", Ok(meta(3, "Given", "Eve", DocState::Active)), "Carol", &today);
    assert_eq!(d.metadata.title, "Given");
    assert_eq!(d.metadata.author, "Eve");
    assert_eq!(d.content, "The body.");
}

#[test]
fn the_plan_names_the_files_and_writes_the_text() {
    let merged = meta(5, "New Title", "Bob", DocState::Draft);
    let plan = replacement_plan(
        "docs/06-final/0005-old-title.md",
        "1a2b3c4d-0000-4000-8000-000000000000",
        5,
        &merged,
        "\n  Body text.\n\n",
    )
    .unwrap();
    assert_eq!(plan.file_name, "0005-new-title.md");
    assert_eq!(plan.dustbin_name, "0005-old-title-1a2b3c4d.md");
    assert_eq!(plan.content, format!("{}\nBody text.", build_yaml_frontmatter(&merged)));
    assert!(replacement_plan("/", "1a2b3c4d", 5, &merged, "x").is_none());
}

#[test]
fn dates_are_written_with_padded_fields() {
    assert_eq!(DateStamp::from_ymd(2024, 3, 5).text, "2024-03-05");
    assert_eq!(DateStamp::from_ymd(7, 11, 30).text, "0007-11-30");
}
