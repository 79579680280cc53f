use oxur::design::doc::DocState;
use oxur::design::docmeta::{DesignDoc, DocMetadata};
use oxur::design::index_sync::{IndexChange, ParsedIndex};
use oxur::design::strmap::StrMap;
use oxur::design::update_index::{
    add_to_section, add_to_table, apply_change, plan_index_update, remove_from_section,
    remove_from_table, update_table_field,
};
use oxur::design::validate::DateStamp;

const INDEX: &str = "# Design Documents Index

## All Documents by Number

| Number | Title | State | Updated |
|--------|-------|-------|---------|
| 0001 | First Doc | Draft | 2024-01-01 |
| 0003 | Third Doc | Final | 2024-01-03 |

## Documents by State

### Draft

- [0001 - First Doc](01-draft/0001-first-doc.md)

### Final

- [0003 - Third Doc](06-final/0003-third-doc.md)
";

#[test]
fn add_to_table_keeps_number_order() {
    let out = add_to_table(INDEX, "0002", "Second Doc", "Draft", "2024-01-02");
    let lines: Vec<&str> = out.lines().collect();
    let i1 = lines.iter().position(|l| l.starts_with("| 0001 |")).unwrap();
    let i2 = lines.iter().position(|l| *l == "| 0002 | Second Doc | Draft | 2024-01-02 |").unwrap();
    let i3 = lines.iter().position(|l| l.starts_with("| 0003 |")).unwrap();
    assert!(i1 < i2 && i2 < i3);
}

#[test]
fn add_to_table_with_largest_number_goes_before_last_row() {
    // At the table's last row, the scan puts the new row in front of that row.
    let out = add_to_table(INDEX, "0009", "Ninth", "Active", "2024-02-02");
    let lines: Vec<&str> = out.lines().collect();
    let i3 = lines.iter().position(|l| l.starts_with("| 0003 |")).unwrap();
    assert_eq!(lines[i3 - 1], "| 0009 | Ninth | Active | 2024-02-02 |");
    assert_eq!(lines[i3 + 1], "");
}

#[test]
fn update_table_field_rewrites_one_cell() {
    let out = update_table_field(INDEX, "0001", "state", "Final");
    assert!(out.contains("| 0001 | First Doc | Final | 2024-01-01 |"));
    assert!(out.contains("| 0003 | Third Doc | Final | 2024-01-03 |"));
    let out = update_table_field(INDEX, "0003", "title", "Renamed");
    assert!(out.contains("| 0003 | Renamed | Final | 2024-01-03 |"));
    let out = update_table_field(INDEX, "0003", "updated", "2025-05-05");
    assert!(out.contains("| 0003 | Third Doc | Final | 2025-05-05 |"));
}

#[test]
fn remove_from_table_drops_the_row() {
    let out = remove_from_table(INDEX, "0001");
    assert!(!out.contains("| 0001 |"));
    assert!(out.contains("| 0003 | Third Doc |"));
    // The text is rejoined without its final newline.
    assert_eq!(out.lines().count(), INDEX.lines().count() - 1);
}

#[test]
fn add_to_section_inserts_in_number_order() {
    let out = add_to_section(INDEX, "Draft", "0000", "Zero", "01-draft/0000-zero.md");
    let lines: Vec<&str> = out.lines().collect();
    let iz = lines.iter().position(|l| *l == "- [0000 - Zero](01-draft/0000-zero.md)").unwrap();
    let i1 = lines.iter().position(|l| l.starts_with("- [0001")).unwrap();
    assert!(iz < i1);
}

#[test]
fn add_to_section_creates_missing_section() {
    let out = add_to_section(INDEX, "Active", "0005", "Fifth", "05-active/0005-fifth.md");
    let lines: Vec<&str> = out.lines().collect();
    let i = lines.iter().position(|l| *l == "## Documents by State").unwrap();
    assert_eq!(lines[i + 1], "");
    assert_eq!(lines[i + 2], "### Active");
    assert_eq!(lines[i + 3], "");
    assert_eq!(lines[i + 4], "- [0005 - Fifth](05-active/0005-fifth.md)");
}

#[test]
fn remove_from_section_drops_a_section_left_empty() {
    let out = remove_from_section(INDEX, "Draft", "01-draft/0001-first-doc.md");
    assert!(!out.contains("### Draft"));
    assert!(!out.contains("0001-first-doc.md)"));
    assert!(out.contains("### Final"));
}

#[test]
fn remove_from_section_keeps_a_section_with_other_entries() {
    // The section heading starts another heading, so the scan is out of the section
    // again at once, and the entry stays.
    let content = "### Draft\n\n- [0001 - A](a.md)\n- [0002 - B](b.md)";
    let out = remove_from_section(content, "Draft", "a.md");
    assert_eq!(out, content);
}

fn doc(number: u32, title: &str, state: DocState, path: &str) -> DesignDoc {
    let d = DateStamp { year: 2024, month: 1, day: 1, text: "2024-01-01".to_string() };
    DesignDoc {
        metadata: DocMetadata {
            number,
            title: title.to_string(),
            author: "A".to_string(),
            created: d.clone(),
            updated: d,
            state,
            supersedes: None,
            superseded_by: None,
        },
        content: String::new(),
        path: path.to_string(),
    }
}

#[test]
fn apply_change_dispatches() {
    let docs: StrMap<DesignDoc> = StrMap::new();
    let c = IndexChange::TableRemove { number: "0003".to_string() };
    assert_eq!(apply_change(INDEX, &c, &docs, "docs"), remove_from_table(INDEX, "0003"));
    let c = IndexChange::SectionAdd {
        state: "Final".to_string(),
        number: "0004".to_string(),
        title: "Four".to_string(),
        path: "06-final/0004-four.md".to_string(),
    };
    assert_eq!(
        apply_change(INDEX, &c, &docs, "docs"),
        add_to_section(INDEX, "Final", "0004", "Four", "06-final/0004-four.md")
    );
}

#[test]
fn plan_index_update_brings_index_in_line() {
    let parsed = ParsedIndex::parse(INDEX).unwrap();
    let mut docs = StrMap::new();
    docs.insert("0001".to_string(), doc(1, "First Doc", DocState::Draft, "docs/01-draft/0001-first-doc.md"));
    docs.insert("0003".to_string(), doc(3, "Third Doc", DocState::Final, "docs/06-final/0003-third-doc.md"));
    docs.insert("0004".to_string(), doc(4, "Fourth", DocState::Final, "docs/06-final/0004-fourth.md"));
    let up = plan_index_update(INDEX, &parsed, &docs, "docs");
    let descriptions: Vec<String> = up.changes.iter().map(|c| c.description()).collect();
    assert!(descriptions.contains(&"Add to table: 0004 - Fourth".to_string()));
    assert!(descriptions.contains(&"Update 0003: updated (2024-01-03 → 2024-01-01)".to_string()));
    assert!(descriptions.contains(&"Add to Final: 0004 - Fourth".to_string()));
    assert!(up.content.contains("| 0004 | Fourth | Final | 2024-01-01 |"));
    assert!(up.content.contains("- [0004 - Fourth](06-final/0004-fourth.md)"));
    assert!(up.content.ends_with('\n'));
}
