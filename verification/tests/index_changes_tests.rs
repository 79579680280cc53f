use oxur::design::doc::DocState;
use oxur::design::docmeta::{DesignDoc, DocMetadata};
use oxur::design::index_sync::{
    compute_section_changes, compute_table_changes, IndexChange, IndexEntry, ParsedIndex,
};
use oxur::design::strmap::StrMap;
use oxur::design::validate::DateStamp;

fn date(year: i32, month: u32, day: u32) -> DateStamp {
    DateStamp { year, month, day, text: format!("{:04}-{:02}-{:02}", year, month, day) }
}

fn doc(number: u32, title: &str, state: DocState, updated: DateStamp, path: &str) -> DesignDoc {
    DesignDoc {
        metadata: DocMetadata {
            number,
            title: title.to_string(),
            author: "Author".to_string(),
            created: date(2024, 1, 1),
            updated,
            state,
            supersedes: None,
            superseded_by: None,
        },
        content: "content".to_string(),
        path: path.to_string(),
    }
}

fn entry(number: &str, title: &str, state: &str, updated: &str) -> IndexEntry {
    IndexEntry {
        number: number.to_string(),
        title: title.to_string(),
        state: state.to_string(),
        updated: updated.to_string(),
    }
}

fn parsed_with(entries: Vec<IndexEntry>, sections: Vec<(&str, Vec<&str>)>) -> ParsedIndex {
    let mut table_entries = StrMap::new();
    for e in entries {
        table_entries.insert(e.number.clone(), e);
    }
    let mut state_sections = StrMap::new();
    for (s, paths) in sections {
        state_sections.insert(s.to_string(), paths.into_iter().map(|p| p.to_string()).collect());
    }
    ParsedIndex { table_entries, state_sections }
}

fn doc_map(docs: Vec<DesignDoc>) -> StrMap<DesignDoc> {
    let mut m = StrMap::new();
    for d in docs {
        m.insert(format!("{:04}", d.metadata.number), d);
    }
    m
}

fn has_update(changes: &[IndexChange], f: &str) -> bool {
    changes.iter().any(|c| matches!(c, IndexChange::TableUpdate { field, .. } if field == f))
}

#[test]
fn test_compute_table_changes_add() {
    let parsed = parsed_with(vec![], vec![]);
    let docs = doc_map(vec![doc(42, "New Doc", DocState::Draft, date(2024, 1, 1), "01-draft/0042-new-doc.md")]);
    let changes = compute_table_changes(&parsed, &docs);
    assert_eq!(changes.len(), 1);
    match &changes[0] {
        IndexChange::TableAdd { number, title, state, updated } => {
            assert_eq!(number, "0042");
            assert_eq!(title, "New Doc");
            assert_eq!(state, "Draft");
            assert_eq!(updated, "2024-01-01");
        }
        _ => panic!("Expected TableAdd"),
    }
}

#[test]
fn test_compute_table_changes_remove() {
    let parsed = parsed_with(vec![entry("0099", "Old Doc", "Draft", "2024-01-01")], vec![]);
    let docs = doc_map(vec![]);
    let changes = compute_table_changes(&parsed, &docs);
    assert_eq!(changes.len(), 1);
    match &changes[0] {
        IndexChange::TableRemove { number } => assert_eq!(number, "0099"),
        _ => panic!("Expected TableRemove"),
    }
}

#[test]
fn test_compute_table_changes_update_state() {
    let parsed = parsed_with(vec![entry("0042", "Doc", "Draft", "2024-01-01")], vec![]);
    let docs = doc_map(vec![doc(42, "Doc", DocState::Final, date(2024, 1, 1), "06-final/0042-doc.md")]);
    let changes = compute_table_changes(&parsed, &docs);
    assert!(!changes.is_empty());
    assert!(has_update(&changes, "state"));
    assert_eq!(changes.len(), 1);
    assert_eq!(changes[0].description(), "Update 0042: state (Draft → Final)");
}

#[test]
fn test_compute_table_changes_update_title() {
    let parsed = parsed_with(vec![entry("0042", "Old Title", "Draft", "2024-01-01")], vec![]);
    let docs = doc_map(vec![doc(42, "New Title", DocState::Draft, date(2024, 1, 1), "01-draft/0042-new-title.md")]);
    let changes = compute_table_changes(&parsed, &docs);
    assert!(has_update(&changes, "title"));
}

#[test]
fn test_compute_table_changes_update_date() {
    let parsed = parsed_with(vec![entry("0042", "Doc", "Draft", "2024-01-01")], vec![]);
    let docs = doc_map(vec![doc(42, "Doc", DocState::Draft, date(2024, 2, 15), "01-draft/0042-doc.md")]);
    let changes = compute_table_changes(&parsed, &docs);
    assert!(has_update(&changes, "updated"));
}

#[test]
fn test_compute_table_changes_multiple_updates() {
    let parsed = parsed_with(vec![entry("0042", "Old", "Draft", "2024-01-01")], vec![]);
    let docs = doc_map(vec![doc(42, "New", DocState::Final, date(2024, 2, 15), "06-final/0042-new.md")]);
    let changes = compute_table_changes(&parsed, &docs);
    assert!(changes.len() >= 3);
    assert!(has_update(&changes, "state"));
    assert!(has_update(&changes, "title"));
    assert!(has_update(&changes, "updated"));
    // state, then updated date, then title
    let fields: Vec<String> = changes
        .iter()
        .map(|c| match c {
            IndexChange::TableUpdate { field, .. } => field.clone(),
            _ => String::new(),
        })
        .collect();
    assert_eq!(fields, vec!["state", "updated", "title"]);
}

#[test]
fn test_compute_table_changes_no_changes() {
    let parsed = parsed_with(vec![entry("0042", "Doc", "Draft", "2024-01-01")], vec![]);
    let docs = doc_map(vec![doc(42, "Doc", DocState::Draft, date(2024, 1, 1), "01-draft/0042-doc.md")]);
    let changes = compute_table_changes(&parsed, &docs);
    assert!(changes.is_empty());
}

#[test]
fn test_compute_section_changes_add() {
    let parsed = parsed_with(vec![], vec![("Draft", vec![])]);
    let docs = doc_map(vec![doc(42, "New Doc", DocState::Draft, date(2024, 1, 1), "/tmp/test_docs/01-draft/0042-new-doc.md")]);
    let changes = compute_section_changes(&parsed, &docs, "/tmp/test_docs");
    let has_section_add = changes
        .iter()
        .any(|c| matches!(c, IndexChange::SectionAdd { state, .. } if state == "Draft"));
    assert!(has_section_add);
    match &changes[0] {
        IndexChange::SectionAdd { state, number, title, path } => {
            assert_eq!(state, "Draft");
            assert_eq!(number, "0042");
            assert_eq!(title, "New Doc");
            assert_eq!(path, "01-draft/0042-new-doc.md");
        }
        _ => panic!("Expected SectionAdd"),
    }
}

#[test]
fn test_compute_section_changes_remove() {
    let parsed = parsed_with(vec![], vec![("Draft", vec!["01-draft/0042-old-doc.md"])]);
    let docs = doc_map(vec![]);
    let changes = compute_section_changes(&parsed, &docs, "/tmp/test_docs_remove");
    let has_section_remove = changes.iter().any(|c| {
        matches!(c, IndexChange::SectionRemove { state, path }
            if state == "Draft" && path == "01-draft/0042-old-doc.md")
    });
    assert!(has_section_remove);
}

#[test]
fn test_compute_section_changes_no_changes() {
    let parsed = parsed_with(vec![], vec![("Draft", vec!["01-draft/0042-doc.md"])]);
    let docs = doc_map(vec![doc(42, "Doc", DocState::Draft, date(2024, 1, 1), "/tmp/test_docs_no_change/01-draft/0042-doc.md")]);
    let changes = compute_section_changes(&parsed, &docs, "/tmp/test_docs_no_change");
    let draft_changes: Vec<_> = changes
        .iter()
        .filter(|c| match c {
            IndexChange::SectionAdd { state, .. } => state == "Draft",
            IndexChange::SectionRemove { state, .. } => state == "Draft",
            _ => false,
        })
        .collect();
    assert!(draft_changes.is_empty());
}

#[test]
fn test_compute_section_changes_multiple_states() {
    let parsed = parsed_with(vec![], vec![]);
    let docs = doc_map(vec![
        doc(1, "Draft", DocState::Draft, date(2024, 1, 1), "/tmp/test_docs_multi/01-draft/0001-draft.md"),
        doc(2, "Final", DocState::Final, date(2024, 1, 1), "/tmp/test_docs_multi/06-final/0002-final.md"),
    ]);
    let changes = compute_section_changes(&parsed, &docs, "/tmp/test_docs_multi");
    let has_draft_add =
        changes.iter().any(|c| matches!(c, IndexChange::SectionAdd { state, .. } if state == "Draft"));
    let has_final_add =
        changes.iter().any(|c| matches!(c, IndexChange::SectionAdd { state, .. } if state == "Final"));
    assert!(has_draft_add);
    assert!(has_final_add);
}

#[test]
fn test_compute_section_changes_with_path_strip_failure() {
    // A path outside the documents directory is listed as it is.
    let parsed = parsed_with(vec![], vec![("Draft", vec![])]);
    let docs = doc_map(vec![doc(7, "Elsewhere", DocState::Draft, date(2024, 1, 1), "/other/place/0007-elsewhere.md")]);
    let changes = compute_section_changes(&parsed, &docs, "/tmp/docs");
    assert_eq!(changes.len(), 1);
    match &changes[0] {
        IndexChange::SectionAdd { path, .. } => assert_eq!(path, "/other/place/0007-elsewhere.md"),
        _ => panic!("Expected SectionAdd"),
    }
}

#[test]
fn section_listing_twice_is_removed_twice() {
    let parsed = parsed_with(vec![], vec![("Final", vec!["06-final/x.md", "06-final/x.md"])]);
    let docs = doc_map(vec![]);
    let changes = compute_section_changes(&parsed, &docs, "docs");
    assert_eq!(changes.len(), 2);
    assert_eq!(changes[1].description(), "Remove from Final: 06-final/x.md");
}

#[test]
fn test_compute_table_changes_mixed_scenario() {
    // Index has: 0001 (outdated), 0002 (current), 0003 (deleted)
    // Filesystem has: 0001 (updated), 0002 (unchanged), 0004 (new)
    let parsed = parsed_with(
        vec![
            entry("0001", "Old Title", "Draft", "2024-01-01"),
            entry("0002", "Unchanged", "Final", "2024-01-01"),
            entry("0003", "Deleted", "Draft", "2024-01-01"),
        ],
        vec![],
    );
    let docs = doc_map(vec![
        doc(1, "New Title", DocState::Final, date(2024, 1, 1), "06-final/0001-new-title.md"),
        doc(2, "Unchanged", DocState::Final, date(2024, 1, 1), "06-final/0002-unchanged.md"),
        doc(4, "New Doc", DocState::Draft, date(2024, 1, 1), "01-draft/0004-new-doc.md"),
    ]);
    let changes = compute_table_changes(&parsed, &docs);
    assert!(changes.iter().any(|c| matches!(c, IndexChange::TableUpdate { number, .. } if number == "0001")));
    assert!(changes.iter().any(|c| matches!(c, IndexChange::TableAdd { number, .. } if number == "0004")));
    assert!(changes.iter().any(|c| matches!(c, IndexChange::TableRemove { number } if number == "0003")));
    let descriptions: Vec<String> = changes.iter().map(|c| c.description()).collect();
    assert_eq!(
        descriptions,
        vec![
            "Update 0001: state (Draft → Final)",
            "Update 0001: title (Old Title → New Title)",
            "Add to table: 0004 - New Doc",
            "Remove from table: 0003",
        ]
    );
}
