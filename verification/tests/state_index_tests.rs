use oxur::design::stats::{distribution_bar_width, project_stats};
use oxur::design::doc::DocState;
use oxur::design::docmeta::{DesignDoc, DocMetadata};
use oxur::design::index::{is_document_path, DocumentIndex};
use oxur::design::state::{checksum_of, DocumentRecord, DocumentState, FileObservation};
use oxur::design::validate::DateStamp;

fn meta(number: u32, title: &str, state: DocState) -> DocMetadata {
    let d = DateStamp { year: 2024, month: 1, day: 1, text: "2024-01-01".to_string() };
    DocMetadata {
        number,
        title: title.to_string(),
        author: "Author".to_string(),
        created: d.clone(),
        updated: d,
        state,
        supersedes: None,
        superseded_by: None,
    }
}

fn record(number: u32, state: DocState, contents: &str) -> DocumentRecord {
    DocumentRecord {
        metadata: meta(number, "Doc", state),
        path: format!("01-draft/{:04}-doc.md", number),
        checksum: checksum_of(contents.as_bytes()),
        file_size: contents.len() as u64,
        modified: (100, 0),
    }
}

#[test]
fn new_state_is_empty() {
    let s = DocumentState::new((5, 0));
    assert_eq!(s.version, 1);
    assert_eq!(s.next_number, 1);
    assert_eq!(s.last_updated, (5, 0));
    assert!(s.all().is_empty());
}

#[test]
fn upsert_then_get_and_next_number() {
    let mut s = DocumentState::new((0, 0));
    s.upsert(5, record(5, DocState::Draft, "a"), (1, 0));
    assert_eq!(s.next_number, 6);
    s.upsert(2, record(2, DocState::Final, "b"), (2, 0));
    assert_eq!(s.next_number, 6);
    assert_eq!(s.last_updated, (2, 0));
    assert_eq!(s.get(2).unwrap().metadata.state, DocState::Final);
    assert!(s.get(3).is_none());
    let all: Vec<u32> = s.all().iter().map(|r| r.metadata.number).collect();
    assert_eq!(all, vec![2, 5]);
    let drafts: Vec<u32> = s.by_state(DocState::Draft).iter().map(|r| r.metadata.number).collect();
    assert_eq!(drafts, vec![5]);
    let removed = s.remove(5, (3, 0));
    assert_eq!(removed.unwrap().metadata.number, 5);
    assert!(s.get(5).is_none());
    assert!(s.remove(5, (4, 0)).is_none());
    assert_eq!(s.next_number, 6);
}

fn parsed(number: u32, path: &str, contents: &str, size: u64, modified: (i64, u32)) -> FileObservation {
    FileObservation::Parsed {
        metadata: meta(number, "Doc", DocState::Draft),
        path: path.to_string(),
        contents: contents.as_bytes().to_vec(),
        file_size: size,
        modified,
    }
}

#[test]
fn scan_finds_new_changed_deleted_and_errors() {
    let mut s = DocumentState::new((0, 0));
    s.upsert(1, record(1, DocState::Draft, "one"), (0, 0));
    s.upsert(2, record(2, DocState::Draft, "two"), (0, 0));
    s.upsert(3, record(3, DocState::Draft, "three"), (0, 0));
    let obs = vec![
        parsed(1, "docs/01-draft/0001-doc.md", "one", 3, (100, 0)),
        parsed(2, "docs/01-draft/0002-doc.md", "two, edited", 11, (200, 0)),
        parsed(4, "docs/01-draft/0004-doc.md", "four", 4, (300, 0)),
        FileObservation::Unreadable { path: "docs/x.md".to_string(), error: "denied".to_string() },
        FileObservation::Unparsable { path: "docs/y.md".to_string(), error: "no frontmatter".to_string() },
    ];
    let r = s.apply_scan(&obs, "docs", false, (9, 9));
    assert_eq!(r.new_files, vec![4]);
    assert_eq!(r.changed, vec![2]);
    assert_eq!(r.deleted, vec![3]);
    assert_eq!(
        r.errors,
        vec!["Failed to read docs/x.md: denied".to_string(), "Failed to parse docs/y.md: no frontmatter".to_string()]
    );
    assert!(r.has_changes());
    assert_eq!(r.total_changes(), 3);
    assert!(s.get(3).is_none());
    assert_eq!(s.get(4).unwrap().path, "01-draft/0004-doc.md");
    assert_eq!(s.get(2).unwrap().checksum, checksum_of(b"two, edited"));
    assert_eq!(s.next_number, 5);
    assert_eq!(s.last_updated, (9, 9));
}

#[test]
fn quick_scan_trusts_unchanged_size_and_time() {
    let mut s = DocumentState::new((0, 0));
    s.upsert(1, record(1, DocState::Draft, "one"), (0, 0));
    // Same size and time, different bytes: a quick scan does not look.
    let obs = vec![parsed(1, "docs/01-draft/0001-doc.md", "ONE", 3, (100, 0))];
    let r = s.apply_scan(&obs, "docs", true, (1, 0));
    assert!(!r.has_changes());
    assert_eq!(s.last_updated, (0, 0));
    // A later time makes it look.
    let obs = vec![parsed(1, "docs/01-draft/0001-doc.md", "ONE", 3, (100, 1))];
    let r = s.apply_scan(&obs, "docs", true, (2, 0));
    assert_eq!(r.changed, vec![1]);
}

fn design_doc(number: u32, state: DocState, path: &str) -> DesignDoc {
    DesignDoc { metadata: meta(number, "Doc", state), content: "body".to_string(), path: path.to_string() }
}

#[test]
fn index_orders_documents_and_finds_next_number() {
    let index = DocumentIndex::from_docs(
        "docs".to_string(),
        vec![
            design_doc(7, DocState::Final, "docs/06-final/0007-a.md"),
            design_doc(2, DocState::Draft, "docs/01-draft/0002-b.md"),
            design_doc(7, DocState::Draft, "docs/01-draft/0007-c.md"),
        ],
    );
    let all: Vec<u32> = index.all().iter().map(|d| d.metadata.number).collect();
    assert_eq!(all, vec![2, 7]);
    assert_eq!(index.get(7).unwrap().path, "docs/01-draft/0007-c.md");
    assert_eq!(index.by_state(DocState::Draft).len(), 2);
    assert_eq!(index.by_state(DocState::Final).len(), 0);
    assert_eq!(index.next_number(), 8);
    assert_eq!(index.docs_dir(), "docs");
    let empty = DocumentIndex::from_docs("docs".to_string(), vec![]);
    assert_eq!(empty.next_number(), 1);
}

#[test]
fn index_from_state_joins_paths() {
    let mut s = DocumentState::new((0, 0));
    s.upsert(3, record(3, DocState::Draft, "x"), (0, 0));
    let index = DocumentIndex::from_state(&s, "docs");
    let d = index.get(3).unwrap();
    assert_eq!(d.path, "docs/01-draft/0003-doc.md");
    assert!(d.content.is_empty());
}

#[test]
fn document_paths() {
    assert!(is_document_path("docs/01-draft/0001-a.md"));
    assert!(!is_document_path("docs/00-index.md"));
    assert!(!is_document_path("docs/notes.txt"));
    assert!(!is_document_path("docs/README"));
}

#[test]
fn markdown_index_lists_documents_by_number_and_state() {
    let index = DocumentIndex::from_docs(
        "docs".to_string(),
        vec![
            design_doc(12, DocState::Final, "docs/06-final/0012-b.md"),
            design_doc(3, DocState::Draft, "docs/01-draft/0003-a.md"),
        ],
    );
    let text = index.generate_markdown_index();
    let expected = "# Design Document Index\n\nThis index is automatically generated. Do not edit manually.\n\n## All Documents by Number\n\n| Number | Title | State | Updated |\n|--------|-------|-------|----------|\n| 0003 | Doc | Draft | 2024-01-01 |\n| 0012 | Doc | Final | 2024-01-01 |\n\n## Documents by State\n\n### Draft\n\n- [0003 - Doc](01-draft/0003-a.md)\n\n### Final\n\n- [0012 - Doc](06-final/0012-b.md)\n";
    assert_eq!(text, expected);
    let parsed = oxur::design::index_sync::ParsedIndex::parse(&text).unwrap();
    assert!(parsed.table_entries.contains_key("0003"));
    assert!(parsed.table_entries.contains_key("0012"));
}

#[test]
fn find_document_by_number_or_path() {
    let mut s = DocumentState::new((0, 0));
    s.upsert(4, record(4, DocState::Draft, "d"), (0, 0));
    s.upsert(9, record(9, DocState::Draft, "e"), (0, 0));
    assert_eq!(s.find_document("12"), Some(12));
    assert_eq!(s.find_document("0009-doc"), Some(9));
    assert_eq!(s.find_document("01-draft"), Some(4));
    assert_eq!(s.find_document("nowhere"), None);
}

#[test]
fn dustbin_names() {
    let u = "1a2b3c4d-0000-4000-8000-000000000000";
    assert_eq!(
        oxur::design::state::dustbin_file_name("docs/01-draft/0001-x.md", u),
        Some("0001-x-1a2b3c4d.md".to_string())
    );
    assert_eq!(oxur::design::state::dustbin_file_name("/", u), None);
}

#[test]
fn rescan_after_full_scan_finds_nothing() {
    let mut s = DocumentState::new((0, 0));
    s.upsert(1, record(1, DocState::Draft, "old"), (0, 0));
    s.upsert(5, record(5, DocState::Draft, "gone"), (0, 0));
    let obs = vec![
        parsed(1, "docs/01-draft/0001-doc.md", "new text", 8, (10, 0)),
        parsed(2, "docs/01-draft/0002-doc.md", "two", 3, (10, 0)),
    ];
    let first = s.apply_scan(&obs, "docs", false, (1, 0));
    assert!(first.has_changes());
    let second = s.apply_scan(&obs, "docs", false, (2, 0));
    assert!(!second.has_changes());
    let third = s.apply_scan(&obs, "docs", true, (3, 0));
    assert!(!third.has_changes());
    assert_eq!(s.last_updated, (1, 0));
}

#[test]
fn generated_index_table_reads_back() {
    let mut a = design_doc(5, DocState::UnderReview, "docs/02-under-review/0005-a.md");
    a.metadata.title = "Macro hygiene: phase two".to_string();
    let mut b = design_doc(10000, DocState::Superseded, "docs/10-superseded/10000-b.md");
    b.metadata.title = String::new();
    let index = DocumentIndex::from_docs("docs".to_string(), vec![b, a]);
    let text = index.generate_markdown_index();
    let parsed = oxur::design::index_sync::ParsedIndex::parse(&text).unwrap();
    assert_eq!(parsed.table_entries.len(), 2);
    let e = parsed.table_entries.get("0005").unwrap();
    assert_eq!(e.number, "0005");
    assert_eq!(e.title, "Macro hygiene: phase two");
    assert_eq!(e.state, "Under Review");
    assert_eq!(e.updated, "2024-01-01");
    let f = parsed.table_entries.get("10000").unwrap();
    assert_eq!(f.title, "");
    assert_eq!(f.state, "Superseded");
    // a title with a column bar does not read back
    let mut c = design_doc(1, DocState::Draft, "docs/01-draft/0001-c.md");
    c.metadata.title = "a | b".to_string();
    let text = DocumentIndex::from_docs("docs".to_string(), vec![c]).generate_markdown_index();
    let parsed = oxur::design::index_sync::ParsedIndex::parse(&text).unwrap();
    assert_eq!(parsed.table_entries.get("0001").unwrap().title, "a");
}

#[test]
fn project_statistics_rank_states_and_find_extremes() {
    let mut a = record(1, DocState::Draft, "a");
    a.metadata.created = DateStamp { year: 2024, month: 3, day: 1, text: "2024-03-01".to_string() };
    let mut b = record(2, DocState::Final, "b");
    b.metadata.created = DateStamp { year: 2023, month: 5, day: 9, text: "2023-05-09".to_string() };
    b.metadata.title = "Untitled Document".to_string();
    let mut c = record(3, DocState::Final, "c");
    c.metadata.created = DateStamp { year: 2024, month: 3, day: 1, text: "2024-03-01".to_string() };
    let mut d = record(4, DocState::Draft, "d");
    d.metadata.created = DateStamp { year: 2023, month: 5, day: 9, text: "2023-05-09".to_string() };
    d.metadata.title = String::new();
    let mut e = record(5, DocState::Accepted, "e");
    e.metadata.created = DateStamp { year: 2024, month: 1, day: 1, text: "2024-01-01".to_string() };
    let docs = vec![&a, &b, &c, &d, &e];
    let s = project_stats(&docs);
    assert_eq!(s.total, 5);
    assert_eq!(s.counts, vec![2, 0, 0, 1, 0, 2, 0, 0, 0, 0]);
    assert_eq!(
        s.ranked,
        vec![(DocState::Draft, 2), (DocState::Final, 2), (DocState::Accepted, 1)]
    );
    assert_eq!(s.oldest, Some(2));
    assert_eq!(s.newest, Some(3));
    assert_eq!(s.untitled, 2);
    let empty = project_stats(&vec![]);
    assert_eq!(empty.total, 0);
    assert!(empty.ranked.is_empty());
    assert_eq!(empty.oldest, None);
    assert_eq!(distribution_bar_width(2, 5), 16);
    assert_eq!(distribution_bar_width(1, 100), 1);
    assert_eq!(distribution_bar_width(0, 0), 1);
    assert_eq!(distribution_bar_width(7, 7), 40);
}

#[test]
fn all_orders_records_by_their_own_number() {
    let mut s = DocumentState::new((0, 0));
    s.upsert(1, record(5, DocState::Draft, "a"), (0, 0));
    s.upsert(2, record(3, DocState::Draft, "b"), (0, 0));
    let numbers: Vec<u32> = s.all().iter().map(|r| r.metadata.number).collect();
    assert_eq!(numbers, vec![3, 5]);
    let drafts: Vec<u32> = s.by_state(DocState::Draft).iter().map(|r| r.metadata.number).collect();
    assert_eq!(drafts, vec![3, 5]);
    assert_eq!(s.find_document("01-draft"), Some(3));
}
