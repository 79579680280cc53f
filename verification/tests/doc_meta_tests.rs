use oxur::design::doc::DocState;
use oxur::design::docmeta::{
    add_missing_headers, build_yaml_frontmatter, ensure_valid_headers, extract_title_from_content,
    split_frontmatter, sync_state_with_directory, update_state, update_yaml_field, DesignDoc,
    DocError, DocMetadata,
};
use oxur::design::validate::DateStamp;

fn date(year: i32, month: u32, day: u32) -> DateStamp {
    DateStamp { year, month, day, text: format!("{:04}-{:02}-{:02}", year, month, day) }
}

fn metadata(number: u32, title: &str, author: &str, state: DocState) -> DocMetadata {
    DocMetadata {
        number,
        title: title.to_string(),
        author: author.to_string(),
        created: date(2024, 1, 1),
        updated: date(2024, 1, 2),
        state,
        supersedes: None,
        superseded_by: None,
    }
}

#[test]
fn test_filename_generation() {
    let metadata = metadata(42, "My Cool Feature", "Author", DocState::Draft);
    let doc = DesignDoc { metadata, content: "test".to_string(), path: "test.md".to_string() };

    assert_eq!(doc.filename(), "0042-my-cool-feature.md");
}

#[test]
fn test_filename_special_chars() {
    let metadata = metadata(1, "Test!!! Document???", "Author", DocState::Draft);
    let doc = DesignDoc { metadata, content: "test".to_string(), path: "test.md".to_string() };

    assert_eq!(doc.filename(), "0001-test-document.md");
}

#[test]
fn test_extract_title_from_heading() {
    let content = "# Main Title\n\nSome content here.";
    let title = extract_title_from_content(content, "0001-test.md");
    assert_eq!(title, "Main Title");
}

#[test]
fn test_extract_title_from_filename() {
    let content = "No headings here.";
    let title = extract_title_from_content(content, "0042-my-feature.md");
    assert_eq!(title, "My Feature");
}

#[test]
fn test_extract_title_fallback() {
    let content = "No headings here.";
    let title = extract_title_from_content(content, "invalid-filename");
    assert_eq!(title, "Untitled Document");
}

#[test]
fn test_extract_title_empty_word_in_filename() {
    let content = "No headings here.";
    let title = extract_title_from_content(content, "0042-test--double-dash.md");
    assert_eq!(title, "Test  Double Dash");
}

#[test]
fn test_extract_title_single_char_words() {
    let content = "No headings here.";
    let title = extract_title_from_content(content, "0042-a-b-c.md");
    assert_eq!(title, "A B C");
}

#[test]
fn test_extract_title_with_whitespace_heading() {
    let content = "  # Title With Spaces  \n\nContent";
    let title = extract_title_from_content(content, "0042-test.md");
    assert_eq!(title, "Title With Spaces");
}

#[test]
fn test_extract_title_filename_with_empty_segments() {
    let content = "No headings here.";
    let title = extract_title_from_content(content, "0042-test--extra.md");
    assert!(title.contains("Test") && title.contains("Extra"));
}

#[test]
fn test_build_yaml_frontmatter_complete() {
    let mut metadata = metadata(42, "Test Document", "Test Author", DocState::Draft);
    metadata.updated = date(2024, 1, 15);
    metadata.supersedes = Some(41);
    metadata.superseded_by = Some(43);

    let yaml = build_yaml_frontmatter(&metadata);

    assert!(yaml.starts_with("---\n"));
    assert!(yaml.contains("number: 42\n"));
    assert!(yaml.contains("title: \"Test Document\"\n"));
    assert!(yaml.contains("author: \"Test Author\"\n"));
    assert!(yaml.contains("state: Draft\n"));
    assert!(yaml.contains("supersedes: 41\n"));
    assert!(yaml.contains("superseded-by: 43\n"));
    assert!(yaml.ends_with("---\n\n"));
}

#[test]
fn test_build_yaml_frontmatter_nulls() {
    let metadata = metadata(1, "Test", "Author", DocState::Draft);

    let yaml = build_yaml_frontmatter(&metadata);

    assert!(yaml.contains("supersedes: null\n"));
    assert!(yaml.contains("superseded-by: null\n"));
}

#[test]
fn test_build_yaml_all_states() {
    for state in DocState::all_states() {
        let metadata = metadata(1, "Test", "Author", state);
        let yaml = build_yaml_frontmatter(&metadata);
        assert!(yaml.contains(&format!("state: {}\n", state.as_str())));
    }
}

#[test]
fn test_build_yaml_frontmatter_exact_text() {
    let metadata = metadata(7, "T", "A", DocState::UnderReview);
    let yaml = build_yaml_frontmatter(&metadata);
    assert_eq!(
        yaml,
        "---\nnumber: 7\ntitle: \"T\"\nauthor: \"A\"\ncreated: 2024-01-01\nupdated: 2024-01-02\nstate: Under Review\nsupersedes: null\nsuperseded-by: null\n---\n\n"
    );
}

#[test]
fn test_update_yaml_field_exists() {
    let content = "---\ntitle: Old Title\nauthor: Someone\n---\nContent";
    let updated = update_yaml_field(content, "title", "New Title").unwrap();

    assert!(updated.contains("title: New Title"));
    assert!(!updated.contains("Old Title"));
}

#[test]
fn test_update_yaml_field_not_found() {
    let content = "---\ntitle: Title\nauthor: Someone\n---\nContent";
    let updated = update_yaml_field(content, "nonexistent", "value").unwrap();

    assert_eq!(updated, content);
}

#[test]
fn test_update_state_field() {
    let content = "---\ntitle: Test\nstate: Draft\nupdated: 2024-01-01\n---\nContent";
    let updated = update_state(content, DocState::Final, "2025-02-03").unwrap();

    assert!(updated.contains("state: Final"));
    assert!(updated.contains("updated: 2025-02-03"));
}

#[test]
fn test_add_missing_headers_no_frontmatter() {
    let content = "# Test Document\n\nSome content here.";
    let (new_content, _, added_fields) = add_missing_headers(
        "0042-test-doc.md",
        content,
        "Unknown Author",
        &date(2024, 1, 1),
        &date(2024, 1, 1),
        None,
    );

    assert!(new_content.starts_with("---\n"));
    assert!(new_content.contains("number: 42"));
    assert!(new_content.contains("title: \"Test Document\""));
    assert!(new_content.contains("state: Draft"));
    assert_eq!(added_fields.len(), 8);
    assert!(added_fields.contains(&"number".to_string()));
}

#[test]
fn test_add_missing_headers_with_valid_frontmatter() {
    let content = "---\nnumber: 100\ntitle: \"Existing Title\"\nauthor: \"Existing Author\"\ncreated: 2024-01-01\nupdated: 2024-01-02\nstate: Draft\nsupersedes: null\nsuperseded-by: null\n---\n\n# Test Document\n\nContent";
    let existing = metadata(100, "Existing Title", "Existing Author", DocState::Draft);

    let (new_content, _, added_fields) = add_missing_headers(
        "0042-test-doc.md",
        content,
        "Unknown Author",
        &date(2024, 1, 1),
        &date(2024, 1, 1),
        Some(existing),
    );

    assert!(new_content.contains("number: 100"));
    assert!(new_content.contains("title: \"Existing Title\""));
    assert_eq!(added_fields.len(), 0);
}

#[test]
fn test_add_missing_headers_with_partial_frontmatter() {
    let content = "---\nnumber: 0\ntitle: \"\"\nauthor: Unknown Author\ncreated: 2024-01-01\nupdated: 2024-01-02\nstate: Draft\nsupersedes: null\nsuperseded-by: null\n---\n\n# Test Document\n\nContent";
    let existing = metadata(0, "", "Unknown Author", DocState::Draft);

    let (new_content, _, added_fields) = add_missing_headers(
        "0042-test-doc.md",
        content,
        "Git Author",
        &date(2024, 1, 1),
        &date(2024, 1, 1),
        Some(existing),
    );

    assert!(new_content.contains("number: 42"));
    assert!(new_content.contains("title: \"Test Document\""));
    assert!(added_fields.contains(&"number".to_string()));
    assert!(added_fields.contains(&"title".to_string()));
    assert!(added_fields.contains(&"author".to_string()));
}

#[test]
fn test_add_missing_headers_with_broken_frontmatter() {
    let content = "---\nbroken yaml here\nno valid structure\n---\n\n# Test Document\n\nContent";

    let (new_content, _, added_fields) = add_missing_headers(
        "0042-test-doc.md",
        content,
        "Unknown Author",
        &date(2024, 1, 1),
        &date(2024, 1, 1),
        None,
    );

    assert!(new_content.starts_with("---\n"));
    assert!(new_content.contains("number: 42"));
    assert!(new_content.contains("title: \"Test Document\""));
    assert_eq!(added_fields.len(), 8);
    assert!(!new_content.contains("broken yaml"));
}

#[test]
fn test_ensure_valid_headers_missing_frontmatter() {
    let content = "# Test Document\n\nContent without frontmatter.";

    let result = ensure_valid_headers(
        "0042-test-doc.md",
        content,
        "Unknown Author",
        &date(2024, 1, 1),
        &date(2024, 1, 1),
        None,
    );

    assert!(result.starts_with("---\n"));
    assert!(result.contains("number: 42"));
}

#[test]
fn test_ensure_valid_headers_with_placeholders() {
    let content = "---\nnumber: NNNN\ntitle: \"Test\"\nauthor: Unknown\ncreated: 2024-01-01\nupdated: 2024-01-02\nstate: Draft\nsupersedes: null\nsuperseded-by: null\n---\n\nContent";

    let result = ensure_valid_headers(
        "0042-test-doc.md",
        content,
        "Unknown Author",
        &date(2024, 1, 1),
        &date(2024, 1, 1),
        None,
    );

    assert!(result.contains("number: 42"));
    assert!(!result.contains("NNNN"));
}

#[test]
fn test_ensure_valid_headers_already_valid() {
    let content = "---\nnumber: 42\ntitle: \"Test\"\nauthor: \"Author\"\ncreated: 2024-01-01\nupdated: 2024-01-02\nstate: Draft\nsupersedes: null\nsuperseded-by: null\n---\n\nContent";

    let result = ensure_valid_headers(
        "0042-test-doc.md",
        content,
        "Unknown Author",
        &date(2024, 1, 1),
        &date(2024, 1, 1),
        None,
    );

    assert_eq!(result, content);
}

#[test]
fn test_sync_state_with_directory_matching() {
    let content = "---\nnumber: 42\ntitle: \"Test\"\nauthor: \"Author\"\ncreated: 2024-01-01\nupdated: 2024-01-02\nstate: Draft\nsupersedes: null\nsuperseded-by: null\n---\n\nContent";
    let parsed = Ok(metadata(42, "Test", "Author", DocState::Draft));

    let result = sync_state_with_directory("docs/01-draft/test.md", content, parsed, "2025-01-01")
        .unwrap();

    assert_eq!(result, content);
}

#[test]
fn test_sync_state_with_directory_mismatched() {
    let content = "---\nnumber: 42\ntitle: \"Test\"\nauthor: \"Author\"\ncreated: 2024-01-01\nupdated: 2024-01-02\nstate: Draft\nsupersedes: null\nsuperseded-by: null\n---\n\nContent";
    let parsed = Ok(metadata(42, "Test", "Author", DocState::Draft));

    let result = sync_state_with_directory("docs/06-final/test.md", content, parsed, "2025-01-01")
        .unwrap();

    assert!(result.contains("state: Final"));
    assert!(!result.contains("state: Draft"));
    assert!(result.contains("updated: 2025-01-01"));
}

#[test]
fn test_sync_state_with_directory_error() {
    let content = "---\nnumber: 42\ntitle: \"Test\"\nauthor: \"Author\"\ncreated: 2024-01-01\nupdated: 2024-01-02\nstate: Draft\nsupersedes: null\nsuperseded-by: null\n---\n\nContent";
    let parsed = Ok(metadata(42, "Test", "Author", DocState::Draft));

    let result = sync_state_with_directory("tmp/test.md", content, parsed, "2025-01-01");

    assert!(result.is_err());
    match result {
        Err(DocError::InvalidFormat(msg)) => {
            assert!(msg.contains("not in a state directory"));
        }
        _ => panic!("Expected InvalidFormat error"),
    }
}

#[test]
fn test_split_frontmatter_parts() {
    let (front, body) = split_frontmatter("---\nnumber: 1\n---\n\n# Body\n").unwrap();
    assert_eq!(front, "number: 1");
    assert_eq!(body, "# Body");
}

#[test]
fn test_split_frontmatter_missing() {
    let result = split_frontmatter("# No frontmatter");
    match result {
        Err(e) => assert_eq!(e.display_string(), "Invalid document format: Missing YAML frontmatter"),
        Ok(_) => panic!("expected an error"),
    }
}

#[test]
fn built_frontmatter_splits_back_from_its_body() {
    let m = DocMetadata {
        number: 7,
        title: "A Title".to_string(),
        author: "Someone".to_string(),
        created: date(2024, 1, 2),
        updated: date(2024, 3, 4),
        state: DocState::Accepted,
        supersedes: Some(3),
        superseded_by: None,
    };
    let text = format!("{}# Body\n\nText.\n", build_yaml_frontmatter(&m));
    let (yaml, body) = split_frontmatter(&text).unwrap();
    assert_eq!(
        yaml,
        "number: 7\ntitle: \"A Title\"\nauthor: \"Someone\"\ncreated: 2024-01-02\nupdated: 2024-03-04\nstate: Accepted\nsupersedes: 3\nsuperseded-by: null"
    );
    assert_eq!(body, "# Body\n\nText.");
}

fn create_test_doc_content(state: &str) -> String {
    format!(
        "---\nnumber: 42\ntitle: \"Test Document\"\nauthor: \"Test Author\"\ncreated: 2024-01-01\nupdated: 2024-01-02\nstate: {}\nsupersedes: null\nsuperseded-by: null\n---\n\n# Test Document\n\nThis is the content.",
        state
    )
}

// The YAML of the frontmatter is read by the caller; each test hands `parse` the metadata
// that reading gives for its text.

#[test]
fn test_parse_valid_document() {
    let content = create_test_doc_content("Draft");
    let read = Ok(metadata(42, "Test Document", "Test Author", DocState::Draft));
    let result = DesignDoc::parse(&content, "test.md", read);

    assert!(result.is_ok());
    let doc = result.unwrap();
    assert_eq!(doc.metadata.number, 42);
    assert_eq!(doc.metadata.title, "Test Document");
    assert_eq!(doc.metadata.author, "Test Author");
    assert_eq!(doc.metadata.state, DocState::Draft);
    assert!(doc.content.contains("# Test Document"));
    assert_eq!(doc.content, "# Test Document\n\nThis is the content.");
    assert_eq!(doc.path, "test.md");
}

#[test]
fn test_parse_all_states() {
    for state in DocState::all_states() {
        let content = create_test_doc_content(state.as_str());
        let read = Ok(metadata(42, "Test Document", "Test Author", state));
        let result = DesignDoc::parse(&content, "test.md", read);

        assert!(result.is_ok());
        let doc = result.unwrap();
        assert_eq!(doc.metadata.state, state);
    }
}

#[test]
fn test_parse_missing_frontmatter() {
    let content = "# Just Content\n\nNo frontmatter here.";
    let result = DesignDoc::parse(content, "test.md", Err("no frontmatter to read".to_string()));

    assert!(result.is_err());
    match result {
        Err(DocError::InvalidFormat(msg)) => assert!(msg.contains("Missing YAML frontmatter")),
        _ => panic!("Expected InvalidFormat error"),
    }
}

#[test]
fn test_parse_malformed_yaml() {
    let content = "---\nthis is not yaml\njust random text\n---\n\nContent";
    let read = Err("invalid type: string, expected the metadata fields".to_string());
    let result = DesignDoc::parse(content, "test.md", read);

    assert!(result.is_err());
    match result {
        Err(DocError::InvalidFormat(msg)) => assert!(msg.contains("YAML parse error")),
        _ => panic!("Expected InvalidFormat error"),
    }
}

#[test]
fn test_parse_with_supersedes() {
    let content = "---\nnumber: 42\ntitle: \"Test\"\nauthor: \"Author\"\ncreated: 2024-01-01\nupdated: 2024-01-02\nstate: Final\nsupersedes: 41\nsuperseded-by: null\n---\n\nContent";
    let mut m = metadata(42, "Test", "Author", DocState::Final);
    m.supersedes = Some(41);
    let result = DesignDoc::parse(content, "test.md", Ok(m));

    assert!(result.is_ok());
    let doc = result.unwrap();
    assert_eq!(doc.metadata.supersedes, Some(41));
    assert_eq!(doc.metadata.superseded_by, None);
    assert_eq!(doc.content, "Content");
}

#[test]
fn test_parse_with_superseded_by() {
    let content = "---\nnumber: 41\ntitle: \"Test\"\nauthor: \"Author\"\ncreated: 2024-01-01\nupdated: 2024-01-02\nstate: Superseded\nsupersedes: null\nsuperseded-by: 42\n---\n\nContent";
    let mut m = metadata(41, "Test", "Author", DocState::Superseded);
    m.superseded_by = Some(42);
    let result = DesignDoc::parse(content, "test.md", Ok(m));

    assert!(result.is_ok());
    let doc = result.unwrap();
    assert_eq!(doc.metadata.supersedes, None);
    assert_eq!(doc.metadata.superseded_by, Some(42));
}
