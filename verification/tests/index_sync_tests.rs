use oxur::design::index_sync::{cleanup_formatting, parse_state_sections, parse_table, IndexChange, IndexEntry, ParsedIndex};

    const SAMPLE_INDEX: &str = r#"# Design Documents Index

## All Documents by Number

| Number | Title | State | Updated |
|--------|-------|-------|---------|
| 0001 | First Doc | Draft | 2024-01-01 |
| 0002 | Second Doc | Final | 2024-01-02 |

### Draft

- [0001 - First Doc](01-draft/0001-first-doc.md)

### Final

- [0002 - Second Doc](06-final/0002-second-doc.md)
"#;

#[test]
fn test_parse_table_basic() {
    let entries = parse_table(SAMPLE_INDEX);
    assert_eq!(entries.len(), 2);
    assert!(entries.contains_key("0001"));
    assert!(entries.contains_key("0002"));
}

#[test]
fn test_parse_table_entry_fields() {
    let entries = parse_table(SAMPLE_INDEX);
    let entry = entries.get("0001").unwrap();

    assert_eq!(entry.number, "0001");
    assert_eq!(entry.title, "First Doc");
    assert_eq!(entry.state, "Draft");
    assert_eq!(entry.updated, "2024-01-01");
}

#[test]
fn test_parse_table_empty() {
    let empty = "# No table here";
    let entries = parse_table(empty);
    assert!(entries.is_empty());
}

#[test]
fn test_parse_state_sections_basic() {
    let sections = parse_state_sections(SAMPLE_INDEX);
    assert!(sections.contains_key("Draft"));
    assert!(sections.contains_key("Final"));
}

#[test]
fn test_parse_state_sections_paths() {
    let sections = parse_state_sections(SAMPLE_INDEX);
    let draft_docs = sections.get("Draft").unwrap();

    assert_eq!(draft_docs.len(), 1);
    assert_eq!(draft_docs[0], "01-draft/0001-first-doc.md");
}

#[test]
fn test_parse_index_complete() {
    let parsed = ParsedIndex::parse(SAMPLE_INDEX).unwrap();

    assert_eq!(parsed.table_entries.len(), 2);
    assert_eq!(parsed.state_sections.len(), 2);
}

#[test]
fn test_index_change_descriptions() {
    let add = IndexChange::TableAdd {
        number: "0042".to_string(),
        title: "New Doc".to_string(),
        state: "Draft".to_string(),
        updated: "2024-01-01".to_string(),
    };
    assert!(add.description().contains("Add to table"));
    assert!(add.description().contains("0042"));

    let update = IndexChange::TableUpdate {
        number: "0001".to_string(),
        field: "state".to_string(),
        old: "Draft".to_string(),
        new: "Final".to_string(),
    };
    assert!(update.description().contains("Update"));
    assert!(update.description().contains("Draft → Final"));

    let remove = IndexChange::TableRemove { number: "0099".to_string() };
    assert!(remove.description().contains("Remove"));

    let section_add = IndexChange::SectionAdd {
        state: "Draft".to_string(),
        number: "0042".to_string(),
        title: "New".to_string(),
        path: "01-draft/0042-new.md".to_string(),
    };
    assert!(section_add.description().contains("Add to Draft"));

    let section_remove = IndexChange::SectionRemove {
        state: "Draft".to_string(),
        path: "01-draft/old.md".to_string(),
    };
    assert!(section_remove.description().contains("Remove from Draft"));
}

    #[test]
    fn test_parse_table_malformed_rows() {
        let content = r#"# Index

| Number | Title | State | Updated |
|--------|-------|-------|---------|
| 0001 | Valid Doc | Draft | 2024-01-01 |
| incomplete row
| | | | |
| 0002 | Another Valid | Final | 2024-01-02 |
"#;
        let entries = parse_table(content);
        assert_eq!(entries.len(), 2);
        assert!(entries.contains_key("0001"));
        assert!(entries.contains_key("0002"));
    }

    #[test]
    fn test_parse_table_no_separator() {
        let content = r#"# Index

| Number | Title | State | Updated |
| 0001 | No Separator | Draft | 2024-01-01 |
"#;
        let entries = parse_table(content);
        // Without separator, rows won't be parsed
        assert!(entries.is_empty());
    }

    #[test]
    fn test_parse_table_header_only() {
        let content = r#"# Index

| Number | Title | State | Updated |
|--------|-------|-------|---------|
"#;
        let entries = parse_table(content);
        assert!(entries.is_empty());
    }

    #[test]
    fn test_parse_table_with_empty_number() {
        let content = r#"# Index

| Number | Title | State | Updated |
|--------|-------|-------|---------|
|  | Empty Number | Draft | 2024-01-01 |
| 0001 | Valid | Draft | 2024-01-01 |
"#;
        let entries = parse_table(content);
        assert_eq!(entries.len(), 1);
        assert!(entries.contains_key("0001"));
    }

#[test]
fn test_parse_state_sections_empty() {
    let content = "# Index\n\nNo sections here";
    let sections = parse_state_sections(content);
    assert!(sections.is_empty());
}

    #[test]
    fn test_parse_state_sections_empty_section() {
        let content = r#"# Index

### Draft

### Final

- [0001 - Doc](06-final/0001-doc.md)
"#;
        let sections = parse_state_sections(content);
        assert_eq!(sections.len(), 2);

        let draft = sections.get("Draft").unwrap();
        assert!(draft.is_empty());

        let final_section = sections.get("Final").unwrap();
        assert_eq!(final_section.len(), 1);
    }

    #[test]
    fn test_parse_state_sections_terminated_by_h2() {
        let content = r#"# Index

### Draft

- [0001 - Doc](01-draft/0001-doc.md)
- [0002 - Another](01-draft/0002-another.md)

## All Documents by Number

| Number | Title | State | Updated |
"#;
        let sections = parse_state_sections(content);
        let draft = sections.get("Draft").unwrap();
        assert_eq!(draft.len(), 2);
    }

    #[test]
    fn test_parse_state_sections_multiple_links() {
        let content = r#"### Draft

- [0001 - First](01-draft/0001-first.md)
- [0002 - Second](01-draft/0002-second.md)
- [0003 - Third](01-draft/0003-third.md)

### Final

- [0004 - Fourth](06-final/0004-fourth.md)
"#;
        let sections = parse_state_sections(content);

        let draft = sections.get("Draft").unwrap();
        assert_eq!(draft.len(), 3);
        assert_eq!(draft[0], "01-draft/0001-first.md");
        assert_eq!(draft[1], "01-draft/0002-second.md");
        assert_eq!(draft[2], "01-draft/0003-third.md");

        let final_section = sections.get("Final").unwrap();
        assert_eq!(final_section.len(), 1);
        assert_eq!(final_section[0], "06-final/0004-fourth.md");
    }

    #[test]
    fn test_parse_state_sections_malformed_links() {
        let content = r#"### Draft

- [0001 - Valid](01-draft/0001-valid.md)
- Not a link
- [0002 - No closing paren](01-draft/0002.md
- [0003](01-draft/0003.md)
- Regular bullet point
"#;
        let sections = parse_state_sections(content);
        let draft = sections.get("Draft").unwrap();
        // Only valid markdown links should be captured
        assert_eq!(draft.len(), 2);
        assert_eq!(draft[0], "01-draft/0001-valid.md");
        assert_eq!(draft[1], "01-draft/0003.md");
    }

    #[test]
    fn test_cleanup_formatting_basic() {
        let input = r#"# Title

## Section One


Content here


## Section Two

More content
"#;
        let output = cleanup_formatting(input);

        // Should have consistent spacing
        assert!(output.contains("\n## Section One\n\nContent"));
        assert!(output.contains("\n## Section Two\n\nMore"));
        // Should not have triple blank lines
        assert!(!output.contains("\n\n\n\n"));
    }

    #[test]
    fn test_cleanup_formatting_h3_sections() {
        let input = r#"### Draft


- [0001](01-draft/0001.md)

### Final


- [0002](06-final/0002.md)
"#;
        let output = cleanup_formatting(input);

        // Should have proper spacing around h3
        // First header has no blank line before it
        assert!(output.starts_with("### Draft\n\n"));
        assert!(output.contains("- [0001]"));
        assert!(output.contains("\n### Final\n\n- [0002]"));
    }

    #[test]
    fn test_cleanup_formatting_consecutive_bullets() {
        let input = r#"### Section

- [0001](file1.md)

- [0002](file2.md)

- [0003](file3.md)
"#;
        let output = cleanup_formatting(input);

        // Blank lines between bullets should be removed
        assert!(!output.contains("]\n\n- ["));
    }

    #[test]
    fn test_cleanup_formatting_first_header() {
        let input = r#"## First Header

Content"#;
        let output = cleanup_formatting(input);

        // First header shouldn't have blank line before it
        assert!(output.starts_with("## First Header\n"));
    }

#[test]
fn test_cleanup_formatting_ends_with_newline() {
    let input = "# Title\n\nContent";
    let output = cleanup_formatting(input);

    assert!(output.ends_with('\n'));
}

    #[test]
    fn test_cleanup_formatting_already_clean() {
        let input = r#"# Title

## Section

Content

### Subsection

- [0001](file.md)
- [0002](file2.md)
"#;
        let output = cleanup_formatting(input);

        // Should remain mostly the same
        assert!(output.contains("# Title"));
        assert!(output.contains("## Section"));
        assert!(output.contains("### Subsection"));
    }

    #[test]
    fn test_cleanup_formatting_multiple_trailing_blanks() {
        let input = r#"## Section



Content"#;
        let output = cleanup_formatting(input);

        // Should collapse to single blank line before header
        assert!(output.contains("## Section\n\nContent"));
        assert!(!output.contains("\n\n\n"));
    }

    #[test]
    fn test_cleanup_formatting_mixed_content() {
        let input = r#"# Main Title


## All Documents

| Number | Title |
|--------|-------|
| 0001 | Doc |


### Draft

- [0001](01-draft/0001.md)
- [0002](01-draft/0002.md)


## Footer

End
"#;
        let output = cleanup_formatting(input);

        // Headers should have proper spacing
        assert!(output.contains("\n## All Documents\n\n"));
        assert!(output.contains("\n### Draft\n\n"));
        assert!(output.contains("\n## Footer\n\n"));

        // Bullets should be consecutive
        assert!(output.contains("0001.md)\n- [0002]"));
    }

#[test]
fn test_cleanup_formatting_empty_input() {
    let input = "";
    let output = cleanup_formatting(input);
    assert_eq!(output, "");
}

    #[test]
    fn test_cleanup_formatting_only_headers() {
        let input = r#"# Title
## Section
### Subsection"#;
        let output = cleanup_formatting(input);

        // Headers should be separated by blank lines
        assert!(output.contains("# Title\n\n## Section"));
        assert!(output.ends_with('\n'));
    }

    #[test]
    fn test_cleanup_formatting_preserves_table() {
        let input = r#"## Table

| A | B |
|---|---|
| 1 | 2 |
| 3 | 4 |

## Next"#;
        let output = cleanup_formatting(input);

        // Table lines should be preserved
        assert!(output.contains("| A | B |"));
        assert!(output.contains("| 1 | 2 |"));
        assert!(output.contains("| 3 | 4 |"));
    }

    #[test]
    fn test_parsed_index_parse_integration() {
        let content = r#"# Design Documents Index

## All Documents by Number

| Number | Title | State | Updated |
|--------|-------|-------|---------|
| 0001 | First Doc | Draft | 2024-01-01 |
| 0002 | Second Doc | Final | 2024-01-02 |

### Draft

- [0001 - First Doc](01-draft/0001-first-doc.md)

### Final

- [0002 - Second Doc](06-final/0002-second-doc.md)

## Other Section
"#;

        let parsed = ParsedIndex::parse(content).unwrap();

        // Verify table was parsed
        assert_eq!(parsed.table_entries.len(), 2);
        assert!(parsed.table_entries.contains_key("0001"));
        assert!(parsed.table_entries.contains_key("0002"));

        // Verify sections were parsed
        assert_eq!(parsed.state_sections.len(), 2);
        assert!(parsed.state_sections.contains_key("Draft"));
        assert!(parsed.state_sections.contains_key("Final"));

        let draft_docs = parsed.state_sections.get("Draft").unwrap();
        assert_eq!(draft_docs.len(), 1);
        assert_eq!(draft_docs[0], "01-draft/0001-first-doc.md");
    }

#[test]
fn test_index_entry_clone() {
    let entry = IndexEntry {
        number: "0001".to_string(),
        title: "Test".to_string(),
        state: "Draft".to_string(),
        updated: "2024-01-01".to_string(),
    };

    let cloned = entry.clone();
    assert_eq!(entry.number, cloned.number);
    assert_eq!(entry.title, cloned.title);
    assert_eq!(entry.state, cloned.state);
    assert_eq!(entry.updated, cloned.updated);
}

    #[test]
    fn test_cleanup_formatting_header_followed_by_header() {
        let input = r#"## Section One
## Section Two"#;
        let output = cleanup_formatting(input);

        // Headers immediately following each other should be separated
        assert!(output.contains("Section One\n\n## Section Two"));
    }

    #[test]
    fn test_cleanup_formatting_bullet_after_header() {
        let input = r#"### Section
- Item"#;
        let output = cleanup_formatting(input);

        // Should have blank line between header and bullet
        assert!(output.contains("### Section\n\n- Item"));
    }

    #[test]
    fn test_cleanup_formatting_preserves_non_markdown_lines() {
        let input = r#"## Header

Regular text line
Another line

## Next"#;
        let output = cleanup_formatting(input);

        assert!(output.contains("Regular text line"));
        assert!(output.contains("Another line"));
    }

#[test]
fn test_cleanup_formatting_multiple_consecutive_blanks() {
    let input = "Line 1\n\n\n\n\nLine 2";
    let output = cleanup_formatting(input);

    // Should collapse multiple blank lines
    assert!(!output.contains("\n\n\n"));
    assert!(output.contains("Line 1\n\nLine 2"));
}

    #[test]
    fn test_parse_table_with_number_header_row() {
        let content = r#"# Index

| Number | Title | State | Updated |
|--------|-------|-------|---------|
| Number | Title | State | Updated |
| 0001 | Valid | Draft | 2024-01-01 |
"#;
        let entries = parse_table(content);
        // Should skip the duplicate header row that says "Number"
        assert_eq!(entries.len(), 1);
        assert!(entries.contains_key("0001"));
    }
