use oxur::design::doc::{extract_number_from_filename, has_frontmatter, has_number_prefix, has_placeholder_values, is_in_state_dir, state_from_directory, DocState};

#[test]
fn test_has_number_prefix() {
    assert!(has_number_prefix("0001-test.md"));
    assert!(has_number_prefix("9999-doc.md"));
    assert!(!has_number_prefix("test.md"));
    assert!(!has_number_prefix("001-short.md"));
}

#[test]
fn test_has_frontmatter() {
    assert!(has_frontmatter("---\ntitle: Test\n---\nContent"));
    assert!(has_frontmatter("  ---\ntitle: Test\n---\nContent"));
    assert!(!has_frontmatter("# No frontmatter"));
    assert!(!has_frontmatter(""));
}

#[test]
fn test_has_placeholder_values() {
    assert!(has_placeholder_values("number: NNNN\ntitle: Test"));
    assert!(has_placeholder_values("number: 0\ntitle: Test"));
    assert!(has_placeholder_values("author: Unknown\ntitle: Test"));
    assert!(has_placeholder_values("title: \"\""));
    assert!(!has_placeholder_values("number: 42\ntitle: Real Title\nauthor: Real Author"));
}

#[test]
fn test_extract_number_from_filename() {
    assert_eq!(extract_number_from_filename("0001-test.md"), 1);
    assert_eq!(extract_number_from_filename("0042-feature.md"), 42);
    assert_eq!(extract_number_from_filename("9999-doc.md"), 9999);
}

#[test]
fn test_extract_number_no_prefix() {
    assert_eq!(extract_number_from_filename("test.md"), 0);
    assert_eq!(extract_number_from_filename("no-number.md"), 0);
}

#[test]
fn test_extract_number_invalid_parse() {
    assert_eq!(extract_number_from_filename("999999999999999999999-test.md"), 0);
}

#[test]
fn test_is_in_state_dir() {
    // Paths in state directories
    assert!(is_in_state_dir("project/01-draft/doc.md"));
    assert!(is_in_state_dir("project/06-final/doc.md"));
    assert!(is_in_state_dir("/abs/path/02-under-review/doc.md"));

    // Paths not in state directories
    assert!(!is_in_state_dir("project/doc.md"));
    assert!(!is_in_state_dir("project/other-dir/doc.md"));
}

#[test]
fn test_is_in_state_dir_root_path() {
    assert!(!is_in_state_dir("/"));
    assert!(!is_in_state_dir("doc.md"));
}

#[test]
fn test_state_from_directory() {
    assert_eq!(
        state_from_directory("project/01-draft/doc.md"),
        Some(DocState::Draft)
    );
    assert_eq!(
        state_from_directory("project/06-final/doc.md"),
        Some(DocState::Final)
    );
    assert_eq!(state_from_directory("project/doc.md"), None);
}
