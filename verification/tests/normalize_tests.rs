use oxur::design::normalize::{normalize_spacing, standardize_bullets, strip_frontmatter, trim_line_whitespace};

#[test]
fn test_standardize_bullets() {
    let input = "* item 1\n+ item 2\n- item 3";
    let expected = "- item 1\n- item 2\n- item 3";
    assert_eq!(standardize_bullets(input), expected);
}

#[test]
fn test_normalize_spacing() {
    let input = "line 1\n\n\n\nline 2";
    let expected = "line 1\n\nline 2";
    assert_eq!(normalize_spacing(input), expected);
}

#[test]
fn test_trim_whitespace() {
    let input = "line 1   \nline 2  ";
    let expected = "line 1\nline 2";
    assert_eq!(trim_line_whitespace(input), expected);
}

#[test]
fn test_strip_frontmatter() {
    let input = "---\ntitle: Test\n---\n\n# Content";
    let expected = "\n\n# Content";
    assert_eq!(strip_frontmatter(input), expected);
}

#[test]
fn frontmatter_closed_at_end_of_text_is_stripped_whole() {
    assert_eq!(strip_frontmatter("---\na: b\n---"), "");
    assert_eq!(oxur::design::normalize::strip_bad_frontmatter("---\nfoo\nbar\nbaz\n---"), "");
    assert_eq!(strip_frontmatter("---\na: b\n---\nBody"), "\nBody");
}
