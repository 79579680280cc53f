use oxur::design::doc::DocState;
use oxur::design::docmeta::{build_yaml_frontmatter, DocMetadata};
use oxur::design::filename::{build_filename, filename_to_title, sanitize_filename};
use oxur::design::validate::DateStamp;

#[test]
fn test_sanitize_basic() {
    assert_eq!(sanitize_filename("My Cool Feature"), "my-cool-feature");
}

#[test]
fn test_sanitize_special_chars() {
    assert_eq!(sanitize_filename("Feature!!!"), "feature");
    assert_eq!(sanitize_filename("my_feature_name"), "my-feature-name");
}

#[test]
fn test_sanitize_unicode() {
    assert_eq!(sanitize_filename("Café"), "cafe");
    assert_eq!(sanitize_filename("naïve"), "naive");
}

#[test]
fn test_sanitize_multiple_hyphens() {
    assert_eq!(sanitize_filename("my---feature"), "my-feature");
}

#[test]
fn test_sanitize_empty() {
    assert_eq!(sanitize_filename("!!!"), "untitled");
}

#[test]
fn test_build_filename() {
    assert_eq!(build_filename(12, "My Cool Feature"), "0012-my-cool-feature.md");
}

#[test]
fn test_filename_to_title() {
    assert_eq!(filename_to_title("0001-my-feature.md"), "My Feature");
    assert_eq!(filename_to_title("my_cool_thing.md"), "My Cool Thing");
}

#[test]
fn test_sanitize_very_long_filename() {
    let long_name = "a".repeat(200);
    let result = sanitize_filename(&long_name);
    assert!(result.len() <= 100, "Filename should be truncated to 100 chars");
}

#[test]
fn test_sanitize_exactly_100_chars() {
    let name = "a".repeat(100);
    let result = sanitize_filename(&name);
    assert_eq!(result.len(), 100);
}

#[test]
fn test_sanitize_all_special_characters() {
    assert_eq!(sanitize_filename("!@#$%^&*()"), "untitled");
    assert_eq!(sanitize_filename("[]{}|\\"), "untitled");
    assert_eq!(sanitize_filename("<>?/~`"), "untitled");
}

#[test]
fn test_sanitize_unicode_emojis() {
    assert_eq!(sanitize_filename("😀 Happy File 😀"), "happy-file");
    assert_eq!(sanitize_filename("🚀 Rocket 🌟"), "rocket");
}

#[test]
fn test_sanitize_unicode_rtl_text() {
    // Arabic text should be filtered out (not ASCII)
    assert_eq!(sanitize_filename("مرحبا"), "untitled");
    // Mixed RTL and ASCII
    assert_eq!(sanitize_filename("hello مرحبا world"), "hello-world");
}

#[test]
fn test_sanitize_mixed_case() {
    assert_eq!(sanitize_filename("MyMixedCaseFileName"), "mymixedcasefilename");
    assert_eq!(sanitize_filename("CamelCase"), "camelcase");
}

#[test]
fn test_sanitize_leading_trailing_hyphens() {
    assert_eq!(sanitize_filename("---my-file---"), "my-file");
    assert_eq!(sanitize_filename("--file--"), "file");
}

#[test]
fn test_sanitize_numbers_only() {
    assert_eq!(sanitize_filename("123456"), "123456");
    assert_eq!(sanitize_filename("0000"), "0000");
}

#[test]
fn test_sanitize_removes_number_prefix() {
    assert_eq!(sanitize_filename("0001-existing-prefix"), "existing-prefix");
    assert_eq!(sanitize_filename("9999-test"), "test");
}

#[test]
fn test_sanitize_with_extension() {
    // Extension is removed (everything after last dot)
    assert_eq!(sanitize_filename("my-file.md"), "my-file");
    assert_eq!(sanitize_filename("test.txt"), "test");
    // For double extensions, only the last is removed, then dots are removed as special chars
    assert_eq!(sanitize_filename("file.tar.gz"), "filetar");
}

#[test]
fn test_sanitize_whitespace_variations() {
    assert_eq!(sanitize_filename("  spaces  everywhere  "), "spaces-everywhere");
    assert_eq!(sanitize_filename("tab\tseparated"), "tabseparated");
    assert_eq!(sanitize_filename("new\nline"), "newline");
}

#[test]
fn test_build_filename_edge_numbers() {
    assert_eq!(build_filename(0, "test"), "0000-test.md");
    assert_eq!(build_filename(1, "test"), "0001-test.md");
    assert_eq!(build_filename(9999, "test"), "9999-test.md");
}

#[test]
fn test_build_filename_empty_title() {
    assert_eq!(build_filename(42, "!!!"), "0042-untitled.md");
    assert_eq!(build_filename(42, ""), "0042-untitled.md");
}

#[test]
fn test_filename_to_title_no_prefix() {
    assert_eq!(filename_to_title("no-prefix-here.md"), "No Prefix Here");
    assert_eq!(filename_to_title("simple.md"), "Simple");
}

#[test]
fn test_filename_to_title_no_extension() {
    assert_eq!(filename_to_title("0001-no-extension"), "No Extension");
    assert_eq!(filename_to_title("just-a-name"), "Just A Name");
}

#[test]
fn test_filename_to_title_empty() {
    assert_eq!(filename_to_title(""), "");
}

#[test]
fn test_filename_to_title_single_word() {
    assert_eq!(filename_to_title("word"), "Word");
    assert_eq!(filename_to_title("0042-word"), "Word");
}

#[test]
fn test_sanitize_consecutive_spaces() {
    assert_eq!(sanitize_filename("multiple    spaces"), "multiple-spaces");
}

#[test]
fn test_sanitize_unicode_accents_comprehensive() {
    assert_eq!(sanitize_filename("résumé"), "resume");
    assert_eq!(sanitize_filename("Übung"), "ubung");
    assert_eq!(sanitize_filename("niño"), "nino");
    assert_eq!(sanitize_filename("François"), "francois");
}

#[test]
fn slug_shape_on_examples() {
    let long = "x".repeat(300);
    for s in ["--a--", "", "!!!", "Über Größe", "0001-", long.as_str()] {
        let r = sanitize_filename(s);
        assert!(!r.is_empty());
        assert!(r.len() <= 100);
        if r != "untitled" {
            assert!(!r.starts_with('-') && !r.ends_with('-'));
        }
    }
}

#[test]
fn sanitizing_is_idempotent_on_examples() {
    assert_eq!(sanitize_filename("0001-0002-x"), "x");
    assert_eq!(sanitize_filename("1234 x"), "x");
    assert_eq!(sanitize_filename("1234_5678 x"), "x");
    assert_eq!(sanitize_filename("1234 "), "1234");
    assert_eq!(sanitize_filename("1234-"), "untitled");
    for s in ["1234 x", "My Great_Idea (v2).md", "0001-0002-x", "Café", "", "12345-x", "--a--b--"] {
        let once = sanitize_filename(s);
        assert_eq!(sanitize_filename(&once), once);
    }
    let long = format!("1234 {}", "ab-".repeat(60));
    let once = sanitize_filename(&long);
    assert!(once.len() <= 100);
    assert!(once.starts_with("ab-"));
    assert_eq!(sanitize_filename(&once), once);
}

#[test]
fn frontmatter_is_delimited() {
    let d = DateStamp { year: 2024, month: 1, day: 1, text: "2024-01-01".to_string() };
    let m = DocMetadata {
        number: 42,
        title: "Test".to_string(),
        author: "Author".to_string(),
        created: d.clone(),
        updated: d,
        state: DocState::UnderReview,
        supersedes: None,
        superseded_by: None,
    };
    let y = build_yaml_frontmatter(&m);
    assert!(y.starts_with("---\n"));
    assert!(y.ends_with("---\n\n"));
}
