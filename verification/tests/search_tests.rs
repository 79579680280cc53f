use oxur::design::extract::is_valid_markdown;
use oxur::design::search::{
    extract_number_from_path, grep_arguments, is_metadata_line, parse_search_hit, search_report,
    SearchEntry, SearchOptions,
};
use oxur::design::theme::{
    badge_color, doc_number_label, error_symbol, info_symbol, success_symbol, warning_symbol,
    BadgeColor,
};

#[test]
fn test_extract_number_from_path() {
    assert_eq!(extract_number_from_path("01-draft/0001-test.md"), Some(1));
    assert_eq!(extract_number_from_path("06-final/0042-document.md"), Some(42));
    assert_eq!(extract_number_from_path("docs/0123-file.md"), Some(123));
    assert_eq!(extract_number_from_path("no-number-here.md"), None);
    assert_eq!(extract_number_from_path("999-invalid.md"), None); // Not 4 digits
}

#[test]
fn search_hits_are_read_from_grep_lines() {
    let h = parse_search_hit("docs/01-draft/0001-a.md:12:some: text").unwrap();
    assert_eq!(h.path, "docs/01-draft/0001-a.md");
    assert_eq!(h.line_number, "12");
    assert_eq!(h.content, "some: text");
    assert!(parse_search_hit("no colon here").is_none());
    assert!(parse_search_hit("path:x:content").is_none());
    assert!(is_metadata_line("14"));
    assert!(!is_metadata_line("15"));
    assert!(!is_metadata_line("x"));
}

#[test]
fn test_search_invalid_state() {
    let result = grep_arguments("docs", "test", Some("InvalidState"), false);
    assert!(result.is_err());
    assert!(result.unwrap_err().contains("Invalid state"));
}

#[test]
fn test_search_options_default() {
    let options = SearchOptions::default();
    assert!(options.state.is_none());
    assert!(!options.metadata_only);
    assert!(!options.case_sensitive);
    assert_eq!(options.context_lines, 0);
}

#[test]
fn grep_arguments_follow_the_options() {
    let all = grep_arguments("docs", "needle", None, false).unwrap();
    assert_eq!(all, vec!["grep", "-n", "--color=never", "-i", "needle", "--", "docs/**/*.md"]);
    let draft = grep_arguments("docs", "needle", Some("draft"), true).unwrap();
    assert_eq!(draft, vec!["grep", "-n", "--color=never", "needle", "--", "docs/01-draft/*.md"]);
    let review = grep_arguments("d", "q", Some("Under-Review"), true).unwrap();
    assert_eq!(review[5], "d/02-under-review/*.md");
    assert_eq!(grep_arguments("d", "q", Some("nope"), true).unwrap_err(), "Invalid state: nope");
}

#[test]
fn search_report_groups_hits_by_file() {
    let out = "docs/01-draft/0001-a.md:3:title: A\n\
               docs/01-draft/0001-a.md:40:body a\n\
               not a hit\n\
               docs/misc/notes.md:2:x\n";
    let r = search_report(out, false);
    assert_eq!(r.len(), 5);
    match &r[0] {
        SearchEntry::File { path, number } => {
            assert_eq!(path, "docs/01-draft/0001-a.md");
            assert_eq!(*number, Some(1));
        }
        _ => panic!("expected a heading"),
    }
    match &r[2] {
        SearchEntry::Match { line_number, content } => {
            assert_eq!(line_number, "40");
            assert_eq!(content, "body a");
        }
        _ => panic!("expected a hit"),
    }
    match &r[3] {
        SearchEntry::File { number, .. } => assert_eq!(*number, None),
        _ => panic!("expected a heading"),
    }
    let meta = search_report(out, true);
    assert_eq!(meta.len(), 4);
    assert!(matches!(&meta[1], SearchEntry::Match { line_number, .. } if line_number == "3"));
    assert!(search_report("", false).is_empty());
}

#[test]
fn state_badges_take_their_colors() {
    assert_eq!(badge_color("Draft"), BadgeColor::Yellow);
    assert_eq!(badge_color("under review"), BadgeColor::Cyan);
    assert_eq!(badge_color("REVISED"), BadgeColor::Blue);
    assert_eq!(badge_color("Accepted"), BadgeColor::Green);
    assert_eq!(badge_color("Active"), BadgeColor::GreenBold);
    assert_eq!(badge_color("Final"), BadgeColor::GreenBold);
    assert_eq!(badge_color("Deferred"), BadgeColor::Magenta);
    assert_eq!(badge_color("Rejected"), BadgeColor::Red);
    assert_eq!(badge_color("Withdrawn"), BadgeColor::Red);
    assert_eq!(badge_color("Superseded"), BadgeColor::Red);
    assert_eq!(badge_color("Removed"), BadgeColor::White);
}

#[test]
fn document_numbers_and_symbols_are_written_out() {
    assert_eq!(doc_number_label(7), "0007");
    assert_eq!(doc_number_label(1234), "1234");
    assert_eq!(doc_number_label(98765), "98765");
    assert_eq!(success_symbol(), "\u{2713}");
    assert_eq!(error_symbol(), "\u{2717}");
    assert_eq!(warning_symbol(), "\u{26a0}");
    assert_eq!(info_symbol(), "\u{2192}");
}

#[test]
fn markdown_is_told_from_binary() {
    assert!(!is_valid_markdown(""));
    assert!(!is_valid_markdown("# Short"));
    assert!(is_valid_markdown("# Title\n\nSome text here."));
    let binary: String = std::iter::repeat('\u{1}').take(20).collect();
    assert!(!is_valid_markdown(&binary));
    // nine text characters out of ten bytes is not enough; the tenth must read as text too
    let mixed = format!("{}{}", "a".repeat(18), "\u{1}\u{1}");
    assert!(!is_valid_markdown(&mixed));
    let mostly = format!("{}{}", "a".repeat(19), "\u{1}");
    assert!(is_valid_markdown(&mostly));
}
