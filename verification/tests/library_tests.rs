use oxur::design::config::{Config, PartialConfig};
use oxur::design::doc::{parse_u32, DocState};
use oxur::design::extract::{analyze_markdown, detect_state_hint, markdown_stats, ExtractedMetadata};
use oxur::design::index_sync::{cleanup_formatting, parse_table};
use oxur::design::info::InfoCommand;
use oxur::design::normalize::{normalize_headings, normalize_markdown, strip_bad_frontmatter};
use oxur::design::state::{checksum_of, file_changed, ScanResult};
use oxur::design::validate::{collect_issues, summarize, DateStamp, DocFacts, ValidationIssue};
use oxur::sexp::{print_sexp, Parser, SExp};
use oxur::table::{parse_bg_color, parse_color, parse_single_color, BasicColor, ColorChoice};

fn date(year: i32, month: u32, day: u32) -> DateStamp {
    DateStamp { year, month, day, text: format!("{:04}-{:02}-{:02}", year, month, day) }
}

fn doc(number: u32, path: &str, state: DocState) -> DocFacts {
    DocFacts {
        number,
        title: format!("Doc {}", number),
        path: path.to_string(),
        state,
        supersedes: None,
        superseded_by: None,
        created: date(2024, 1, 1),
        updated: date(2024, 1, 2),
    }
}

#[test]
fn test_print_then_parse_gives_same_text() {
    let input = "(Crate :items ((Item :ident (Ident :name \"a\\nb\") :id -3) nil) :flag true)";
    let first = Parser::parse_str(input).unwrap();
    let printed = print_sexp(&first);
    let second = Parser::parse_str(&printed).unwrap();
    assert_eq!(print_sexp(&second), printed);
    match second {
        SExp::List(l) => assert_eq!(l.elements.len(), 5),
        _ => panic!("expected a list"),
    }
}

#[test]
fn test_print_escapes_string() {
    let e = Parser::parse_str("\"q\\\"t\\\\\"").unwrap();
    assert_eq!(print_sexp(&e), "\"q\\\"t\\\\\"");
}

#[test]
fn test_state_names_round_trip_through_lowercase_and_dashes() {
    assert_eq!(DocState::from_str_flexible("UNDER-REVIEW"), Some(DocState::UnderReview));
    assert_eq!(DocState::from_str_flexible(" superseded\t"), Some(DocState::Superseded));
}

#[test]
fn test_parse_u32_edges() {
    assert_eq!(parse_u32("+5"), Some(5));
    assert_eq!(parse_u32("-0"), None);
    assert_eq!(parse_u32("4294967295"), Some(4294967295));
    assert_eq!(parse_u32("4294967296"), None);
    assert_eq!(parse_u32(""), None);
}

#[test]
fn test_parse_table_later_row_wins() {
    let content = "| Number | Title | State | Updated |\n|---|---|---|---|\n| 0001 | A | Draft | d1 |\n| 0001 | B | Final | d2 |\n";
    let entries = parse_table(content);
    assert_eq!(entries.len(), 1);
    let e = entries.get("0001").unwrap();
    assert_eq!(e.title, "B");
    assert_eq!(e.state, "Final");
}

#[test]
fn test_checksum_of_known_text() {
    assert_eq!(
        checksum_of(b"abc"),
        "ba7816bf8f01cfea414140de5dae2223b00361a396177a9cb410ff61f20015ad"
    );
    assert!(!file_changed(b"abc", "ba7816bf8f01cfea414140de5dae2223b00361a396177a9cb410ff61f20015ad"));
    assert!(file_changed(b"abd", "ba7816bf8f01cfea414140de5dae2223b00361a396177a9cb410ff61f20015ad"));
}

#[test]
fn test_scan_result_counts() {
    let mut r = ScanResult::new();
    assert!(!r.has_changes());
    assert_eq!(r.total_changes(), 0);
    r.changed.push(3);
    r.deleted.push(4);
    assert!(r.has_changes());
    assert_eq!(r.total_changes(), 2);
}

#[test]
fn test_config_merge_and_load_with_file() {
    let file = PartialConfig {
        project_root: Some("/proj".to_string()),
        dustbin_directory: None,
        preserve_dustbin_structure: Some(false),
        auto_stage_git: None,
    };
    let config = Config::load(Some("/docs"), Ok(Some(file))).unwrap();
    assert_eq!(config.project_root, "/proj");
    assert_eq!(config.docs_directory, "/docs");
    assert_eq!(config.dustbin_directory, "/docs/.dustbin");
    assert!(!config.preserve_dustbin_structure);
    assert!(config.auto_stage_git);
    assert_eq!(config.dustbin_dir_for_state("01-draft"), "/docs/.dustbin");
}

#[test]
fn test_info_command_names() {
    assert!(matches!(InfoCommand::from_str(Some("metadata")), InfoCommand::Fields));
    assert!(matches!(InfoCommand::from_str(Some("structure")), InfoCommand::Dirs));
    assert!(matches!(InfoCommand::from_str(Some("stats")), InfoCommand::Stats));
    assert!(matches!(InfoCommand::from_str(Some("other")), InfoCommand::Overview));
    assert!(matches!(InfoCommand::from_str(None), InfoCommand::Overview));
}

#[test]
fn test_validation_finds_each_kind_of_issue() {
    let mut a = doc(1, "docs/01-draft/0001-a.md", DocState::Draft);
    a.supersedes = Some(9);
    let mut b = doc(1, "docs/06-final/0001-b.md", DocState::Draft);
    b.created = date(2024, 3, 1);
    let c = doc(2, "docs/02-under-review/0002-c.md", DocState::UnderReview);
    let docs = vec![a, b, c];
    let index = parse_table(
        "| Number | Title | State | Updated |\n|---|---|---|---|\n| 0001 | A | Draft | d |\n| 0007 | X | Draft | d |\n",
    );
    let files = vec![
        ("docs/01-draft/0001-a.md".to_string(), "---\nnumber: 1\n---\n".to_string()),
        ("docs/02-under-review/0002-c.md".to_string(), "# no headers".to_string()),
    ];
    let issues = collect_issues(&docs, Some(&index), &files);
    let kinds: Vec<&str> = issues
        .iter()
        .map(|i| match i {
            ValidationIssue::DuplicateNumber { .. } => "dup",
            ValidationIssue::MissingReference { .. } => "ref",
            ValidationIssue::DateOrderIssue { .. } => "date",
            ValidationIssue::StateDirectoryMismatch { .. } => "dir",
            ValidationIssue::NotInIndex { .. } => "notindex",
            ValidationIssue::InIndexNotOnDisk { .. } => "stale",
            ValidationIssue::MissingHeaders { .. } => "headers",
        })
        .collect();
    assert_eq!(kinds, vec!["dup", "ref", "date", "dir", "notindex", "stale", "headers"]);
    assert_eq!(
        issues[0].description(),
        "Duplicate number 0001 found in 2 files:\n      docs/01-draft/0001-a.md\n      docs/06-final/0001-b.md"
    );
    assert_eq!(issues[1].description(), "Document 0001 references non-existent supersedes 0009");
    assert_eq!(
        issues[3].description(),
        "Document 0001: YAML state 'Draft' doesn't match directory state 'Final'\n      Path: docs/06-final/0001-b.md"
    );
    assert_eq!(issues[5].description(), "Index entry 0007 references non-existent file");
    assert_eq!(summarize(&issues), (3, 4, 3));
    assert_eq!(issues[2].severity(), "WARNING");
    assert_eq!(
        issues[6].fix_description(),
        Some("Run 'oxd add-headers <file>' to add headers".to_string())
    );
}

#[test]
fn test_extract_metadata_from_content() {
    let content = "---\ntitle: x\n---\n\n# The Title\n\nAuthor: Jane Doe\nThis is a work in progress.\n";
    let m = ExtractedMetadata::from_content(content);
    assert!(m.has_frontmatter);
    assert_eq!(m.first_heading.as_deref(), Some("The Title"));
    assert_eq!(m.title.as_deref(), Some("The Title"));
    assert_eq!(m.author.as_deref(), Some("Jane Doe"));
    assert_eq!(m.state_hint, Some(DocState::Draft));
}

#[test]
fn test_detect_state_hint_order() {
    assert_eq!(detect_state_hint("Ready for review, then implemented"), Some(DocState::UnderReview));
    assert_eq!(detect_state_hint("This was POSTPONED"), Some(DocState::Deferred));
    assert_eq!(detect_state_hint("nothing here"), None);
}

#[test]
fn test_analyze_markdown_reports() {
    let issues = analyze_markdown("# A\n# B\n- x\n* y\n");
    assert_eq!(
        issues,
        vec![
            "Multiple H1 headings found (2)".to_string(),
            "Inconsistent bullet point markers (-, *, +)".to_string()
        ]
    );
    let issues = analyze_markdown("plain text");
    assert_eq!(issues, vec!["No H1 heading found".to_string()]);
}

#[test]
fn test_markdown_stats_counts_bytes_and_text_chars() {
    assert_eq!(markdown_stats("héllo\n"), (7, 5));
}

#[test]
fn test_normalize_markdown_layout() {
    let out = normalize_markdown("* one\n+ two\n\n\n\n# Head\ntext   \n\n\n");
    assert_eq!(out, "- one\n- two\n\n# Head\n\ntext\n");
    assert!(out.ends_with('\n') && !out.ends_with("\n\n"));
}

#[test]
fn test_normalize_headings_blank_lines() {
    assert_eq!(normalize_headings("text\n# H\nmore"), "text\n\n# H\n\nmore");
}

#[test]
fn test_strip_bad_frontmatter_only_when_malformed() {
    let bad = "---\nno colon here\nnor here\nnor there\n---\nBody";
    assert_eq!(strip_bad_frontmatter(bad), "\nBody");
    let good = "---\na: 1\nb: 2\n---\nBody";
    assert_eq!(strip_bad_frontmatter(good), good);
}

#[test]
fn test_cleanup_formatting_is_stable_on_its_output() {
    let input = "## A\n\n\n- [x](a)\n\n- [y](b)\ntext\n\n\n### B\n";
    let once = cleanup_formatting(input);
    assert_eq!(cleanup_formatting(&once), once);
}

#[test]
fn test_colors_by_name_and_hex() {
    assert_eq!(parse_single_color("#ff0000"), ColorChoice::Rgb(255, 0, 0));
    assert_eq!(parse_single_color("GREY"), ColorChoice::Basic(BasicColor::BrightBlack));
    assert_eq!(parse_single_color("nonsense"), ColorChoice::Basic(BasicColor::White));
    assert_eq!(parse_bg_color("nonsense"), ColorChoice::Basic(BasicColor::Black));
    assert_eq!(
        parse_color("blue", "#0F0"),
        (ColorChoice::Basic(BasicColor::Blue), ColorChoice::Rgb(0, 255, 0))
    );
}


#[test]
fn document_paths_for_moves() {
    assert_eq!(
        oxur::design::doc::number_prefixed_path("dir/idea.md", 7),
        Some("dir/0007-idea.md".to_string())
    );
    assert_eq!(oxur::design::doc::number_prefixed_path("/", 7), None);
    assert_eq!(
        oxur::design::doc::state_dir_path("a/b/x.md", oxur::design::doc::DocState::Final, "proj"),
        Some("proj/06-final/x.md".to_string())
    );
    assert_eq!(oxur::design::doc::project_path("a/x.md", "p"), Some("p/x.md".to_string()));
    assert_eq!(oxur::design::doc::project_path("..", "p"), None);
}
