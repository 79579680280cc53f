use oxur::builder::helpers::parse_kwargs;
use oxur::design::doc::{path_within, DocState};
use oxur::design::docmeta::sync_state_with_directory;
use oxur::design::index_sync::{cleanup_formatting, ParsedIndex};
use oxur::design::normalize::normalize_markdown;
use oxur::sexp::{Lexer, Parser, SExp, TokenType};

#[test]
fn keyword_arguments_come_in_pairs() {
    let e = Parser::parse_str("(Head :a 1 :b x)").unwrap();
    let l = match &e {
        SExp::List(l) => l,
        _ => panic!("expected a list"),
    };
    let kw = parse_kwargs(l).unwrap();
    assert_eq!(kw.len(), 2);
    assert!(kw.get("a").is_some());
    assert!(kw.get("b").is_some());
    assert!(kw.get("c").is_none());
    for text in ["(Head :a)", "(Head 1 2)", "(Head :a 1 2 3)"] {
        let e = Parser::parse_str(text).unwrap();
        match &e {
            SExp::List(l) => assert!(parse_kwargs(l).is_err()),
            _ => panic!("expected a list"),
        }
    }
}

#[test]
fn string_literal_reads_back() {
    let mut lx = Lexer::new("\"a\\nb\\\"c\"");
    let toks = lx.tokenize().unwrap();
    assert_eq!(toks.len(), 2);
    assert!(matches!(toks[0].typ, TokenType::String));
    assert_eq!(toks[0].lexeme, "a\nb\"c");
    assert!(matches!(toks[1].typ, TokenType::Eof));
}

#[test]
fn tokens_end_with_one_eof() {
    let mut lx = Lexer::new("(a :b \"c\" 12) ; note\n nil");
    let toks = lx.tokenize().unwrap();
    let eofs = toks.iter().filter(|t| matches!(t.typ, TokenType::Eof)).count();
    assert_eq!(eofs, 1);
    assert!(matches!(toks.last().unwrap().typ, TokenType::Eof));
    let input = "(a :b \"ü\" 12) ; é\n nil";
    let mut lx = Lexer::new(input);
    let toks = lx.tokenize().unwrap();
    assert_eq!(toks.last().unwrap().pos.offset, input.len());
    for w in toks.windows(2) {
        assert!(w[0].pos.offset < w[1].pos.offset);
    }
    assert!(toks.len() <= input.chars().count() + 1);
}

#[test]
fn state_names_read_back_in_any_case() {
    for s in DocState::all_states() {
        assert_eq!(DocState::from_str_flexible(s.as_str()), Some(s));
        assert_eq!(DocState::from_str_flexible(&s.as_str().to_uppercase()), Some(s));
        assert_eq!(DocState::from_str_flexible(&s.as_str().to_lowercase()), Some(s));
    }
}

#[test]
fn sync_refuses_only_outside_state_directories() {
    let content = "---\nstate: Draft\n---\nBody";
    let outside = sync_state_with_directory("docs/test.md", content, Err("bad".to_string()), "2025-01-01");
    assert!(matches!(outside, Err(oxur::design::docmeta::DocError::InvalidFormat(ref m)) if m == "Document not in a state directory"));
    let inside = sync_state_with_directory("docs/01-draft/test.md", content, Err("bad".to_string()), "2025-01-01");
    assert!(matches!(inside, Err(oxur::design::docmeta::DocError::InvalidFormat(ref m)) if m == "YAML parse error: bad"));
    let bare = sync_state_with_directory("docs/01-draft/test.md", "no frontmatter", Err("bad".to_string()), "2025-01-01");
    assert!(matches!(bare, Err(oxur::design::docmeta::DocError::InvalidFormat(ref m)) if m == "Missing YAML frontmatter"));
}

#[test]
fn normalized_lines_have_no_trailing_whitespace() {
    let r = normalize_markdown("# T  \n\nsome text \t\n* item  \n\n\n\nend   ");
    assert!(r.ends_with('\n'));
    for line in r.lines() {
        assert_eq!(line, line.trim_end());
    }
    assert!(!r[..r.len() - 1].ends_with(char::is_whitespace));
}

#[test]
fn tidied_index_keeps_text_lines_and_single_blanks() {
    let input = "# Index\n\n\n\n## All\n\n\n- [a](a.md)\n\n- [b](b.md)\ntext\n\n\n";
    let r = cleanup_formatting(input);
    assert!(!r.contains("\n\n\n"));
    assert!(r.is_empty() || r.ends_with('\n'));
    let a: Vec<&str> = r.split('\n').filter(|l| !l.is_empty()).collect();
    let b: Vec<&str> = input.lines().filter(|l| !l.is_empty()).collect();
    assert_eq!(a, b);
    assert_eq!(cleanup_formatting(""), "");
}

#[test]
fn index_table_entries_sit_under_their_numbers() {
    let text = "| Number | Title | State | Updated |\n|--------|-------|-------|---------|\n| 0001 | A | Draft | 2024-01-01 |\n| Number | x | y | z |\n|  | x | y | z |\n";
    let p = ParsedIndex::parse(text).unwrap();
    let e = p.table_entries.get("0001").unwrap();
    assert_eq!(e.number, "0001");
    assert!(p.table_entries.get("Number").is_none());
    assert_eq!(p.table_entries.len(), 1);
    let no_sep = "| Number | Title | State | Updated |\n| 0001 | A | Draft | 2024-01-01 |\n";
    assert_eq!(ParsedIndex::parse(no_sep).unwrap().table_entries.len(), 0);
}

#[test]
fn field_names_are_matched_literally() {
    let content = "---\naxb: 1\na.b: 2\n---\n";
    let r = oxur::design::docmeta::update_yaml_field(content, "a.b", "v").unwrap();
    assert_eq!(r, "---\naxb: 1\na.b: v\n---\n");
}

#[test]
fn tidying_twice_changes_nothing() {
    for input in [
        "# Index\n\n\n## All\n- [a](a.md)\n\n\n- [b](b.md)\ntext\n## Next\n### Sub\n\n# T\n",
        "",
        "\n\n",
        "- [a](a.md)\n\nplain\n\n\n## H",
        "## A\n\n\n### B\n\n\nbody\n",
    ] {
        let once = cleanup_formatting(input);
        assert_eq!(cleanup_formatting(&once), once);
    }
}

#[test]
fn repeated_keyword_keeps_its_last_value() {
    let e = Parser::parse_str("(Node :a 1 :b \"x\" :a 2)").unwrap();
    let l = match &e {
        SExp::List(l) => l,
        _ => panic!("expected a list"),
    };
    let kw = parse_kwargs(l).unwrap();
    assert_eq!(kw.len(), 2);
    match kw.get("a") {
        Some(SExp::Number(n)) => assert_eq!(n.value, "2"),
        _ => panic!("expected the number 2"),
    }
    match kw.get("b") {
        Some(SExp::String(s)) => assert_eq!(s.value, "x"),
        _ => panic!("expected the string x"),
    }
    assert!(kw.get("Node").is_none());
}

#[test]
fn paths_within_a_directory_go_by_components() {
    assert!(path_within("/proj/docs/a.md", "/proj"));
    assert!(path_within("/proj", "/proj"));
    assert!(!path_within("/project/a.md", "/proj"));
    assert!(!path_within("/other/a.md", "/proj"));
}

#[test]
fn section_links_follow_the_last_header_in_order() {
    let text = "### Draft\n- [a](x.md)\n- [b](y.md)\n## Other\n- [c](z.md)\n### Final\n- [d](w.md)\ntext\n- [e](u.md)\n### Draft\n- [f](v.md)\n- [g](t.md)\n";
    let p = ParsedIndex::parse(text).unwrap();
    assert_eq!(p.state_sections.len(), 2);
    assert_eq!(p.state_sections.get("Draft").unwrap(), &vec!["v.md".to_string(), "t.md".to_string()]);
    assert_eq!(p.state_sections.get("Final").unwrap(), &vec!["w.md".to_string(), "u.md".to_string()]);
}
