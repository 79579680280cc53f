use oxur::testing::{extract_expected_outputs, matches_pattern, parse_expected_line};

#[test]
fn test_parse_expected_line_value() {
    let result = parse_expected_line("Expected: 42");
    assert!(result.is_some());

    let expected = result.unwrap();
    assert_eq!(expected.value, "42");
    assert!(!expected.is_error);
}

#[test]
fn test_parse_expected_line_error() {
    let result = parse_expected_line("Expected: Runtime error: division by zero");
    assert!(result.is_some());

    let expected = result.unwrap();
    assert_eq!(expected.value, "Runtime error: division by zero");
    assert!(expected.is_error);
}

#[test]
fn test_parse_expected_line_no_match() {
    let result = parse_expected_line("This is just a comment");
    assert!(result.is_none());
}

    #[test]
    fn test_extract_expected_outputs_lisp() {
        let content = r#"
(+ 1 2)
;; Expected: 3

(- 10 5)
;; Expected: 5
        "#;

        let outputs = extract_expected_outputs(content);
        assert_eq!(outputs.len(), 2);
        assert_eq!(outputs[0].value, "3");
        assert_eq!(outputs[1].value, "5");
    }

    #[test]
    fn test_extract_expected_outputs_rust() {
        let content = r#"
fn add(a: i32, b: i32) -> i32 {
    a + b
}
// Expected: compiles successfully

fn divide(a: i32, b: i32) -> i32 {
    a / b
}
// Expected: Runtime error: division by zero
        "#;

        let outputs = extract_expected_outputs(content);
        assert_eq!(outputs.len(), 2);
        assert_eq!(outputs[0].value, "compiles successfully");
        assert!(!outputs[0].is_error);
        assert_eq!(outputs[1].value, "Runtime error: division by zero");
        assert!(outputs[1].is_error);
    }

#[test]
fn test_matches_pattern_extension() {
    assert!(matches_pattern("test.oxur", "*.oxur"));
    assert!(matches_pattern("example.rs", "*.rs"));
    assert!(!matches_pattern("test.oxur", "*.rs"));
}

#[test]
fn test_matches_pattern_exact() {
    assert!(matches_pattern("test.txt", "test.txt"));
    assert!(!matches_pattern("test.txt", "other.txt"));
}

#[test]
fn test_matches_pattern_wildcard() {
    assert!(matches_pattern("anything.txt", "*"));
    assert!(matches_pattern("example.rs", "*"));
}
