//! Test-data support: expected outputs written in comments, and file-name patterns.

use crate::text::{chars_of, lowercase, str_to_lowercase, string_from_chars};
use crate::textops::{
    contains, contains_str, lemma_deep_view_chars, lines_of, split_lines, starts_with_str, trim,
    trimmed,
};
use vstd::prelude::*;

verus! {

/// Why loading test data failed.
#[derive(Debug)]
pub enum TestError {
    FileRead(String),
    DirectoryNotFound(String),
    NoExpectedOutput,
    InvalidExpectedFormat(String),
}

/// A test-data file: where it is, what it holds, and the outputs it expects.
#[derive(Debug, Clone)]
pub struct TestFile {
    pub relative_path: String,
    pub absolute_path: String,
    pub content: String,
    pub expected_outputs: Vec<ExpectedOutput>,
}

/// An expected output announced in a comment, and the line that announced it.
#[derive(Debug, Clone, PartialEq, Eq)]
pub struct ExpectedOutput {
    pub value: String,
    pub is_error: bool,
    pub line_number: usize,
}

pub struct ExpectedOutputV {
    pub value: Seq<char>,
    pub is_error: bool,
    pub line_number: nat,
}

impl View for ExpectedOutput {
    type V = ExpectedOutputV;

    open spec fn view(&self) -> ExpectedOutputV {
        ExpectedOutputV {
            value: self.value@,
            is_error: self.is_error,
            line_number: self.line_number as nat,
        }
    }
}

/// The expectation a comment (its text after the comment marker) announces:
/// `Expected: VALUE`, an error when the value mentions "error" in any case.
pub open spec fn expected_in(comment: Seq<char>, line: nat) -> Option<ExpectedOutputV> {
    let c = trim(comment);
    if "Expected:"@.is_prefix_of(c) {
        let value = trim(c.skip(9));
        Some(
            ExpectedOutputV {
                value,
                is_error: contains(lowercase(value), "error"@),
                line_number: line,
            },
        )
    } else {
        None
    }
}

/// Reads `Expected: VALUE` from the text of a comment.
pub fn parse_expected_line(comment: &str) -> (r: Option<ExpectedOutput>)
    ensures
        match r {
            Some(e) => expected_in(comment@, 0) == Some(e@),
            None => expected_in(comment@, 0) is None,
        },
{
    let cs = chars_of(comment);
    let c = trimmed(cs.as_slice());
    if starts_with_str(c.as_slice(), "Expected:") {
        proof {
            reveal_strlit("Expected:");
        }
        let rest = crate::text::chars_range(c.as_slice(), 9, c.len());
        assert(rest@ =~= c@.skip(9));
        let v = trimmed(rest.as_slice());
        let value = string_from_chars(v.as_slice());
        let lower = str_to_lowercase(value.as_str());
        let lv = chars_of(lower.as_str());
        let is_error = contains_str(lv.as_slice(), "error");
        Some(ExpectedOutput { value, is_error, line_number: 0 })
    } else {
        None
    }
}

/// The expectation announced on a line (numbered from 1), in a `;;` or a `//` comment.
pub open spec fn expected_on_line(line: Seq<char>, number: nat) -> Option<ExpectedOutputV> {
    let t = trim(line);
    if ";;"@.is_prefix_of(t) {
        expected_in(t.skip(2), number)
    } else if "//"@.is_prefix_of(t) {
        expected_in(t.skip(2), number)
    } else {
        None
    }
}

/// The expectations announced on the lines from index `i` on.
pub open spec fn expected_from(ls: Seq<Seq<char>>, i: int) -> Seq<ExpectedOutputV>
    decreases ls.len() - i,
{
    if i < 0 || i >= ls.len() {
        Seq::empty()
    } else {
        match expected_on_line(ls[i], (i + 1) as nat) {
            Some(e) => seq![e] + expected_from(ls, i + 1),
            None => expected_from(ls, i + 1),
        }
    }
}

pub open spec fn outputs_view(v: Seq<ExpectedOutput>) -> Seq<ExpectedOutputV> {
    v.map_values(|e: ExpectedOutput| e@)
}

/// Collects the `;; Expected: ...` and `// Expected: ...` comments of a file, in order.
pub fn extract_expected_outputs(content: &str) -> (r: Vec<ExpectedOutput>)
    ensures
        outputs_view(r@) == expected_from(lines_of(content@), 0),
{
    let cs = chars_of(content);
    let lines = split_lines(cs.as_slice());
    let ghost ls = lines.deep_view();
    let mut outputs: Vec<ExpectedOutput> = Vec::new();
    let mut i: usize = 0;
    proof {
        assert(outputs_view(outputs@) =~= Seq::<ExpectedOutputV>::empty());
        assert(Seq::<ExpectedOutputV>::empty() + expected_from(ls, 0) =~= expected_from(ls, 0));
    }
    while i < lines.len()
        invariant
            i <= lines@.len(),
            ls == lines.deep_view(),
            ls == lines_of(content@),
            expected_from(ls, 0) == outputs_view(outputs@) + expected_from(ls, i as int),
        decreases lines@.len() - i,
    {
        proof {
            assert(ls[i as int] == lines@[i as int]@);
            lemma_deep_view_chars(lines@[i as int]);
            reveal_strlit(";;");
            reveal_strlit("//");
        }
        let t = trimmed(lines[i].as_slice());
        let mut found: Option<ExpectedOutput> = None;
        if starts_with_str(t.as_slice(), ";;") || starts_with_str(t.as_slice(), "//") {
            let rest = crate::text::chars_range(t.as_slice(), 2, t.len());
            assert(rest@ =~= t@.skip(2));
            let text = string_from_chars(rest.as_slice());
            match parse_expected_line(text.as_str()) {
                Some(e) => {
                    found = Some(ExpectedOutput { value: e.value, is_error: e.is_error, line_number: i + 1 });
                },
                None => {},
            }
        }
        let ghost before = outputs@;
        match found {
            Some(e) => {
                outputs.push(e);
                proof {
                    assert(outputs_view(outputs@) =~= outputs_view(before).push(e@));
                    assert(outputs_view(before) + (seq![e@] + expected_from(ls, i + 1))
                        =~= outputs_view(before).push(e@) + expected_from(ls, i + 1));
                }
            },
            None => {},
        }
        i = i + 1;
    }
    proof {
        assert(outputs_view(outputs@) + Seq::<ExpectedOutputV>::empty() =~= outputs_view(outputs@));
    }
    outputs
}

/// Whether a file name matches a pattern: `*` matches every name, `*.EXT` every name
/// ending in `.EXT`, and any other pattern only itself.
pub open spec fn pattern_matches(filename: Seq<char>, pattern: Seq<char>) -> bool {
    if pattern == "*"@ {
        true
    } else if "*."@.is_prefix_of(pattern) {
        (seq!['.'] + pattern.skip(2)).is_suffix_of(filename)
    } else {
        filename == pattern
    }
}

/// Whether a file name matches a simple pattern (`*`, `*.EXT`, or an exact name).
pub fn matches_pattern(filename: &str, pattern: &str) -> (b: bool)
    ensures
        b == pattern_matches(filename@, pattern@),
{
    let p = chars_of(pattern);
    let f = chars_of(filename);
    if crate::textops::chars_are(p.as_slice(), "*") {
        return true;
    }
    if starts_with_str(p.as_slice(), "*.") {
        proof {
            reveal_strlit("*.");
        }
        let mut suffix: Vec<char> = Vec::new();
        suffix.push('.');
        let ext = crate::text::chars_range(p.as_slice(), 2, p.len());
        crate::text::push_all(&mut suffix, ext.as_slice());
        assert(suffix@ =~= seq!['.'] + p@.skip(2));
        if suffix.len() > f.len() {
            return false;
        }
        let start = f.len() - suffix.len();
        let b = crate::textops::occurs_at_exec(f.as_slice(), suffix.as_slice(), start);
        proof {
            if b {
                assert(suffix@ =~= f@.subrange(start as int, f@.len() as int));
            } else {
                if suffix@.is_suffix_of(f@) {
                    assert(f@.subrange(start as int, start + suffix@.len()) =~= suffix@);
                }
            }
        }
        return b;
    }
    crate::text::chars_equal(f.as_slice(), p.as_slice())
}

} // verus!
