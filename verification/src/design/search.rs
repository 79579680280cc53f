//! Reading the output of a text search over the documents.

use crate::design::doc::{parse_u32, parse_u32_spec, state_directory, state_key, state_of_key, DocState};
use crate::pattern::{capture, regex_capture, regex_compiles};
use crate::text::{chars_of, push_str, string_from_chars};
use crate::textops::{lines_of, split_lines};
use vstd::prelude::*;

verus! {

/// The pattern of a document number in a path: four digits before a hyphen.
pub open spec fn path_number_pattern() -> Seq<char> {
    "(\\d{4})-"@
}

/// The number a path carries: the first four digits before a hyphen, read as a `u32`.
pub open spec fn number_in_path(path: Seq<char>) -> Option<u32> {
    if regex_compiles(path_number_pattern()) {
        match regex_capture(path_number_pattern(), path, 1) {
            Some(d) => parse_u32_spec(d),
            None => None,
        }
    } else {
        None
    }
}

/// The document number a path carries, if any.
pub fn extract_number_from_path(path: &str) -> (r: Option<u32>)
    ensures
        r == number_in_path(path@),
{
    proof {
        reveal_strlit("(\\d{4})-");
    }
    match capture("(\\d{4})-", path, 1) {
        Some(Some(d)) => parse_u32(d.as_str()),
        _ => None,
    }
}

/// The pattern of a search hit: a path, a line number and the line, separated by colons.
pub open spec fn hit_pattern() -> Seq<char> {
    "^([^:]+):(\\d+):(.*)$"@
}

/// One line of search output: where it matched and what the line says.
pub struct SearchHit {
    pub path: String,
    pub line_number: String,
    pub content: String,
}

/// Group `g` of a search hit line, when the hit pattern compiles and matches.
pub open spec fn hit_group(line: Seq<char>, g: nat) -> Option<Seq<char>> {
    if regex_compiles(hit_pattern()) {
        regex_capture(hit_pattern(), line, g)
    } else {
        None
    }
}

/// A search hit read from a line of search output: its path, line number and content,
/// when the line has that form.
pub fn parse_search_hit(line: &str) -> (r: Option<SearchHit>)
    ensures
        match r {
            Some(h) => hit_group(line@, 1) == Some(h.path@) && hit_group(line@, 2) == Some(
                h.line_number@,
            ) && hit_group(line@, 3) == Some(h.content@),
            None => hit_group(line@, 1) is None || hit_group(line@, 2) is None || hit_group(
                line@,
                3,
            ) is None,
        },
{
    proof {
        reveal_strlit("^([^:]+):(\\d+):(.*)$");
    }
    let p = "^([^:]+):(\\d+):(.*)$";
    let path = match capture(p, line, 1) {
        Some(Some(s)) => s,
        _ => {
            return None;
        },
    };
    let number = match capture(p, line, 2) {
        Some(Some(s)) => s,
        _ => {
            return None;
        },
    };
    let content = match capture(p, line, 3) {
        Some(Some(s)) => s,
        _ => {
            return None;
        },
    };
    Some(SearchHit { path, line_number: number, content })
}

/// Whether line `n` of a document falls in its frontmatter, taken as the first 14 lines.
pub open spec fn metadata_line(n: Seq<char>) -> bool {
    match parse_u32_spec(n) {
        Some(k) => k < 15,
        None => false,
    }
}

/// Whether a hit on line `line_number` falls in the frontmatter, taken as the first 14
/// lines (a line number that does not read counts as outside).
pub fn is_metadata_line(line_number: &str) -> (b: bool)
    ensures
        b == metadata_line(line_number@),
{
    match parse_u32(line_number) {
        Some(n) => n < 15,
        None => false,
    }
}

/// The three parts of a search hit line, when it has that form.
pub open spec fn hit_parts(line: Seq<char>) -> Option<(Seq<char>, Seq<char>, Seq<char>)> {
    match (hit_group(line, 1), hit_group(line, 2), hit_group(line, 3)) {
        (Some(p), Some(n), Some(c)) => Some((p, n, c)),
        _ => None,
    }
}

/// One entry of a search report: the heading of a document whose hits follow, or one hit.
pub enum SearchEntry {
    File { path: String, number: Option<u32> },
    Match { line_number: String, content: String },
}

/// A search report entry as plain values.
pub enum SearchEntryV {
    File(Seq<char>, Option<u32>),
    Match(Seq<char>, Seq<char>),
}

/// The plain value of a report entry.
pub open spec fn entry_view(e: SearchEntry) -> SearchEntryV {
    match e {
        SearchEntry::File { path, number } => SearchEntryV::File(path@, number),
        SearchEntry::Match { line_number, content } => SearchEntryV::Match(
            line_number@,
            content@,
        ),
    }
}

/// The report of the search output lines `lines`, after hits in file `current`: lines that
/// are no hit are passed over, and so are hits outside the frontmatter when `metadata_only`;
/// each hit is preceded by a heading for its file when the file differs from the last one.
pub open spec fn report_from(
    lines: Seq<Seq<char>>,
    metadata_only: bool,
    current: Seq<char>,
) -> Seq<SearchEntryV>
    decreases lines.len(),
{
    if lines.len() == 0 {
        Seq::empty()
    } else {
        let rest = lines.drop_first();
        match hit_parts(lines[0]) {
            None => report_from(rest, metadata_only, current),
            Some((p, n, c)) => if metadata_only && !metadata_line(n) {
                report_from(rest, metadata_only, current)
            } else if p == current {
                seq![SearchEntryV::Match(n, c)] + report_from(rest, metadata_only, p)
            } else {
                seq![SearchEntryV::File(p, number_in_path(p)), SearchEntryV::Match(n, c)]
                    + report_from(rest, metadata_only, p)
            },
        }
    }
}

/// The report of a search's output: per document, a heading with the number its path
/// carries, then its hits in order; with `metadata_only`, only hits in the frontmatter.
pub fn search_report(output: &str, metadata_only: bool) -> (r: Vec<SearchEntry>)
    ensures
        r@.map_values(|e: SearchEntry| entry_view(e)) == report_from(
            lines_of(output@),
            metadata_only,
            Seq::empty(),
        ),
{
    let cs = chars_of(output);
    let lines = split_lines(cs.as_slice());
    let ghost ls = lines.deep_view();
    let mut out: Vec<SearchEntry> = Vec::new();
    let mut current = String::new();
    let mut i: usize = 0;
    assert(ls.subrange(0, ls.len() as int) =~= ls);
    while i < lines.len()
        invariant
            ls == lines.deep_view(),
            i <= ls.len(),
            report_from(ls, metadata_only, Seq::empty()) == out@.map_values(
                |e: SearchEntry| entry_view(e),
            ) + report_from(ls.subrange(i as int, ls.len() as int), metadata_only, current@),
        decreases ls.len() - i,
    {
        let ghost before = out@.map_values(|e: SearchEntry| entry_view(e));
        let ghost tail = ls.subrange(i as int, ls.len() as int);
        assert(tail.drop_first() =~= ls.subrange(i + 1, ls.len() as int));
        assert(tail[0] == lines[i as int]@);
        let ghost rest = ls.subrange(i + 1, ls.len() as int);
        let ghost cur_old = current@;
        let line = string_from_chars(lines[i].as_slice());
        match parse_search_hit(line.as_str()) {
            None => {},
            Some(hit) => {
                if metadata_only && !is_metadata_line(hit.line_number.as_str()) {
                } else {
                    let ghost m = SearchEntryV::Match(hit.line_number@, hit.content@);
                    if !(hit.path == current) {
                        let number = extract_number_from_path(hit.path.as_str());
                        out.push(SearchEntry::File { path: hit.path.clone(), number });
                    }
                    let ghost p = hit.path@;
                    current = hit.path;
                    out.push(
                        SearchEntry::Match { line_number: hit.line_number, content: hit.content },
                    );
                    proof {
                        let h = if p == cur_old {
                            seq![m]
                        } else {
                            seq![SearchEntryV::File(p, number_in_path(p)), m]
                        };
                        assert(out@.map_values(|e: SearchEntry| entry_view(e)) =~= before + h);
                        assert(report_from(tail, metadata_only, cur_old) == h + report_from(
                            rest,
                            metadata_only,
                            p,
                        ));
                        assert(before + (h + report_from(rest, metadata_only, p)) =~= (before + h)
                            + report_from(rest, metadata_only, p));
                    }
                }
            },
        }
        i = i + 1;
    }
    out
}

/// The arguments of the `git grep` call that searches the documents under `docs_dir` for
/// `query`: line numbers, no color, case folded unless `case_sensitive`, and the markdown
/// files of one state's directory when `state_filter` names a state.
pub open spec fn grep_args(
    docs_dir: Seq<char>,
    query: Seq<char>,
    dir: Option<Seq<char>>,
    case_sensitive: bool,
) -> Seq<Seq<char>> {
    let head = seq!["grep"@, "-n"@, "--color=never"@];
    let fold = if case_sensitive {
        Seq::empty()
    } else {
        seq!["-i"@]
    };
    let spec_path = match dir {
        Some(d) => docs_dir + "/"@ + d + "/*.md"@,
        None => docs_dir + "/**/*.md"@,
    };
    head + fold + seq![query, "--"@, spec_path]
}

/// The arguments for `git grep` over the documents, or the message for a state filter that
/// names no state.
pub fn grep_arguments(
    docs_dir: &str,
    query: &str,
    state_filter: Option<&str>,
    case_sensitive: bool,
) -> (r: Result<Vec<String>, String>)
    ensures
        match state_filter {
            Some(s) => match state_of_key(state_key(s@)) {
                Some(st) => r matches Ok(v) && v@.map_values(|a: String| a@) == grep_args(
                    docs_dir@,
                    query@,
                    Some(state_directory(st)),
                    case_sensitive,
                ),
                None => r matches Err(m) && m@ == "Invalid state: "@ + s@,
            },
            None => r matches Ok(v) && v@.map_values(|a: String| a@) == grep_args(
                docs_dir@,
                query@,
                None,
                case_sensitive,
            ),
        },
{
    proof {
        reveal_strlit("grep");
        reveal_strlit("-n");
        reveal_strlit("--color=never");
        reveal_strlit("-i");
        reveal_strlit("--");
        reveal_strlit("/");
        reveal_strlit("/*.md");
        reveal_strlit("/**/*.md");
        reveal_strlit("Invalid state: ");
    }
    let mut path: Vec<char> = Vec::new();
    push_str(&mut path, docs_dir);
    match state_filter {
        Some(s) => match DocState::from_str_flexible(s) {
            Some(st) => {
                push_str(&mut path, "/");
                push_str(&mut path, st.directory());
                push_str(&mut path, "/*.md");
            },
            None => {
                let mut m: Vec<char> = Vec::new();
                push_str(&mut m, "Invalid state: ");
                push_str(&mut m, s);
                return Err(string_from_chars(m.as_slice()));
            },
        },
        None => {
            push_str(&mut path, "/**/*.md");
        },
    }
    let mut args: Vec<String> = Vec::new();
    args.push("grep".to_owned());
    args.push("-n".to_owned());
    args.push("--color=never".to_owned());
    if !case_sensitive {
        args.push("-i".to_owned());
    }
    args.push(query.to_owned());
    args.push("--".to_owned());
    args.push(string_from_chars(path.as_slice()));
    let ghost dir = match state_filter {
        Some(s) => match state_of_key(state_key(s@)) {
            Some(st) => Some(state_directory(st)),
            None => None,
        },
        None => None,
    };
    assert(args@.map_values(|a: String| a@) =~= grep_args(docs_dir@, query@, dir, case_sensitive));
    Ok(args)
}

/// The options of a search: a state to search in, whether only frontmatter hits count,
/// whether case matters, and lines of context and regex mode, which the search takes
/// as they come.
pub struct SearchOptions {
    pub state: Option<String>,
    pub metadata_only: bool,
    pub case_sensitive: bool,
    pub context_lines: usize,
    pub regex: bool,
}

impl Default for SearchOptions {
    /// No state filter, all hits, case folded, no context, plain text.
    fn default() -> (o: Self)
        ensures
            o.state is None,
            !o.metadata_only,
            !o.case_sensitive,
            o.context_lines == 0,
            !o.regex,
    {
        SearchOptions {
            state: None,
            metadata_only: false,
            case_sensitive: false,
            context_lines: 0,
            regex: false,
        }
    }
}

} // verus!
