//! Editing the index file line by line: adding, updating and removing table rows, and
//! adding and removing entries of the state sections.

use crate::design::doc::{all_states_seq, parse_u32, parse_u32_spec};
use crate::design::docmeta::DesignDoc;
use crate::design::index_sync::{
    cleanup_formatting, cleanup_spec, compute_section_changes, compute_table_changes,
    section_changes, table_removals, table_row_changes, IndexChange, IndexChangeV, ParsedIndex,
};
use crate::design::strmap::StrMap;
use crate::pattern::{capture, regex_capture, regex_compiles};
use crate::text::{chars_equal, chars_of, chars_range, push_all, push_str, string_from_chars};
use crate::textops::{
    chars_are, contains, contains_str, join_lines, join_with_newlines, lemma_deep_view_chars, lines_of,
    split_chars, split_lines, split_on, starts_with_str, trim, trimmed,
};
use vstd::prelude::*;

verus! {

/// The start of the table row of document `number`.
pub open spec fn row_prefix(number: Seq<char>) -> Seq<char> {
    "| "@ + number + " |"@
}

/// A table row.
pub open spec fn table_row(
    number: Seq<char>,
    title: Seq<char>,
    state: Seq<char>,
    updated: Seq<char>,
) -> Seq<char> {
    "| "@ + number + " | "@ + title + " | "@ + state + " | "@ + updated + " |"@
}

/// The number a document's identifier reads as, `0` when it reads as none.
pub open spec fn number_or_zero(number: Seq<char>) -> u32 {
    match parse_u32_spec(number) {
        Some(v) => v,
        None => 0,
    }
}

/// The lines of `ls` that do not start with `prefix`, in order.
pub open spec fn lines_without(ls: Seq<Seq<char>>, prefix: Seq<char>) -> Seq<Seq<char>>
    decreases ls.len(),
{
    if ls.len() == 0 {
        Seq::empty()
    } else {
        let r = lines_without(ls.drop_last(), prefix);
        if prefix.is_prefix_of(ls.last()) {
            r
        } else {
            r.push(ls.last())
        }
    }
}

/// Each line of a vector of lines, taken deeply, is its character sequence.
pub proof fn lemma_lines_view(v: Vec<Vec<char>>)
    ensures
        v.deep_view().len() == v@.len(),
        forall|i: int| 0 <= i < v@.len() ==> #[trigger] v.deep_view()[i] == v@[i]@,
{
    assert forall|i: int| 0 <= i < v@.len() implies #[trigger] v.deep_view()[i] == v@[i]@ by {
        lemma_deep_view_chars(v@[i]);
    }
}

fn push_line(out: &mut Vec<Vec<char>>, l: Vec<char>)
    ensures
        final(out).deep_view() == old(out).deep_view().push(l@),
{
    let ghost before = out.deep_view();
    let ghost lv = l@;
    proof {
        lemma_deep_view_chars(l);
    }
    out.push(l);
    assert(out.deep_view() =~= before.push(lv));
}

fn copy_line(v: &Vec<char>) -> (r: Vec<char>)
    ensures
        r@ == v@,
{
    let r = chars_range(v.as_slice(), 0, v.len());
    assert(v@.subrange(0, v@.len() as int) =~= v@);
    r
}

fn lines_of_str(content: &str) -> (r: Vec<Vec<char>>)
    ensures
        r.deep_view() == lines_of(content@),
{
    let cs = chars_of(content);
    split_lines(cs.as_slice())
}

fn joined(out: &Vec<Vec<char>>) -> (r: String)
    ensures
        r@ == join_lines(out.deep_view()),
{
    let v = join_with_newlines(out);
    string_from_chars(v.as_slice())
}

fn row_prefix_chars(number: &str) -> (r: Vec<char>)
    ensures
        r@ == row_prefix(number@),
{
    let mut v: Vec<char> = Vec::new();
    push_str(&mut v, "| ");
    push_str(&mut v, number);
    push_str(&mut v, " |");
    v
}

fn starts_with_chars(s: &Vec<char>, p: &Vec<char>) -> (b: bool)
    ensures
        b == p@.is_prefix_of(s@),
{
    crate::textops::starts_with(s.as_slice(), p.as_slice())
}

/// The index without the table row of document `number`.
pub open spec fn removed_from_table(content: Seq<char>, number: Seq<char>) -> Seq<char> {
    join_lines(lines_without(lines_of(content), row_prefix(number)))
}

/// The index without the table row of document `number`: every line that starts with
/// `"| {number} |"` goes.
pub fn remove_from_table(content: &str, number: &str) -> (r: String)
    ensures
        r@ == removed_from_table(content@, number@),
{
    let ls = lines_of_str(content);
    let prefix = row_prefix_chars(number);
    let ghost lsv = ls.deep_view();
    proof {
        lemma_lines_view(ls);
    }
    let mut out: Vec<Vec<char>> = Vec::new();
    let mut i: usize = 0;
    assert(out.deep_view() =~= lines_without(lsv.take(0), prefix@));
    while i < ls.len()
        invariant
            i <= ls@.len(),
            lsv == ls.deep_view(),
            forall|k: int| 0 <= k < ls@.len() ==> #[trigger] lsv[k] == ls@[k]@,
            out.deep_view() == lines_without(lsv.take(i as int), prefix@),
        decreases ls@.len() - i,
    {
        proof {
            assert(lsv.take(i + 1).drop_last() =~= lsv.take(i as int));
            assert(lsv.take(i + 1).last() == lsv[i as int]);
        }
        if !starts_with_chars(&ls[i], &prefix) {
            push_line(&mut out, copy_line(&ls[i]));
        }
        i = i + 1;
    }
    assert(lsv.take(ls@.len() as int) =~= lsv);
    joined(&out)
}

/// A table row rewritten with one field replaced: the row of `number` with at least five
/// `|`-separated pieces gets its number, title, state and updated date re-spaced, the
/// field named `field` (`title`, `state` or `updated`) taking `new_value`; any other line
/// stays as it is.
pub open spec fn updated_row(
    line: Seq<char>,
    number: Seq<char>,
    field: Seq<char>,
    new_value: Seq<char>,
) -> Seq<char> {
    let parts = split_on(line, '|');
    if row_prefix(number).is_prefix_of(line) && parts.len() >= 5 {
        table_row(
            trim(parts[1]),
            if field == "title"@ {
                new_value
            } else {
                trim(parts[2])
            },
            if field == "state"@ {
                new_value
            } else {
                trim(parts[3])
            },
            if field == "updated"@ {
                new_value
            } else {
                trim(parts[4])
            },
        )
    } else {
        line
    }
}

fn str_is(s: &str, lit: &str) -> (b: bool)
    ensures
        b == (s@ == lit@),
{
    crate::textops::str_equal(s, lit)
}

fn updated_row_exec(line: &Vec<char>, prefix: &Vec<char>, number: &str, field: &str, new_value: &str) -> (r:
    Vec<char>)
    requires
        prefix@ == row_prefix(number@),
    ensures
        r@ == updated_row(line@, number@, field@, new_value@),
{
    let parts = split_chars(line.as_slice(), '|');
    proof {
        lemma_lines_view(parts);
    }
    if starts_with_chars(line, prefix) && parts.len() >= 5 {
        let mut v: Vec<char> = Vec::new();
        push_str(&mut v, "| ");
        let p1 = trimmed(parts[1].as_slice());
        push_all(&mut v, p1.as_slice());
        push_str(&mut v, " | ");
        if str_is(field, "title") {
            push_str(&mut v, new_value);
        } else {
            let p = trimmed(parts[2].as_slice());
            push_all(&mut v, p.as_slice());
        }
        push_str(&mut v, " | ");
        if str_is(field, "state") {
            push_str(&mut v, new_value);
        } else {
            let p = trimmed(parts[3].as_slice());
            push_all(&mut v, p.as_slice());
        }
        push_str(&mut v, " | ");
        if str_is(field, "updated") {
            push_str(&mut v, new_value);
        } else {
            let p = trimmed(parts[4].as_slice());
            push_all(&mut v, p.as_slice());
        }
        push_str(&mut v, " |");
        v
    } else {
        copy_line(line)
    }
}

/// The index with one field of document `number`'s row replaced.
pub open spec fn table_field_updated(
    content: Seq<char>,
    number: Seq<char>,
    field: Seq<char>,
    new_value: Seq<char>,
) -> Seq<char> {
    join_lines(lines_of(content).map_values(|l: Seq<char>| updated_row(l, number, field, new_value)))
}

/// The index with one field of document `number`'s row replaced.
pub fn update_table_field(content: &str, number: &str, field: &str, new_value: &str) -> (r: String)
    ensures
        r@ == table_field_updated(content@, number@, field@, new_value@),
{
    let ls = lines_of_str(content);
    let prefix = row_prefix_chars(number);
    let ghost lsv = ls.deep_view();
    let ghost f = |l: Seq<char>| updated_row(l, number@, field@, new_value@);
    proof {
        lemma_lines_view(ls);
    }
    let mut out: Vec<Vec<char>> = Vec::new();
    let mut i: usize = 0;
    assert(out.deep_view() =~= lsv.take(0).map_values(f));
    while i < ls.len()
        invariant
            i <= ls@.len(),
            lsv == ls.deep_view(),
            prefix@ == row_prefix(number@),
            f == (|l: Seq<char>| updated_row(l, number@, field@, new_value@)),
            forall|k: int| 0 <= k < ls@.len() ==> #[trigger] lsv[k] == ls@[k]@,
            out.deep_view() == lsv.take(i as int).map_values(f),
        decreases ls@.len() - i,
    {
        let row = updated_row_exec(&ls[i], &prefix, number, field, new_value);
        push_line(&mut out, row);
        i = i + 1;
        assert(out.deep_view() =~= lsv.take(i as int).map_values(f));
    }
    assert(lsv.take(ls@.len() as int) =~= lsv);
    joined(&out)
}

/// Progress through the table while adding a row: inside the table, past its separator,
/// and whether the row went in.
pub struct TableScan {
    pub in_table: bool,
    pub passed_separator: bool,
    pub inserted: bool,
}

/// The number in the first cell of a table row, if it reads as one.
pub open spec fn row_number(line: Seq<char>) -> Option<u32> {
    let parts = split_on(line, '|');
    if parts.len() >= 2 {
        parse_u32_spec(trim(parts[1]))
    } else {
        None
    }
}

/// One line of the scan that adds `row` (for document number `n`): the line goes out,
/// preceded by the row at the first data row with a larger number, or followed by it at
/// the table's last line when no such row came.
pub open spec fn add_row_step(
    ls: Seq<Seq<char>>,
    i: int,
    st: TableScan,
    out: Seq<Seq<char>>,
    row: Seq<char>,
    n: u32,
) -> (TableScan, Seq<Seq<char>>) {
    let line = ls[i];
    let in_table = st.in_table || "| Number | Title"@.is_prefix_of(line);
    if in_table && contains(line, "---|"@) {
        (TableScan { in_table, passed_separator: true, inserted: st.inserted }, out.push(line))
    } else {
        let before = in_table && st.passed_separator && "| "@.is_prefix_of(line) && !st.inserted
            && match row_number(line) {
            Some(rn) => n < rn,
            None => false,
        };
        let out1 = if before {
            out.push(row)
        } else {
            out
        };
        let inserted = st.inserted || before;
        let next = if i + 1 < ls.len() {
            ls[i + 1]
        } else {
            Seq::empty()
        };
        if in_table && st.passed_separator && !inserted && !(next.len() > 0 && next[0] == '|') {
            (
                TableScan { in_table: false, passed_separator: true, inserted: true },
                out1.push(row).push(line),
            )
        } else {
            (
                TableScan { in_table, passed_separator: st.passed_separator, inserted },
                out1.push(line),
            )
        }
    }
}

/// The lines the scan that adds a row puts out from line `i` on.
pub open spec fn add_row_from(
    ls: Seq<Seq<char>>,
    i: int,
    st: TableScan,
    out: Seq<Seq<char>>,
    row: Seq<char>,
    n: u32,
) -> Seq<Seq<char>>
    decreases ls.len() - i,
{
    if i < 0 || i >= ls.len() {
        out
    } else {
        let (st2, out2) = add_row_step(ls, i, st, out, row, n);
        add_row_from(ls, i + 1, st2, out2, row, n)
    }
}

fn row_number_exec(line: &Vec<char>) -> (r: Option<u32>)
    ensures
        r == row_number(line@),
{
    let parts = split_chars(line.as_slice(), '|');
    proof {
        lemma_lines_view(parts);
    }
    if parts.len() >= 2 {
        let t = trimmed(parts[1].as_slice());
        let s = string_from_chars(t.as_slice());
        parse_u32(s.as_str())
    } else {
        None
    }
}

fn contains_lit(line: &Vec<char>, lit: &str) -> (b: bool)
    ensures
        b == contains(line@, lit@),
{
    contains_str(line.as_slice(), lit)
}

fn add_row_step_exec(
    ls: &Vec<Vec<char>>,
    i: usize,
    st: TableScan,
    out: &mut Vec<Vec<char>>,
    row: &Vec<char>,
    n: u32,
) -> (r: TableScan)
    requires
        i < ls@.len(),
    ensures
        (r, final(out).deep_view()) == add_row_step(
            ls.deep_view(),
            i as int,
            st,
            old(out).deep_view(),
            row@,
            n,
        ),
{
    proof {
        lemma_lines_view(*ls);
    }
    let line = &ls[i];
    let in_table = st.in_table || starts_with_str(line.as_slice(), "| Number | Title");
    if in_table && contains_lit(line, "---|") {
        push_line(out, copy_line(line));
        return TableScan { in_table, passed_separator: true, inserted: st.inserted };
    }
    let mut before = false;
    if in_table && st.passed_separator && starts_with_str(line.as_slice(), "| ") && !st.inserted {
        match row_number_exec(line) {
            Some(rn) => {
                before = n < rn;
            },
            None => {},
        }
    }
    if before {
        push_line(out, copy_line(row));
    }
    let inserted = st.inserted || before;
    let next_starts_bar = ls.len() - i > 1 && ls[i + 1].len() > 0 && ls[i + 1][0] == '|';
    proof {
        let nx = if i + 1 < ls@.len() {
            ls.deep_view()[i + 1]
        } else {
            Seq::empty()
        };
        assert(next_starts_bar == (nx.len() > 0 && nx[0] == '|'));
    }
    if in_table && st.passed_separator && !inserted && !next_starts_bar {
        push_line(out, copy_line(row));
        push_line(out, copy_line(line));
        TableScan { in_table: false, passed_separator: true, inserted: true }
    } else {
        push_line(out, copy_line(line));
        TableScan { in_table, passed_separator: st.passed_separator, inserted }
    }
}

/// The index with a new table row for document `number`.
pub open spec fn added_to_table(
    content: Seq<char>,
    number: Seq<char>,
    title: Seq<char>,
    state: Seq<char>,
    updated: Seq<char>,
) -> Seq<char> {
    join_lines(
        add_row_from(
            lines_of(content),
            0,
            TableScan { in_table: false, passed_separator: false, inserted: false },
            Seq::empty(),
            table_row(number, title, state, updated),
            number_or_zero(number),
        ),
    )
}

/// The index with a new table row for document `number`, placed before the first data
/// row with a larger number, else after the table's last row.
pub fn add_to_table(content: &str, number: &str, title: &str, state: &str, updated: &str) -> (r:
    String)
    ensures
        r@ == added_to_table(content@, number@, title@, state@, updated@),
{
    let ls = lines_of_str(content);
    let n: u32 = match parse_u32(number) {
        Some(v) => v,
        None => 0,
    };
    let mut row: Vec<char> = Vec::new();
    push_str(&mut row, "| ");
    push_str(&mut row, number);
    push_str(&mut row, " | ");
    push_str(&mut row, title);
    push_str(&mut row, " | ");
    push_str(&mut row, state);
    push_str(&mut row, " | ");
    push_str(&mut row, updated);
    push_str(&mut row, " |");
    let ghost lsv = ls.deep_view();
    let ghost total = add_row_from(
        lsv,
        0,
        TableScan { in_table: false, passed_separator: false, inserted: false },
        Seq::empty(),
        row@,
        n,
    );
    let mut out: Vec<Vec<char>> = Vec::new();
    let mut st = TableScan { in_table: false, passed_separator: false, inserted: false };
    let mut i: usize = 0;
    assert(out.deep_view() =~= Seq::<Seq<char>>::empty());
    while i < ls.len()
        invariant
            i <= ls@.len(),
            lsv == ls.deep_view(),
            total == add_row_from(lsv, i as int, st, out.deep_view(), row@, n),
        decreases ls@.len() - i,
    {
        st = add_row_step_exec(&ls, i, st, &mut out, &row, n);
        i = i + 1;
    }
    joined(&out)
}


/// The heading of a state's section.
pub open spec fn section_heading(state: Seq<char>) -> Seq<char> {
    "### "@ + state
}

/// The end of the link of an entry that points at `path`.
pub open spec fn link_end(path: Seq<char>) -> Seq<char> {
    "]("@ + path + ")"@
}

/// Whether a line starts a heading that ends a section.
pub open spec fn ends_section(line: Seq<char>) -> bool {
    "### "@.is_prefix_of(line) || "## "@.is_prefix_of(line)
}

/// Whether a line is a section entry.
pub open spec fn is_entry(line: Seq<char>) -> bool {
    "- ["@.is_prefix_of(line)
}

/// Whether, from line `i` on, the section under `heading` holds an entry that does not
/// point at `path` before its first heading (the first such scan that stops decides).
pub open spec fn has_other_entries(
    ls: Seq<Seq<char>>,
    i: int,
    in_section: bool,
    heading: Seq<char>,
    path: Seq<char>,
) -> bool
    decreases ls.len() - i,
{
    if i < 0 || i >= ls.len() {
        false
    } else if ls[i] == heading {
        has_other_entries(ls, i + 1, true, heading, path)
    } else if in_section && ends_section(ls[i]) {
        false
    } else if in_section && is_entry(ls[i]) && !contains(ls[i], link_end(path)) {
        true
    } else {
        has_other_entries(ls, i + 1, in_section, heading, path)
    }
}

/// Progress through the index while removing a section entry.
pub struct RemovalScan {
    pub in_section: bool,
    pub dropping_section: bool,
}

/// One line of the removal of `path` from the section under `heading`. When the section
/// has no other entries, its heading, the blank line before it, and its following blank
/// and entry lines go; a line in the section that points at `path` goes.
pub open spec fn removal_step(
    line: Seq<char>,
    st: RemovalScan,
    out: Seq<Seq<char>>,
    heading: Seq<char>,
    path: Seq<char>,
    others: bool,
) -> (RemovalScan, Seq<Seq<char>>) {
    if line == heading && !others {
        (
            RemovalScan { in_section: true, dropping_section: true },
            if out.len() > 0 && out.last().len() == 0 {
                out.drop_last()
            } else {
                out
            },
        )
    } else {
        let in0 = st.in_section || line == heading;
        let leaving = in0 && ends_section(line);
        let in1 = in0 && !leaving;
        let drop1 = st.dropping_section && !leaving;
        if in1 && contains(line, link_end(path)) {
            (RemovalScan { in_section: in1, dropping_section: drop1 }, out)
        } else if drop1 && (line.len() == 0 || is_entry(line)) {
            (RemovalScan { in_section: in1, dropping_section: drop1 }, out)
        } else {
            (RemovalScan { in_section: in1, dropping_section: false }, out.push(line))
        }
    }
}

/// The lines the removal puts out from line `i` on.
pub open spec fn removal_from(
    ls: Seq<Seq<char>>,
    i: int,
    st: RemovalScan,
    out: Seq<Seq<char>>,
    heading: Seq<char>,
    path: Seq<char>,
    others: bool,
) -> Seq<Seq<char>>
    decreases ls.len() - i,
{
    if i < 0 || i >= ls.len() {
        out
    } else {
        let (st2, out2) = removal_step(ls[i], st, out, heading, path, others);
        removal_from(ls, i + 1, st2, out2, heading, path, others)
    }
}

fn ends_section_exec(line: &Vec<char>) -> (b: bool)
    ensures
        b == ends_section(line@),
{
    starts_with_str(line.as_slice(), "### ") || starts_with_str(line.as_slice(), "## ")
}

fn is_entry_exec(line: &Vec<char>) -> (b: bool)
    ensures
        b == is_entry(line@),
{
    starts_with_str(line.as_slice(), "- [")
}

fn has_other_entries_exec(ls: &Vec<Vec<char>>, heading: &Vec<char>, end: &Vec<char>, Ghost(path): Ghost<Seq<char>>) -> (b: bool)
    requires
        end@ == link_end(path),
    ensures
        b == has_other_entries(ls.deep_view(), 0, false, heading@, path),
{
    proof {
        lemma_lines_view(*ls);
    }
    let ghost lsv = ls.deep_view();
    let mut in_section = false;
    let mut i: usize = 0;
    while i < ls.len()
        invariant
            i <= ls@.len(),
            lsv == ls.deep_view(),
            forall|k: int| 0 <= k < ls@.len() ==> #[trigger] lsv[k] == ls@[k]@,
            end@ == link_end(path),
            has_other_entries(lsv, 0, false, heading@, path) == has_other_entries(
                lsv,
                i as int,
                in_section,
                heading@,
                path,
            ),
        decreases ls@.len() - i,
    {
        let line = &ls[i];
        if chars_equal(line.as_slice(), heading.as_slice()) {
            in_section = true;
        } else if in_section && ends_section_exec(line) {
            return false;
        } else if in_section && is_entry_exec(line) && !crate::textops::contains_exec(
            line.as_slice(),
            end.as_slice(),
        ) {
            return true;
        }
        i = i + 1;
    }
    false
}

fn removal_step_exec(
    line: &Vec<char>,
    st: RemovalScan,
    out: &mut Vec<Vec<char>>,
    heading: &Vec<char>,
    end: &Vec<char>,
    others: bool,
    Ghost(path): Ghost<Seq<char>>,
) -> (r: RemovalScan)
    requires
        end@ == link_end(path),
    ensures
        (r, final(out).deep_view()) == removal_step(
            line@,
            st,
            old(out).deep_view(),
            heading@,
            path,
            others,
        ),
{
    proof {
        lemma_lines_view(*out);
    }
    let is_heading = chars_equal(line.as_slice(), heading.as_slice());
    if is_heading && !others {
        let ghost before = out.deep_view();
        if out.len() > 0 && out[out.len() - 1].len() == 0 {
            out.pop();
            assert(out.deep_view() =~= before.drop_last());
        }
        return RemovalScan { in_section: true, dropping_section: true };
    }
    let in0 = st.in_section || is_heading;
    let leaving = in0 && ends_section_exec(line);
    let in1 = in0 && !leaving;
    let drop1 = st.dropping_section && !leaving;
    if in1 && crate::textops::contains_exec(line.as_slice(), end.as_slice()) {
        RemovalScan { in_section: in1, dropping_section: drop1 }
    } else if drop1 && (line.len() == 0 || is_entry_exec(line)) {
        RemovalScan { in_section: in1, dropping_section: drop1 }
    } else {
        push_line(out, copy_line(line));
        RemovalScan { in_section: in1, dropping_section: false }
    }
}

fn heading_chars(state: &str) -> (r: Vec<char>)
    ensures
        r@ == section_heading(state@),
{
    let mut v: Vec<char> = Vec::new();
    push_str(&mut v, "### ");
    push_str(&mut v, state);
    v
}

fn link_end_chars(path: &str) -> (r: Vec<char>)
    ensures
        r@ == link_end(path@),
{
    let mut v: Vec<char> = Vec::new();
    push_str(&mut v, "](");
    push_str(&mut v, path);
    push_str(&mut v, ")");
    v
}

/// The index with the entry pointing at `path` removed from the section of `state`.
pub open spec fn removed_from_section(content: Seq<char>, state: Seq<char>, path: Seq<char>) -> Seq<
    char,
> {
    let ls = lines_of(content);
    let h = section_heading(state);
    join_lines(
        removal_from(
            ls,
            0,
            RemovalScan { in_section: false, dropping_section: false },
            Seq::empty(),
            h,
            path,
            has_other_entries(ls, 0, false, h, path),
        ),
    )
}

/// The index with the entry pointing at `path` removed from the section of `state`. When
/// the section holds no other entry, the whole section goes: its heading, the blank line
/// before it, and the blank and entry lines after it.
pub fn remove_from_section(content: &str, state: &str, path: &str) -> (r: String)
    ensures
        r@ == removed_from_section(content@, state@, path@),
{
    let ls = lines_of_str(content);
    let heading = heading_chars(state);
    let end = link_end_chars(path);
    let others = has_other_entries_exec(&ls, &heading, &end, Ghost(path@));
    proof {
        lemma_lines_view(ls);
    }
    let ghost lsv = ls.deep_view();
    let ghost total = removal_from(
        lsv,
        0,
        RemovalScan { in_section: false, dropping_section: false },
        Seq::empty(),
        heading@,
        path@,
        others,
    );
    let mut out: Vec<Vec<char>> = Vec::new();
    let mut st = RemovalScan { in_section: false, dropping_section: false };
    let mut i: usize = 0;
    assert(out.deep_view() =~= Seq::<Seq<char>>::empty());
    while i < ls.len()
        invariant
            i <= ls@.len(),
            lsv == ls.deep_view(),
            forall|k: int| 0 <= k < ls@.len() ==> #[trigger] lsv[k] == ls@[k]@,
            end@ == link_end(path@),
            total == removal_from(lsv, i as int, st, out.deep_view(), heading@, path@, others),
        decreases ls@.len() - i,
    {
        st = removal_step_exec(&ls[i], st, &mut out, &heading, &end, others, Ghost(path@));
        i = i + 1;
    }
    joined(&out)
}


/// The pattern that reads the number of a section entry.
pub open spec fn entry_number_pattern() -> Seq<char> {
    "^\\- \\[(\\d+)"@
}

/// The number a section entry starts with: the digits the entry pattern captures, read
/// as a `u32`.
pub open spec fn entry_number(line: Seq<char>) -> Option<u32> {
    if regex_compiles(entry_number_pattern()) {
        match regex_capture(entry_number_pattern(), line, 1) {
            Some(d) => parse_u32_spec(d),
            None => None,
        }
    } else {
        None
    }
}

/// A section entry.
pub open spec fn section_entry(number: Seq<char>, title: Seq<char>, path: Seq<char>) -> Seq<char> {
    "- ["@ + number + " - "@ + title + "]("@ + path + ")"@
}

/// Progress through the index while adding a section entry.
pub struct SectionScan {
    pub in_section: bool,
    pub section_exists: bool,
    pub inserted: bool,
}

/// One line of the addition of `entry` (for document number `n`) to the section under
/// `heading`: the entry goes before the first entry with a larger number, else before
/// the heading that ends the section, else after the section's last non-entry line.
pub open spec fn addition_step(
    ls: Seq<Seq<char>>,
    i: int,
    st: SectionScan,
    out: Seq<Seq<char>>,
    heading: Seq<char>,
    entry: Seq<char>,
    n: u32,
) -> (SectionScan, Seq<Seq<char>>) {
    let line = ls[i];
    if line == heading {
        (SectionScan { in_section: true, section_exists: true, inserted: st.inserted }, out.push(line))
    } else {
        let leaving = st.in_section && ends_section(line);
        let out1 = if leaving && !st.inserted {
            out.push(entry)
        } else {
            out
        };
        let ins1 = st.inserted || leaving;
        let in1 = st.in_section && !leaving;
        let before = in1 && is_entry(line) && !ins1 && match entry_number(line) {
            Some(en) => n < en,
            None => false,
        };
        let out2 = if before {
            out1.push(entry)
        } else {
            out1
        };
        let ins2 = ins1 || before;
        let out3 = out2.push(line);
        let at_end = i + 1 >= ls.len() || ls[i + 1].len() == 0 || (ls[i + 1].len() > 0 && ls[
            i + 1
        ][0] == '#');
        if in1 && !ins2 && at_end && !is_entry(line) && line.len() > 0 {
            (
                SectionScan { in_section: in1, section_exists: st.section_exists, inserted: true },
                out3.push(entry),
            )
        } else {
            (SectionScan { in_section: in1, section_exists: st.section_exists, inserted: ins2 }, out3)
        }
    }
}

/// The scan's state and lines after line `i` on.
pub open spec fn addition_from(
    ls: Seq<Seq<char>>,
    i: int,
    st: SectionScan,
    out: Seq<Seq<char>>,
    heading: Seq<char>,
    entry: Seq<char>,
    n: u32,
) -> (SectionScan, Seq<Seq<char>>)
    decreases ls.len() - i,
{
    if i < 0 || i >= ls.len() {
        (st, out)
    } else {
        let (st2, out2) = addition_step(ls, i, st, out, heading, entry, n);
        addition_from(ls, i + 1, st2, out2, heading, entry, n)
    }
}

/// `rs` with a new section (a blank line, the heading, a blank line and the entry) after
/// the first `## Documents by State` line.
pub open spec fn with_new_section(
    rs: Seq<Seq<char>>,
    heading: Seq<char>,
    entry: Seq<char>,
) -> Seq<Seq<char>>
    decreases rs.len(),
{
    if rs.len() == 0 {
        Seq::empty()
    } else {
        let prev = with_new_section(rs.drop_last(), heading, entry);
        if rs.last() == "## Documents by State"@ && !rs.drop_last().contains(
            "## Documents by State"@,
        ) {
            prev.push(rs.last()).push(Seq::empty()).push(heading).push(Seq::empty()).push(entry)
        } else {
            prev.push(rs.last())
        }
    }
}

/// The lines after adding an entry: the scan's lines, with a new section when the index
/// had none for the state, or with the entry at the end when the section ran to the end.
pub open spec fn addition_result(
    ls: Seq<Seq<char>>,
    heading: Seq<char>,
    entry: Seq<char>,
    n: u32,
) -> Seq<Seq<char>> {
    let (st, out) = addition_from(
        ls,
        0,
        SectionScan { in_section: false, section_exists: false, inserted: false },
        Seq::empty(),
        heading,
        entry,
        n,
    );
    if !st.section_exists {
        with_new_section(out, heading, entry)
    } else if st.in_section && !st.inserted {
        out.push(entry)
    } else {
        out
    }
}

fn entry_number_exec(line: &Vec<char>) -> (r: Option<u32>)
    ensures
        r == entry_number(line@),
{
    let text = string_from_chars(line.as_slice());
    match capture("^\\- \\[(\\d+)", text.as_str(), 1) {
        Some(Some(d)) => parse_u32(d.as_str()),
        _ => None,
    }
}

fn addition_step_exec(
    ls: &Vec<Vec<char>>,
    i: usize,
    st: SectionScan,
    out: &mut Vec<Vec<char>>,
    heading: &Vec<char>,
    entry: &Vec<char>,
    n: u32,
) -> (r: SectionScan)
    requires
        i < ls@.len(),
    ensures
        (r, final(out).deep_view()) == addition_step(
            ls.deep_view(),
            i as int,
            st,
            old(out).deep_view(),
            heading@,
            entry@,
            n,
        ),
{
    proof {
        lemma_lines_view(*ls);
        reveal_strlit("^\\- \\[(\\d+)");
    }
    let line = &ls[i];
    if chars_equal(line.as_slice(), heading.as_slice()) {
        push_line(out, copy_line(line));
        return SectionScan { in_section: true, section_exists: true, inserted: st.inserted };
    }
    let leaving = st.in_section && ends_section_exec(line);
    if leaving && !st.inserted {
        push_line(out, copy_line(entry));
    }
    let ins1 = st.inserted || leaving;
    let in1 = st.in_section && !leaving;
    let mut before = false;
    if in1 && is_entry_exec(line) && !ins1 {
        match entry_number_exec(line) {
            Some(en) => {
                before = n < en;
            },
            None => {},
        }
    }
    if before {
        push_line(out, copy_line(entry));
    }
    let ins2 = ins1 || before;
    push_line(out, copy_line(line));
    let at_end = ls.len() - i <= 1 || ls[i + 1].len() == 0 || ls[i + 1][0] == '#';
    if in1 && !ins2 && at_end && !is_entry_exec(line) && line.len() > 0 {
        push_line(out, copy_line(entry));
        SectionScan { in_section: in1, section_exists: st.section_exists, inserted: true }
    } else {
        SectionScan { in_section: in1, section_exists: st.section_exists, inserted: ins2 }
    }
}

fn add_new_section(rs: &Vec<Vec<char>>, heading: &Vec<char>, entry: &Vec<char>) -> (r: Vec<
    Vec<char>,
>)
    ensures
        r.deep_view() == with_new_section(rs.deep_view(), heading@, entry@),
{
    proof {
        lemma_lines_view(*rs);
    }
    let ghost rsv = rs.deep_view();
    let mut out: Vec<Vec<char>> = Vec::new();
    let mut added = false;
    let mut i: usize = 0;
    assert(out.deep_view() =~= with_new_section(rsv.take(0), heading@, entry@));
    while i < rs.len()
        invariant
            i <= rs@.len(),
            rsv == rs.deep_view(),
            forall|k: int| 0 <= k < rs@.len() ==> #[trigger] rsv[k] == rs@[k]@,
            added == rsv.take(i as int).contains("## Documents by State"@),
            out.deep_view() == with_new_section(rsv.take(i as int), heading@, entry@),
        decreases rs@.len() - i,
    {
        let line = &rs[i];
        proof {
            assert(rsv.take(i + 1).drop_last() =~= rsv.take(i as int));
            assert(rsv.take(i + 1).last() == rsv[i as int]);
        }
        push_line(&mut out, copy_line(line));
        let is_marker = chars_are(line.as_slice(), "## Documents by State");
        if is_marker && !added {
            push_line(&mut out, Vec::new());
            push_line(&mut out, copy_line(heading));
            push_line(&mut out, Vec::new());
            push_line(&mut out, copy_line(entry));
        }
        proof {
            let t = rsv.take(i + 1);
            assert(t.contains("## Documents by State"@) <==> (rsv.take(i as int).contains(
                "## Documents by State"@,
            ) || rsv[i as int] == "## Documents by State"@)) by {
                if t.contains("## Documents by State"@) {
                    let k = choose|k: int| 0 <= k < t.len() && t[k] == "## Documents by State"@;
                    if k < i {
                        assert(rsv.take(i as int)[k] == t[k]);
                    }
                }
                if rsv.take(i as int).contains("## Documents by State"@) {
                    let k = choose|k: int|
                        0 <= k < i && rsv.take(i as int)[k] == "## Documents by State"@;
                    assert(t[k] == rsv.take(i as int)[k]);
                }
                if rsv[i as int] == "## Documents by State"@ {
                    assert(t[i as int] == rsv[i as int]);
                }
            }
        }
        added = added || is_marker;
        i = i + 1;
    }
    assert(rsv.take(rs@.len() as int) =~= rsv);
    out
}

/// The index with an entry for document `number` in the section of `state`.
pub open spec fn added_to_section(
    content: Seq<char>,
    state: Seq<char>,
    number: Seq<char>,
    title: Seq<char>,
    path: Seq<char>,
) -> Seq<char> {
    join_lines(
        addition_result(
            lines_of(content),
            section_heading(state),
            section_entry(number, title, path),
            number_or_zero(number),
        ),
    )
}

/// The index with an entry for document `number` in the section of `state`: before the
/// first entry with a larger number, else where the section ends; a new section after
/// `## Documents by State` when the index has none for the state.
pub fn add_to_section(content: &str, state: &str, number: &str, title: &str, path: &str) -> (r:
    String)
    ensures
        r@ == added_to_section(content@, state@, number@, title@, path@),
{
    let ls = lines_of_str(content);
    let heading = heading_chars(state);
    let n: u32 = match parse_u32(number) {
        Some(v) => v,
        None => 0,
    };
    let mut entry: Vec<char> = Vec::new();
    push_str(&mut entry, "- [");
    push_str(&mut entry, number);
    push_str(&mut entry, " - ");
    push_str(&mut entry, title);
    push_str(&mut entry, "](");
    push_str(&mut entry, path);
    push_str(&mut entry, ")");
    let ghost lsv = ls.deep_view();
    let ghost start = SectionScan { in_section: false, section_exists: false, inserted: false };
    let ghost total = addition_from(lsv, 0, start, Seq::empty(), heading@, entry@, n);
    let mut out: Vec<Vec<char>> = Vec::new();
    let mut st = SectionScan { in_section: false, section_exists: false, inserted: false };
    let mut i: usize = 0;
    assert(out.deep_view() =~= Seq::<Seq<char>>::empty());
    while i < ls.len()
        invariant
            i <= ls@.len(),
            lsv == ls.deep_view(),
            total == addition_from(lsv, i as int, st, out.deep_view(), heading@, entry@, n),
        decreases ls@.len() - i,
    {
        st = addition_step_exec(&ls, i, st, &mut out, &heading, &entry, n);
        i = i + 1;
    }
    if !st.section_exists {
        let with_section = add_new_section(&out, &heading, &entry);
        return joined(&with_section);
    }
    if st.in_section && !st.inserted {
        push_line(&mut out, copy_line(&entry));
    }
    joined(&out)
}


/// The index with one change applied.
pub open spec fn change_applied(content: Seq<char>, c: IndexChangeV) -> Seq<char> {
    match c {
        IndexChangeV::TableAdd { number, title, state, updated } => added_to_table(
            content,
            number,
            title,
            state,
            updated,
        ),
        IndexChangeV::TableUpdate { number, field, new, .. } => table_field_updated(
            content,
            number,
            field,
            new,
        ),
        IndexChangeV::TableRemove { number } => removed_from_table(content, number),
        IndexChangeV::SectionAdd { state, number, title, path } => added_to_section(
            content,
            state,
            number,
            title,
            path,
        ),
        IndexChangeV::SectionRemove { state, path } => removed_from_section(content, state, path),
    }
}

/// Applies one change to the index text. The document map and the documents directory
/// take no part.
pub fn apply_change(
    content: &str,
    change: &IndexChange,
    _doc_map: &StrMap<DesignDoc>,
    _docs_dir: &str,
) -> (r: String)
    ensures
        r@ == change_applied(content@, change.deep_view()),
{
    match change {
        IndexChange::TableAdd { number, title, state, updated } => add_to_table(
            content,
            number.as_str(),
            title.as_str(),
            state.as_str(),
            updated.as_str(),
        ),
        IndexChange::TableUpdate { number, field, new, .. } => update_table_field(
            content,
            number.as_str(),
            field.as_str(),
            new.as_str(),
        ),
        IndexChange::TableRemove { number } => remove_from_table(content, number.as_str()),
        IndexChange::SectionAdd { state, number, title, path } => add_to_section(
            content,
            state.as_str(),
            number.as_str(),
            title.as_str(),
            path.as_str(),
        ),
        IndexChange::SectionRemove { state, path } => remove_from_section(
            content,
            state.as_str(),
            path.as_str(),
        ),
    }
}

/// The changes applied in order to the index text.
pub open spec fn changes_applied(content: Seq<char>, cs: Seq<IndexChangeV>) -> Seq<char>
    decreases cs.len(),
{
    if cs.len() == 0 {
        content
    } else {
        change_applied(changes_applied(content, cs.drop_last()), cs.last())
    }
}

/// What synchronizing the index does: the changes found, the text after applying them and
/// tidying the layout, and whether the tidying changed anything.
pub struct IndexUpdate {
    pub changes: Vec<IndexChange>,
    pub content: String,
    pub formatting_changed: bool,
}

/// Brings the index text in line with the documents: the table changes, then the section
/// changes, applied in order, then the layout tidied.
pub fn plan_index_update(content: &str, parsed: &ParsedIndex, doc_map: &StrMap<DesignDoc>, docs_dir: &str) -> (r:
    IndexUpdate)
    requires
        parsed.table_entries.wf(),
        parsed.state_sections.wf(),
        doc_map.wf(),
    ensures
        r.changes.deep_view() == table_row_changes(
            doc_map.key_seq(),
            doc_map.map(),
            parsed.table_entries.map(),
        ) + table_removals(parsed.table_entries.key_seq(), doc_map.map()) + section_changes(
            all_states_seq(),
            doc_map.key_seq(),
            doc_map.map(),
            parsed.state_sections.map(),
            docs_dir@,
        ),
        r.content@ == cleanup_spec(changes_applied(content@, r.changes.deep_view())),
        r.formatting_changed == (r.content@ != changes_applied(content@, r.changes.deep_view())),
{
    let mut changes = compute_table_changes(parsed, doc_map);
    let mut section = compute_section_changes(parsed, doc_map, docs_dir);
    let ghost t = changes.deep_view();
    let ghost sc = section.deep_view();
    changes.append(&mut section);
    assert(changes.deep_view() =~= t + sc);
    let ghost cs = changes.deep_view();
    let mut updated = content.to_string();
    let mut i: usize = 0;
    assert(cs.take(0) =~= Seq::<IndexChangeV>::empty());
    while i < changes.len()
        invariant
            i <= changes@.len(),
            cs == changes.deep_view(),
            updated@ == changes_applied(content@, cs.take(i as int)),
        decreases changes@.len() - i,
    {
        proof {
            assert(cs.take(i + 1).drop_last() =~= cs.take(i as int));
            assert(cs.take(i + 1).last() == changes@[i as int].deep_view());
        }
        updated = apply_change(updated.as_str(), &changes[i], doc_map, docs_dir);
        i = i + 1;
    }
    assert(cs.take(changes@.len() as int) =~= cs);
    let cleaned = cleanup_formatting(updated.as_str());
    let formatting_changed = !crate::textops::str_equal(cleaned.as_str(), updated.as_str());
    IndexUpdate { changes, content: cleaned, formatting_changed }
}

} // verus!
