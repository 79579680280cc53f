//! Reading the index file (its table and its state sections), describing the changes
//! that bring it up to date, and tidying its layout.

use crate::design::doc::{state_name, DocState};
use crate::design::docmeta::{DesignDoc, DesignDocV, DocMetadataV};
use crate::design::strmap::StrMap;
use crate::paths::{path_strip_prefix, strip_prefix_of};
use crate::pattern::{capture, regex_capture, regex_compiles};
use crate::text::{chars_of, push_all, push_str, string_from_chars, zero_padded, zero_padded_chars};
use crate::textops::{
    contains, contains_str, join_lines, join_with_newlines, lemma_deep_view_chars, lines_after, lines_of, occurs_at, strip_cr,
    split_chars, split_lines, split_on, starts_with_str, str_equal, trim, trimmed,
};
use vstd::prelude::*;

verus! {

/// A row of the index table.
#[derive(Debug, Clone)]
pub struct IndexEntry {
    pub number: String,
    pub title: String,
    pub state: String,
    pub updated: String,
}

pub struct IndexEntryV {
    pub number: Seq<char>,
    pub title: Seq<char>,
    pub state: Seq<char>,
    pub updated: Seq<char>,
}

impl View for IndexEntry {
    type V = IndexEntryV;

    open spec fn view(&self) -> IndexEntryV {
        IndexEntryV {
            number: self.number@,
            title: self.title@,
            state: self.state@,
            updated: self.updated@,
        }
    }
}

impl DeepView for IndexEntry {
    type V = IndexEntryV;

    open spec fn deep_view(&self) -> IndexEntryV {
        self@
    }
}

/// The entry a table row describes: a row of at least four cells whose number cell is
/// neither empty nor the word `Number`.
pub open spec fn row_entry(line: Seq<char>) -> Option<IndexEntryV> {
    let parts = split_on(line, '|');
    if parts.len() >= 5 {
        let number = trim(parts[1]);
        if number.len() > 0 && number != "Number"@ {
            Some(
                IndexEntryV {
                    number,
                    title: trim(parts[2]),
                    state: trim(parts[3]),
                    updated: trim(parts[4]),
                },
            )
        } else {
            None
        }
    } else {
        None
    }
}

/// The table entries read from line `i` on: the table starts at its header row, rows count
/// once the separator row has passed, and the first line that is not a row ends it.
pub open spec fn table_from(
    ls: Seq<Seq<char>>,
    i: int,
    in_table: bool,
    passed: bool,
    acc: Map<Seq<char>, IndexEntryV>,
) -> Map<Seq<char>, IndexEntryV>
    decreases ls.len() - i,
{
    if i < 0 || i >= ls.len() {
        acc
    } else {
        let line = ls[i];
        if "| Number | Title"@.is_prefix_of(line) {
            table_from(ls, i + 1, true, passed, acc)
        } else if in_table && contains(line, "---|"@) {
            table_from(ls, i + 1, in_table, true, acc)
        } else if in_table && !"|"@.is_prefix_of(line) {
            acc
        } else if in_table && passed {
            match row_entry(line) {
                Some(e) => table_from(ls, i + 1, in_table, passed, acc.insert(e.number, e)),
                None => table_from(ls, i + 1, in_table, passed, acc),
            }
        } else {
            table_from(ls, i + 1, in_table, passed, acc)
        }
    }
}

/// The entries of the "All Documents by Number" table, keyed by number.
pub open spec fn table_spec(content: Seq<char>) -> Map<Seq<char>, IndexEntryV> {
    table_from(lines_of(content), 0, false, false, Map::empty())
}

/// Every entry of `m` sits under its own number, which is neither empty nor the word
/// `Number`.
pub open spec fn entries_keyed(m: Map<Seq<char>, IndexEntryV>) -> bool {
    forall|k: Seq<char>| #[trigger] m.dom().contains(k) ==> m[k].number == k && k.len() > 0 && k != "Number"@
}

proof fn lemma_table_from(
    ls: Seq<Seq<char>>,
    i: int,
    in_table: bool,
    passed: bool,
    acc: Map<Seq<char>, IndexEntryV>,
)
    requires
        entries_keyed(acc),
    ensures
        entries_keyed(table_from(ls, i, in_table, passed, acc)),
        !passed && (forall|j: int| 0 <= j < ls.len() ==> !contains(#[trigger] ls[j], "---|"@))
            ==> table_from(ls, i, in_table, passed, acc) == acc,
    decreases ls.len() - i,
{
    if i < 0 || i >= ls.len() {
    } else {
        let line = ls[i];
        if "| Number | Title"@.is_prefix_of(line) {
            lemma_table_from(ls, i + 1, true, passed, acc);
        } else if in_table && contains(line, "---|"@) {
            lemma_table_from(ls, i + 1, in_table, true, acc);
        } else if in_table && !"|"@.is_prefix_of(line) {
        } else if in_table && passed {
            match row_entry(line) {
                Some(e) => {
                    let acc2 = acc.insert(e.number, e);
                    assert(entries_keyed(acc2));
                    lemma_table_from(ls, i + 1, in_table, passed, acc2);
                },
                None => {
                    lemma_table_from(ls, i + 1, in_table, passed, acc);
                },
            }
        } else {
            lemma_table_from(ls, i + 1, in_table, passed, acc);
        }
    }
}

/// Each entry of the index table sits under its own number, which is neither empty nor
/// the word `Number`; and with no separator row (`---|`) the table has no entries.
pub proof fn lemma_table_entries_keyed(content: Seq<char>)
    ensures
        entries_keyed(table_spec(content)),
        (forall|j: int| 0 <= j < lines_of(content).len() ==> !contains(#[trigger] lines_of(content)[j], "---|"@))
            ==> table_spec(content) == Map::<Seq<char>, IndexEntryV>::empty(),
{
    lemma_table_from(lines_of(content), 0, false, false, Map::empty());
}

/// The entry a row describes, if any.
fn parse_row(line: &[char]) -> (r: Option<IndexEntry>)
    ensures
        match r {
            Some(e) => row_entry(line@) == Some(e@),
            None => row_entry(line@) is None,
        },
{
    let parts = split_chars(line, '|');
    if parts.len() >= 5 {
        proof {
            assert(parts.deep_view()[1] == parts@[1]@) by {
                lemma_deep_view_chars(parts@[1]);
            }
            assert(parts.deep_view()[2] == parts@[2]@) by {
                lemma_deep_view_chars(parts@[2]);
            }
            assert(parts.deep_view()[3] == parts@[3]@) by {
                lemma_deep_view_chars(parts@[3]);
            }
            assert(parts.deep_view()[4] == parts@[4]@) by {
                lemma_deep_view_chars(parts@[4]);
            }
        }
        let number = trimmed(parts[1].as_slice());
        if number.len() > 0 && !crate::textops::chars_are(number.as_slice(), "Number") {
            let title = trimmed(parts[2].as_slice());
            let state = trimmed(parts[3].as_slice());
            let updated = trimmed(parts[4].as_slice());
            return Some(
                IndexEntry {
                    number: string_from_chars(number.as_slice()),
                    title: string_from_chars(title.as_slice()),
                    state: string_from_chars(state.as_slice()),
                    updated: string_from_chars(updated.as_slice()),
                },
            );
        }
    }
    None
}

/// Reads the "All Documents by Number" table.
pub fn parse_table(content: &str) -> (r: StrMap<IndexEntry>)
    ensures
        r.wf(),
        r.map() == table_spec(content@),
{
    let cs = chars_of(content);
    let lines = split_lines(cs.as_slice());
    let ghost ls = lines.deep_view();
    let mut entries: StrMap<IndexEntry> = StrMap::new();
    let mut in_table = false;
    let mut passed = false;
    let mut i: usize = 0;
    while i < lines.len()
        invariant
            i <= lines@.len(),
            ls == lines.deep_view(),
            ls == lines_of(content@),
            entries.wf(),
            table_spec(content@) == table_from(ls, i as int, in_table, passed, entries.map()),
        decreases lines@.len() - i,
    {
        proof {
            assert(ls[i as int] == lines@[i as int]@);
            lemma_deep_view_chars(lines@[i as int]);
        }
        let line = lines[i].as_slice();
        if starts_with_str(line, "| Number | Title") {
            in_table = true;
        } else if in_table && contains_str(line, "---|") {
            passed = true;
        } else if in_table && !starts_with_str(line, "|") {
            return entries;
        } else if in_table && passed {
            match parse_row(line) {
                Some(e) => {
                    let key = e.number.clone();
                    entries.insert(key, e);
                },
                None => {},
            }
        }
        i = i + 1;
    }
    entries
}

/// The pattern of the target of a markdown link.
pub open spec fn link_pattern() -> Seq<char> {
    "\\]\\(([^)]+)\\)"@
}

/// The link target on a line, when the link pattern compiles and matches.
pub open spec fn link_target(line: Seq<char>) -> Option<Seq<char>> {
    if regex_compiles(link_pattern()) {
        regex_capture(link_pattern(), line, 1)
    } else {
        None
    }
}

/// The state sections read from line `i` on: `### NAME` opens the section of that name
/// (emptying it), a `## ` heading closes the open section, and inside a section each
/// `- [` line adds its link target.
pub open spec fn sections_from(
    ls: Seq<Seq<char>>,
    i: int,
    cur: Option<Seq<char>>,
    acc: Map<Seq<char>, Seq<Seq<char>>>,
) -> Map<Seq<char>, Seq<Seq<char>>>
    decreases ls.len() - i,
{
    if i < 0 || i >= ls.len() {
        acc
    } else {
        let line = ls[i];
        if "### "@.is_prefix_of(line) {
            let name = trim(line.skip(4));
            sections_from(ls, i + 1, Some(name), acc.insert(name, Seq::empty()))
        } else if "## "@.is_prefix_of(line) && cur is Some {
            sections_from(ls, i + 1, None, acc)
        } else {
            match cur {
                Some(st) => if "- ["@.is_prefix_of(line) {
                    match link_target(line) {
                        Some(p) => sections_from(ls, i + 1, cur, acc.insert(st, acc[st].push(p))),
                        None => sections_from(ls, i + 1, cur, acc),
                    }
                } else {
                    sections_from(ls, i + 1, cur, acc)
                },
                None => sections_from(ls, i + 1, cur, acc),
            }
        }
    }
}

/// The document paths listed under each state section.
pub open spec fn sections_spec(content: Seq<char>) -> Map<Seq<char>, Seq<Seq<char>>> {
    sections_from(lines_of(content), 0, None, Map::empty())
}

/// The section a `### NAME` line opens: NAME, trimmed.
pub open spec fn header_name(line: Seq<char>) -> Option<Seq<char>> {
    if "### "@.is_prefix_of(line) {
        Some(trim(line.skip(4)))
    } else {
        None
    }
}

/// The index of the last line before line `n` that opens section `s`, or -1.
pub open spec fn last_header_before(ls: Seq<Seq<char>>, s: Seq<char>, n: int) -> int
    decreases n,
{
    if n <= 0 {
        -1
    } else if header_name(ls[n - 1]) == Some(s) {
        n - 1
    } else {
        last_header_before(ls, s, n - 1)
    }
}

/// The link targets of the `- [` lines from line `j` on, in order, up to the first line
/// that opens or closes a section (a `### ` or a `## ` line).
pub open spec fn links_until_close(ls: Seq<Seq<char>>, j: int) -> Seq<Seq<char>>
    decreases ls.len() - j,
{
    if j < 0 || j >= ls.len() || "### "@.is_prefix_of(ls[j]) || "## "@.is_prefix_of(ls[j]) {
        Seq::empty()
    } else {
        let rest = links_until_close(ls, j + 1);
        if "- ["@.is_prefix_of(ls[j]) {
            match link_target(ls[j]) {
                Some(p) => seq![p] + rest,
                None => rest,
            }
        } else {
            rest
        }
    }
}

proof fn lemma_last_header(ls: Seq<Seq<char>>, s: Seq<char>, n: int)
    requires
        0 <= n <= ls.len(),
    ensures
        -1 <= last_header_before(ls, s, n) < n,
        last_header_before(ls, s, n) >= 0 ==> header_name(ls[last_header_before(ls, s, n)]) == Some(s),
        forall|j: int| last_header_before(ls, s, n) < j < n ==> header_name(#[trigger] ls[j]) != Some(s),
    decreases n,
{
    if n > 0 && header_name(ls[n - 1]) != Some(s) {
        lemma_last_header(ls, s, n - 1);
    }
}

proof fn lemma_sections_from(
    ls: Seq<Seq<char>>,
    i: int,
    cur: Option<Seq<char>>,
    acc: Map<Seq<char>, Seq<Seq<char>>>,
)
    requires
        0 <= i <= ls.len(),
        cur is Some ==> acc.dom().contains(cur->0),
    ensures
        forall|s: Seq<char>|
            (#[trigger] sections_from(ls, i, cur, acc).dom().contains(s)) <==> (acc.dom().contains(s)
                || last_header_before(ls, s, ls.len() as int) >= i),
        forall|s: Seq<char>|
            #[trigger] sections_from(ls, i, cur, acc).dom().contains(s) ==> sections_from(ls, i, cur, acc)[s]
                == if last_header_before(ls, s, ls.len() as int) >= i {
                links_until_close(ls, last_header_before(ls, s, ls.len() as int) + 1)
            } else if cur == Some(s) {
                acc[s] + links_until_close(ls, i)
            } else {
                acc[s]
            },
    decreases ls.len() - i,
{
    let n = ls.len() as int;
    let r = sections_from(ls, i, cur, acc);
    if i == n {
        assert forall|s: Seq<char>| #[trigger] r.dom().contains(s) implies r[s] == if last_header_before(
            ls,
            s,
            n,
        ) >= i {
            links_until_close(ls, last_header_before(ls, s, n) + 1)
        } else if cur == Some(s) {
            acc[s] + links_until_close(ls, i)
        } else {
            acc[s]
        } by {
            lemma_last_header(ls, s, n);
            assert(acc[s] + Seq::<Seq<char>>::empty() =~= acc[s]);
        }
        assert forall|s: Seq<char>| (#[trigger] r.dom().contains(s)) <==> (acc.dom().contains(s)
            || last_header_before(ls, s, n) >= i) by {
            lemma_last_header(ls, s, n);
        }
    } else {
        let line = ls[i];
        if "### "@.is_prefix_of(line) {
            let nm = trim(line.skip(4));
            let acc2 = acc.insert(nm, Seq::empty());
            lemma_sections_from(ls, i + 1, Some(nm), acc2);
            assert(r == sections_from(ls, i + 1, Some(nm), acc2));
            assert forall|s: Seq<char>| (#[trigger] r.dom().contains(s)) <==> (acc.dom().contains(s)
                || last_header_before(ls, s, n) >= i) by {
                lemma_last_header(ls, s, n);
                if s == nm {
                    assert(header_name(ls[i]) == Some(s));
                }
            }
            assert forall|s: Seq<char>| #[trigger] r.dom().contains(s) implies r[s] == if last_header_before(
                ls,
                s,
                n,
            ) >= i {
                links_until_close(ls, last_header_before(ls, s, n) + 1)
            } else if cur == Some(s) {
                acc[s] + links_until_close(ls, i)
            } else {
                acc[s]
            } by {
                lemma_last_header(ls, s, n);
                let lh = last_header_before(ls, s, n);
                if s == nm {
                    assert(header_name(ls[i]) == Some(s));
                    assert(lh >= i);
                    if lh < i + 1 {
                        assert(lh == i);
                        assert(Seq::<Seq<char>>::empty() + links_until_close(ls, i + 1) =~= links_until_close(
                            ls,
                            i + 1,
                        ));
                    }
                } else {
                    assert(header_name(ls[i]) != Some(s));
                    if lh >= i {
                        assert(lh != i);
                    }
                    assert(links_until_close(ls, i) =~= Seq::<Seq<char>>::empty());
                    assert(acc[s] + Seq::<Seq<char>>::empty() =~= acc[s]);
                }
            }
        } else {
            assert(header_name(line) is None);
            let closes = "## "@.is_prefix_of(line) && cur is Some;
            let acc2 = if closes {
                acc
            } else {
                match cur {
                    Some(st) => if "- ["@.is_prefix_of(line) {
                        match link_target(line) {
                            Some(p) => acc.insert(st, acc[st].push(p)),
                            None => acc,
                        }
                    } else {
                        acc
                    },
                    None => acc,
                }
            };
            let cur2 = if closes {
                None
            } else {
                cur
            };
            lemma_sections_from(ls, i + 1, cur2, acc2);
            assert(r == sections_from(ls, i + 1, cur2, acc2));
            assert(acc2.dom() =~= acc.dom());
            assert forall|s: Seq<char>| (#[trigger] r.dom().contains(s)) <==> (acc.dom().contains(s)
                || last_header_before(ls, s, n) >= i) by {
                lemma_last_header(ls, s, n);
                if last_header_before(ls, s, n) >= i {
                    assert(last_header_before(ls, s, n) != i);
                }
            }
            assert forall|s: Seq<char>| #[trigger] r.dom().contains(s) implies r[s] == if last_header_before(
                ls,
                s,
                n,
            ) >= i {
                links_until_close(ls, last_header_before(ls, s, n) + 1)
            } else if cur == Some(s) {
                acc[s] + links_until_close(ls, i)
            } else {
                acc[s]
            } by {
                lemma_last_header(ls, s, n);
                let lh = last_header_before(ls, s, n);
                if lh >= i {
                    assert(lh != i);
                } else if cur == Some(s) {
                    if closes {
                        assert(links_until_close(ls, i) =~= Seq::<Seq<char>>::empty());
                        assert(acc[s] + Seq::<Seq<char>>::empty() =~= acc[s]);
                    } else if "- ["@.is_prefix_of(line) && link_target(line) is Some {
                        let p = link_target(line)->0;
                        assert(links_until_close(ls, i) == seq![p] + links_until_close(ls, i + 1));
                        assert(acc[s].push(p) + links_until_close(ls, i + 1) =~= acc[s] + (seq![p]
                            + links_until_close(ls, i + 1)));
                    } else {
                        assert(links_until_close(ls, i) == links_until_close(ls, i + 1));
                    }
                }
            }
        }
    }
}

/// Each state section of the index lists, in document order, the link targets of the
/// `- [` lines under the last `### NAME` line for it, up to the next `### ` or `## ` line;
/// and there is a section for exactly the names that `### ` lines open.
pub proof fn lemma_sections_listed(content: Seq<char>)
    ensures
        forall|s: Seq<char>|
            #[trigger] sections_spec(content).dom().contains(s) <==> last_header_before(
                lines_of(content),
                s,
                lines_of(content).len() as int,
            ) >= 0,
        forall|s: Seq<char>|
            #[trigger] sections_spec(content).dom().contains(s) ==> sections_spec(content)[s]
                == links_until_close(
                lines_of(content),
                last_header_before(lines_of(content), s, lines_of(content).len() as int) + 1,
            ),
{
    lemma_sections_from(lines_of(content), 0, None, Map::empty());
}

/// The sections as the map plus the open section, whose list is kept aside.
spec fn with_open(
    m: Map<Seq<char>, Seq<Seq<char>>>,
    cur: Option<String>,
    list: Seq<Seq<char>>,
) -> Map<Seq<char>, Seq<Seq<char>>> {
    match cur {
        Some(s) => m.insert(s@, list),
        None => m,
    }
}

spec fn cur_view(cur: Option<String>) -> Option<Seq<char>> {
    match cur {
        Some(s) => Some(s@),
        None => None,
    }
}

/// Reads the state sections: for each `### STATE` heading, the link targets listed under it.
pub fn parse_state_sections(content: &str) -> (r: StrMap<Vec<String>>)
    ensures
        r.wf(),
        r.map() == sections_spec(content@),
{
    let cs = chars_of(content);
    let lines = split_lines(cs.as_slice());
    let ghost ls = lines.deep_view();
    let mut sections: StrMap<Vec<String>> = StrMap::new();
    let mut cur: Option<String> = None;
    let mut list: Vec<String> = Vec::new();
    let mut i: usize = 0;
    proof {
        assert(list.deep_view() =~= Seq::<Seq<char>>::empty());
    }
    while i < lines.len()
        invariant
            i <= lines@.len(),
            ls == lines.deep_view(),
            ls == lines_of(content@),
            sections.wf(),
            sections_spec(content@) == sections_from(
                ls,
                i as int,
                cur_view(cur),
                with_open(sections.map(), cur, list.deep_view()),
            ),
        decreases lines@.len() - i,
    {
        proof {
            assert(ls[i as int] == lines@[i as int]@);
            lemma_deep_view_chars(lines@[i as int]);
        }
        let line = lines[i].as_slice();
        if starts_with_str(line, "### ") {
            proof {
                reveal_strlit("### ");
            }
            let rest = crate::text::chars_range(line, 4, line.len());
            let name = trimmed(rest.as_slice());
            let ghost before = with_open(sections.map(), cur, list.deep_view());
            match cur {
                Some(s) => {
                    sections.insert(s, list);
                },
                None => {},
            }
            cur = Some(string_from_chars(name.as_slice()));
            list = Vec::new();
            proof {
                assert(list.deep_view() =~= Seq::<Seq<char>>::empty());
                assert(line@.skip(4) =~= rest@);
                assert(with_open(sections.map(), cur, list.deep_view()) =~= before.insert(
                    name@,
                    Seq::empty(),
                ));
            }
        } else if starts_with_str(line, "## ") && cur.is_some() {
            let ghost before = with_open(sections.map(), cur, list.deep_view());
            match cur {
                Some(s) => {
                    sections.insert(s, list);
                },
                None => {},
            }
            cur = None;
            list = Vec::new();
            assert(with_open(sections.map(), cur, list.deep_view()) == before);
        } else if cur.is_some() && starts_with_str(line, "- [") {
            let text = string_from_chars(line);
            match capture("\\]\\(([^)]+)\\)", text.as_str(), 1) {
                Some(Some(path)) => {
                    let ghost m = sections.map();
                    let ghost old_list = list.deep_view();
                    let ghost p = path@;
                    list.push(path);
                    proof {
                        assert(list.deep_view() =~= old_list.push(p));
                        let st = cur->Some_0@;
                        assert(m.insert(st, old_list)[st] == old_list);
                        assert(m.insert(st, old_list.push(p)) =~= m.insert(st, old_list).insert(
                            st,
                            old_list.push(p),
                        ));
                    }
                },
                _ => {},
            }
        }
        i = i + 1;
    }
    match cur {
        Some(s) => {
            sections.insert(s, list);
        },
        None => {},
    }
    sections
}

/// A parsed index file: its table entries and its state sections.
pub struct ParsedIndex {
    pub table_entries: StrMap<IndexEntry>,
    pub state_sections: StrMap<Vec<String>>,
}

impl ParsedIndex {
    /// Parses an index file; this always succeeds. Each table entry sits under its own
    /// number, which is neither empty nor the word `Number`, and without a separator row
    /// (`---|`) the table has no entries. Each state section lists, in document order, the
    /// link targets under the last `### NAME` line for it.
    pub fn parse(content: &str) -> (r: Result<ParsedIndex, String>)
        ensures
            r matches Ok(p) && p.table_entries.wf() && p.state_sections.wf()
                && p.table_entries.map() == table_spec(content@) && p.state_sections.map()
                == sections_spec(content@),
            r matches Ok(p) && entries_keyed(p.table_entries.map()),
            (forall|j: int|
                0 <= j < lines_of(content@).len() ==> !contains(#[trigger] lines_of(content@)[j], "---|"@))
                ==> (r matches Ok(p) && p.table_entries.map() == Map::<Seq<char>, IndexEntryV>::empty()),
            r is Ok ==> forall|s: Seq<char>|
                #[trigger] r->Ok_0.state_sections.map().dom().contains(s) <==> last_header_before(
                    lines_of(content@),
                    s,
                    lines_of(content@).len() as int,
                ) >= 0,
            r is Ok ==> forall|s: Seq<char>|
                #[trigger] r->Ok_0.state_sections.map().dom().contains(s) ==> r->Ok_0.state_sections.map()[s]
                    == links_until_close(
                    lines_of(content@),
                    last_header_before(lines_of(content@), s, lines_of(content@).len() as int) + 1,
                ),
    {
        proof {
            lemma_table_entries_keyed(content@);
            lemma_sections_listed(content@);
        }
        let table_entries = parse_table(content);
        let state_sections = parse_state_sections(content);
        Ok(ParsedIndex { table_entries, state_sections })
    }
}

/// A change that brings the index up to date.
#[derive(Debug, Clone)]
pub enum IndexChange {
    TableAdd { number: String, title: String, state: String, updated: String },
    TableUpdate { number: String, field: String, old: String, new: String },
    TableRemove { number: String },
    SectionAdd { state: String, number: String, title: String, path: String },
    SectionRemove { state: String, path: String },
}

/// The one-line description of a change.
pub open spec fn change_description(c: IndexChange) -> Seq<char> {
    match c {
        IndexChange::TableAdd { number, title, .. } => "Add to table: "@ + number@ + " - "@
            + title@,
        IndexChange::TableUpdate { number, field, old, new } => "Update "@ + number@ + ": "@
            + field@ + " ("@ + old@ + " → "@ + new@ + ")"@,
        IndexChange::TableRemove { number } => "Remove from table: "@ + number@,
        IndexChange::SectionAdd { state, number, title, .. } => "Add to "@ + state@ + ": "@
            + number@ + " - "@ + title@,
        IndexChange::SectionRemove { state, path } => "Remove from "@ + state@ + ": "@ + path@,
    }
}

impl IndexChange {
    /// The one-line description of this change.
    pub fn description(&self) -> (r: String)
        ensures
            r@ == change_description(*self),
    {
        let mut v: Vec<char> = Vec::new();
        match self {
            IndexChange::TableAdd { number, title, .. } => {
                push_str(&mut v, "Add to table: ");
                push_str(&mut v, number.as_str());
                push_str(&mut v, " - ");
                push_str(&mut v, title.as_str());
            },
            IndexChange::TableUpdate { number, field, old, new } => {
                push_str(&mut v, "Update ");
                push_str(&mut v, number.as_str());
                push_str(&mut v, ": ");
                push_str(&mut v, field.as_str());
                push_str(&mut v, " (");
                push_str(&mut v, old.as_str());
                push_str(&mut v, " → ");
                push_str(&mut v, new.as_str());
                push_str(&mut v, ")");
            },
            IndexChange::TableRemove { number } => {
                push_str(&mut v, "Remove from table: ");
                push_str(&mut v, number.as_str());
            },
            IndexChange::SectionAdd { state, number, title, .. } => {
                push_str(&mut v, "Add to ");
                push_str(&mut v, state.as_str());
                push_str(&mut v, ": ");
                push_str(&mut v, number.as_str());
                push_str(&mut v, " - ");
                push_str(&mut v, title.as_str());
            },
            IndexChange::SectionRemove { state, path } => {
                push_str(&mut v, "Remove from ");
                push_str(&mut v, state.as_str());
                push_str(&mut v, ": ");
                push_str(&mut v, path.as_str());
            },
        }
        string_from_chars(v.as_slice())
    }
}

/// A change to the index as plain values.
pub enum IndexChangeV {
    TableAdd { number: Seq<char>, title: Seq<char>, state: Seq<char>, updated: Seq<char> },
    TableUpdate { number: Seq<char>, field: Seq<char>, old: Seq<char>, new: Seq<char> },
    TableRemove { number: Seq<char> },
    SectionAdd { state: Seq<char>, number: Seq<char>, title: Seq<char>, path: Seq<char> },
    SectionRemove { state: Seq<char>, path: Seq<char> },
}

impl DeepView for IndexChange {
    type V = IndexChangeV;

    open spec fn deep_view(&self) -> IndexChangeV {
        match self {
            IndexChange::TableAdd { number, title, state, updated } => IndexChangeV::TableAdd {
                number: number@,
                title: title@,
                state: state@,
                updated: updated@,
            },
            IndexChange::TableUpdate { number, field, old, new } => IndexChangeV::TableUpdate {
                number: number@,
                field: field@,
                old: old@,
                new: new@,
            },
            IndexChange::TableRemove { number } => IndexChangeV::TableRemove { number: number@ },
            IndexChange::SectionAdd { state, number, title, path } => IndexChangeV::SectionAdd {
                state: state@,
                number: number@,
                title: title@,
                path: path@,
            },
            IndexChange::SectionRemove { state, path } => IndexChangeV::SectionRemove {
                state: state@,
                path: path@,
            },
        }
    }
}

/// An update of one table field, when the index's value differs from the document's.
pub open spec fn field_update(
    number: Seq<char>,
    field: Seq<char>,
    old: Seq<char>,
    new: Seq<char>,
) -> Seq<IndexChangeV> {
    if old != new {
        seq![IndexChangeV::TableUpdate { number, field, old, new }]
    } else {
        Seq::empty()
    }
}

/// What brings a document's table row up to date: its state, updated date and title
/// where they differ, or the whole row when the table lacks it.
pub open spec fn row_changes(
    number: Seq<char>,
    d: DocMetadataV,
    table: Map<Seq<char>, IndexEntryV>,
) -> Seq<IndexChangeV> {
    if table.dom().contains(number) {
        let e = table[number];
        field_update(number, "state"@, e.state, state_name(d.state))
            + field_update(number, "updated"@, e.updated, d.updated.text)
            + field_update(number, "title"@, e.title, d.title)
    } else {
        seq![
            IndexChangeV::TableAdd {
                number,
                title: d.title,
                state: state_name(d.state),
                updated: d.updated.text,
            },
        ]
    }
}

/// The row changes of the documents under keys `ks`, in that order.
pub open spec fn table_row_changes(
    ks: Seq<Seq<char>>,
    docs: Map<Seq<char>, DesignDocV>,
    table: Map<Seq<char>, IndexEntryV>,
) -> Seq<IndexChangeV>
    decreases ks.len(),
{
    if ks.len() == 0 {
        Seq::empty()
    } else {
        table_row_changes(ks.drop_last(), docs, table) + row_changes(
            ks.last(),
            docs[ks.last()].metadata,
            table,
        )
    }
}

/// Removal of each table row under keys `ks` whose document is gone, in that order.
pub open spec fn table_removals(ks: Seq<Seq<char>>, docs: Map<Seq<char>, DesignDocV>) -> Seq<
    IndexChangeV,
>
    decreases ks.len(),
{
    if ks.len() == 0 {
        Seq::empty()
    } else {
        table_removals(ks.drop_last(), docs) + if docs.dom().contains(ks.last()) {
            Seq::empty()
        } else {
            seq![IndexChangeV::TableRemove { number: ks.last() }]
        }
    }
}

/// Whether `cs` adds a table row numbered `n`.
pub open spec fn adds_row(cs: Seq<IndexChangeV>, n: Seq<char>) -> bool {
    exists|i: int| 0 <= i < cs.len() && (#[trigger] cs[i]) is TableAdd && cs[i]->TableAdd_number == n
}

/// Whether `cs` removes the table row numbered `n`.
pub open spec fn removes_row(cs: Seq<IndexChangeV>, n: Seq<char>) -> bool {
    exists|i: int| 0 <= i < cs.len() && #[trigger] cs[i] == IndexChangeV::TableRemove { number: n }
}

proof fn lemma_adds_concat(a: Seq<IndexChangeV>, b: Seq<IndexChangeV>, n: Seq<char>)
    ensures
        adds_row(a + b, n) <==> adds_row(a, n) || adds_row(b, n),
        removes_row(a + b, n) <==> removes_row(a, n) || removes_row(b, n),
{
    let c = a + b;
    if adds_row(c, n) {
        let i = choose|i: int| 0 <= i < c.len() && (#[trigger] c[i]) is TableAdd && c[i]->TableAdd_number == n;
        if i >= a.len() {
            assert(b[i - a.len()] == c[i]);
        }
    }
    if adds_row(b, n) {
        let i = choose|i: int| 0 <= i < b.len() && (#[trigger] b[i]) is TableAdd && b[i]->TableAdd_number == n;
        assert(c[a.len() + i] == b[i]);
    }
    if adds_row(a, n) {
        let i = choose|i: int| 0 <= i < a.len() && (#[trigger] a[i]) is TableAdd && a[i]->TableAdd_number == n;
        assert(c[i] == a[i]);
    }
    if removes_row(c, n) {
        let i = choose|i: int| 0 <= i < c.len() && #[trigger] c[i] == IndexChangeV::TableRemove { number: n };
        if i >= a.len() {
            assert(b[i - a.len()] == c[i]);
        }
    }
    if removes_row(b, n) {
        let i = choose|i: int| 0 <= i < b.len() && #[trigger] b[i] == IndexChangeV::TableRemove { number: n };
        assert(c[a.len() + i] == b[i]);
    }
    if removes_row(a, n) {
        let i = choose|i: int| 0 <= i < a.len() && #[trigger] a[i] == IndexChangeV::TableRemove { number: n };
        assert(c[i] == a[i]);
    }
}

/// The row changes add a row for exactly the documents, among `ks`, that the table lacks,
/// and remove none.
pub proof fn lemma_row_changes_add_missing(
    ks: Seq<Seq<char>>,
    docs: Map<Seq<char>, DesignDocV>,
    table: Map<Seq<char>, IndexEntryV>,
    n: Seq<char>,
)
    ensures
        adds_row(table_row_changes(ks, docs, table), n) <==> (ks.contains(n) && !table.dom().contains(n)),
        !removes_row(table_row_changes(ks, docs, table), n),
    decreases ks.len(),
{
    if ks.len() > 0 {
        let k = ks.last();
        lemma_row_changes_add_missing(ks.drop_last(), docs, table, n);
        let rc = row_changes(k, docs[k].metadata, table);
        lemma_adds_concat(table_row_changes(ks.drop_last(), docs, table), rc, n);
        if table.dom().contains(k) {
            let e = table[k];
            let d = docs[k].metadata;
            let a = field_update(k, "state"@, e.state, state_name(d.state));
            let b = field_update(k, "updated"@, e.updated, d.updated.text);
            let c = field_update(k, "title"@, e.title, d.title);
            lemma_adds_concat(a, b, n);
            lemma_adds_concat(a + b, c, n);
            assert(!adds_row(a, n) && !removes_row(a, n));
            assert(!adds_row(b, n) && !removes_row(b, n));
            assert(!adds_row(c, n) && !removes_row(c, n));
        } else {
            if k == n {
                assert(rc[0] is TableAdd && rc[0]->TableAdd_number == n);
            }
            assert(!removes_row(rc, n));
        }
        if ks.contains(n) && n != k {
            let j = choose|j: int| 0 <= j < ks.len() && ks[j] == n;
            assert(ks.drop_last()[j] == n);
        }
        if ks.drop_last().contains(n) {
            let j = choose|j: int| 0 <= j < ks.drop_last().len() && ks.drop_last()[j] == n;
            assert(ks[j] == n);
        }
        if n == k {
            assert(ks[ks.len() - 1] == n);
        }
    }
}

/// The removals remove the row of exactly the numbers, among `ks`, that no document has,
/// and add none.
pub proof fn lemma_removals_drop_gone(ks: Seq<Seq<char>>, docs: Map<Seq<char>, DesignDocV>, n: Seq<char>)
    ensures
        removes_row(table_removals(ks, docs), n) <==> (ks.contains(n) && !docs.dom().contains(n)),
        !adds_row(table_removals(ks, docs), n),
    decreases ks.len(),
{
    if ks.len() > 0 {
        let k = ks.last();
        lemma_removals_drop_gone(ks.drop_last(), docs, n);
        let tail = if docs.dom().contains(k) {
            Seq::<IndexChangeV>::empty()
        } else {
            seq![IndexChangeV::TableRemove { number: k }]
        };
        lemma_adds_concat(table_removals(ks.drop_last(), docs), tail, n);
        if !docs.dom().contains(k) && k == n {
            assert(tail[0] == IndexChangeV::TableRemove { number: n });
        }
        if ks.contains(n) && n != k {
            let j = choose|j: int| 0 <= j < ks.len() && ks[j] == n;
            assert(ks.drop_last()[j] == n);
        }
        if ks.drop_last().contains(n) {
            let j = choose|j: int| 0 <= j < ks.drop_last().len() && ks.drop_last()[j] == n;
            assert(ks[j] == n);
        }
        if n == k {
            assert(ks[ks.len() - 1] == n);
        }
    }
}

/// Whether `c` is one of the table changes that documents `docs` ask of table `table`:
/// a new row for a document the table lacks; the removal of a row whose document is gone;
/// or, for a document with a row, an update of its state, updated date or title where the
/// row's value differs from the document's.
pub open spec fn owed_table_change(
    c: IndexChangeV,
    docs: Map<Seq<char>, DesignDocV>,
    table: Map<Seq<char>, IndexEntryV>,
) -> bool {
    match c {
        IndexChangeV::TableAdd { number, title, state, updated } => docs.dom().contains(number)
            && !table.dom().contains(number) && title == docs[number].metadata.title && state
            == state_name(docs[number].metadata.state) && updated == docs[number].metadata.updated.text,
        IndexChangeV::TableRemove { number } => table.dom().contains(number) && !docs.dom().contains(
            number,
        ),
        IndexChangeV::TableUpdate { number, field, old, new } => docs.dom().contains(number)
            && table.dom().contains(number) && old != new && ((field == "state"@ && old
            == table[number].state && new == state_name(docs[number].metadata.state)) || (field
            == "updated"@ && old == table[number].updated && new == docs[number].metadata.updated.text)
            || (field == "title"@ && old == table[number].title && new == docs[number].metadata.title)),
        _ => false,
    }
}

/// The row number a table change is about.
pub open spec fn change_row(c: IndexChangeV) -> Option<Seq<char>> {
    match c {
        IndexChangeV::TableAdd { number, .. } => Some(number),
        IndexChangeV::TableUpdate { number, .. } => Some(number),
        IndexChangeV::TableRemove { number } => Some(number),
        _ => None,
    }
}

proof fn lemma_row_changes_exact(
    k: Seq<char>,
    docs: Map<Seq<char>, DesignDocV>,
    table: Map<Seq<char>, IndexEntryV>,
)
    requires
        docs.dom().contains(k),
    ensures
        ({
            let rc = row_changes(k, docs[k].metadata, table);
            &&& rc.no_duplicates()
            &&& forall|c: IndexChangeV|
                #[trigger] rc.contains(c) <==> (owed_table_change(c, docs, table) && !(c is TableRemove)
                    && change_row(c) == Some(k))
        }),
{
    reveal_strlit("state");
    reveal_strlit("updated");
    reveal_strlit("title");
    assert("state"@.len() != "updated"@.len());
    assert("state"@ != "updated"@);
    assert("updated"@.len() != "title"@.len());
    assert("updated"@ != "title"@);
    assert("state"@[0] != "title"@[0]);
    assert("state"@ != "title"@);
    let d = docs[k].metadata;
    let rc = row_changes(k, d, table);
    if table.dom().contains(k) {
        let e = table[k];
        let a = field_update(k, "state"@, e.state, state_name(d.state));
        let b = field_update(k, "updated"@, e.updated, d.updated.text);
        let c3 = field_update(k, "title"@, e.title, d.title);
        assert(rc == a + b + c3);
        assert forall|c: IndexChangeV| rc.contains(c) <==> (owed_table_change(c, docs, table)
            && !(c is TableRemove) && change_row(c) == Some(k)) by {
            if rc.contains(c) {
                let i = choose|i: int| 0 <= i < rc.len() && rc[i] == c;
                if i < a.len() {
                    assert(c == a[i]);
                } else if i < a.len() + b.len() {
                    assert(c == b[i - a.len()]);
                } else {
                    assert(c == c3[i - a.len() - b.len()]);
                }
            }
            if owed_table_change(c, docs, table) && !(c is TableRemove) && change_row(c) == Some(k) {
                if let IndexChangeV::TableUpdate { number, field, old, new } = c {
                    assert(number == k);
                    if field == "state"@ {
                        assert(old == e.state && new == state_name(d.state));
                        assert(a.len() == 1 && a[0] == c);
                        assert(rc[0] == a[0]);
                    } else if field == "updated"@ {
                        assert(old == e.updated && new == d.updated.text);
                        assert(b.len() == 1 && b[0] == c);
                        assert(rc[a.len() as int] == b[0]);
                    } else {
                        assert(field == "title"@);
                        assert(old == e.title && new == d.title);
                        assert(c3.len() == 1 && c3[0] == c);
                        assert(rc[(a.len() + b.len()) as int] == c);
                    }
                }
            }
        }
        assert forall|i: int, j: int| 0 <= i < rc.len() && 0 <= j < rc.len() && i != j implies rc[i]
            != rc[j] by {
            assert(rc.len() <= 3);
            if rc[i] == rc[j] {
                if i < a.len() {
                    assert(rc[i] == a[i]);
                } else if i < a.len() + b.len() {
                    assert(rc[i] == b[i - a.len()]);
                } else {
                    assert(rc[i] == c3[i - a.len() - b.len()]);
                }
                if j < a.len() {
                    assert(rc[j] == a[j]);
                } else if j < a.len() + b.len() {
                    assert(rc[j] == b[j - a.len()]);
                } else {
                    assert(rc[j] == c3[j - a.len() - b.len()]);
                }
            }
        }
    } else {
        assert forall|c: IndexChangeV| rc.contains(c) <==> (owed_table_change(c, docs, table)
            && !(c is TableRemove) && change_row(c) == Some(k)) by {
            if rc.contains(c) {
                let i = choose|i: int| 0 <= i < rc.len() && rc[i] == c;
                assert(i == 0);
            }
            if owed_table_change(c, docs, table) && !(c is TableRemove) && change_row(c) == Some(k) {
                assert(rc[0] == c);
            }
        }
    }
}

proof fn lemma_row_changes_all(
    ks: Seq<Seq<char>>,
    docs: Map<Seq<char>, DesignDocV>,
    table: Map<Seq<char>, IndexEntryV>,
)
    requires
        ks.no_duplicates(),
        forall|i: int| 0 <= i < ks.len() ==> docs.dom().contains(#[trigger] ks[i]),
    ensures
        table_row_changes(ks, docs, table).no_duplicates(),
        forall|c: IndexChangeV|
            #[trigger] table_row_changes(ks, docs, table).contains(c) <==> (owed_table_change(c, docs, table)
                && !(c is TableRemove) && change_row(c) is Some && ks.contains(change_row(c)->0)),
    decreases ks.len(),
{
    if ks.len() > 0 {
        let u = ks.drop_last();
        let k = ks.last();
        assert forall|i: int| 0 <= i < u.len() implies docs.dom().contains(#[trigger] u[i]) by {
            assert(u[i] == ks[i]);
        }
        lemma_row_changes_all(u, docs, table);
        assert(docs.dom().contains(ks[ks.len() - 1]));
        lemma_row_changes_exact(k, docs, table);
        let a = table_row_changes(u, docs, table);
        let b = row_changes(k, docs[k].metadata, table);
        assert(!u.contains(k)) by {
            if u.contains(k) {
                let i = choose|i: int| 0 <= i < u.len() && u[i] == k;
                assert(ks[i] == ks[ks.len() - 1]);
            }
        }
        assert forall|i: int, j: int| 0 <= i < a.len() && 0 <= j < b.len() implies a[i] != b[j] by {
            assert(a.contains(a[i]));
            assert(b.contains(b[j]));
            if a[i] == b[j] {
                assert(change_row(b[j]) == Some(k));
                assert(u.contains(change_row(a[i])->0));
            }
        }
        vstd::seq_lib::lemma_no_dup_in_concat(a, b);
        assert forall|c: IndexChangeV| (a + b).contains(c) <==> (owed_table_change(c, docs, table)
            && !(c is TableRemove) && change_row(c) is Some && ks.contains(change_row(c)->0)) by {
            if (a + b).contains(c) {
                let i = choose|i: int| 0 <= i < (a + b).len() && (a + b)[i] == c;
                if i < a.len() {
                    assert((a + b)[i] == a[i]);
                    assert(a.contains(c));
                    assert(u.contains(change_row(c)->0));
                    let n = change_row(c)->0;
                    let x = choose|x: int| 0 <= x < u.len() && u[x] == n;
                    assert(ks[x] == n);
                } else {
                    assert(b[i - a.len()] == c);
                    assert(b.contains(c));
                    assert(ks[ks.len() - 1] == k);
                }
            }
            if owed_table_change(c, docs, table) && !(c is TableRemove) && change_row(c) is Some
                && ks.contains(change_row(c)->0) {
                let n = change_row(c)->0;
                let x = choose|x: int| 0 <= x < ks.len() && ks[x] == n;
                if x < u.len() {
                    assert(u[x] == n);
                    assert(a.contains(c));
                    let i = choose|i: int| 0 <= i < a.len() && a[i] == c;
                    assert((a + b)[i] == c);
                } else {
                    assert(b.contains(c));
                    let i = choose|i: int| 0 <= i < b.len() && b[i] == c;
                    assert((a + b)[a.len() + i] == c);
                }
            }
        }
    }
}

proof fn lemma_removals_all(ks: Seq<Seq<char>>, docs: Map<Seq<char>, DesignDocV>)
    requires
        ks.no_duplicates(),
    ensures
        table_removals(ks, docs).no_duplicates(),
        forall|c: IndexChangeV|
            #[trigger] table_removals(ks, docs).contains(c) <==> (c is TableRemove && ks.contains(c->TableRemove_number)
                && !docs.dom().contains(c->TableRemove_number)),
    decreases ks.len(),
{
    if ks.len() > 0 {
        let u = ks.drop_last();
        let k = ks.last();
        lemma_removals_all(u, docs);
        let a = table_removals(u, docs);
        let b = if docs.dom().contains(k) {
            Seq::<IndexChangeV>::empty()
        } else {
            seq![IndexChangeV::TableRemove { number: k }]
        };
        assert(!u.contains(k)) by {
            if u.contains(k) {
                let i = choose|i: int| 0 <= i < u.len() && u[i] == k;
                assert(ks[i] == ks[ks.len() - 1]);
            }
        }
        assert forall|i: int, j: int| 0 <= i < a.len() && 0 <= j < b.len() implies a[i] != b[j] by {
            assert(a.contains(a[i]));
        }
        vstd::seq_lib::lemma_no_dup_in_concat(a, b);
        assert forall|c: IndexChangeV| (a + b).contains(c) <==> (c is TableRemove && ks.contains(
            c->TableRemove_number,
        ) && !docs.dom().contains(c->TableRemove_number)) by {
            if (a + b).contains(c) {
                let i = choose|i: int| 0 <= i < (a + b).len() && (a + b)[i] == c;
                if i < a.len() {
                    assert(a.contains(c));
                    let n = c->TableRemove_number;
                    let x = choose|x: int| 0 <= x < u.len() && u[x] == n;
                    assert(ks[x] == n);
                } else {
                    assert(b[i - a.len()] == c);
                    assert(ks[ks.len() - 1] == k);
                }
            }
            if c is TableRemove && ks.contains(c->TableRemove_number) && !docs.dom().contains(
                c->TableRemove_number,
            ) {
                let n = c->TableRemove_number;
                let x = choose|x: int| 0 <= x < ks.len() && ks[x] == n;
                if x < u.len() {
                    assert(u[x] == n);
                    assert(a.contains(c));
                    let i = choose|i: int| 0 <= i < a.len() && a[i] == c;
                    assert((a + b)[i] == c);
                } else {
                    assert(b[0] == c);
                    assert((a + b)[a.len() as int] == c);
                }
            }
        }
    }
}

/// The table changes are exactly the owed ones, each once: a new row for each document
/// the table lacks, the removal of each row whose document is gone, and an update of each
/// field (state, updated date, title) of a shared row whose value differs; nothing else.
pub proof fn lemma_table_changes_exact(
    ks: Seq<Seq<char>>,
    docs: Map<Seq<char>, DesignDocV>,
    tks: Seq<Seq<char>>,
    table: Map<Seq<char>, IndexEntryV>,
)
    requires
        ks.no_duplicates(),
        forall|k: Seq<char>| docs.dom().contains(k) <==> ks.contains(k),
        tks.no_duplicates(),
        forall|k: Seq<char>| table.dom().contains(k) <==> tks.contains(k),
    ensures
        (table_row_changes(ks, docs, table) + table_removals(tks, docs)).no_duplicates(),
        forall|c: IndexChangeV|
            (table_row_changes(ks, docs, table) + table_removals(tks, docs)).contains(c)
                <==> owed_table_change(c, docs, table),
{
    assert forall|i: int| 0 <= i < ks.len() implies docs.dom().contains(#[trigger] ks[i]) by {
        assert(ks.contains(ks[i]));
    }
    lemma_row_changes_all(ks, docs, table);
    lemma_removals_all(tks, docs);
    let a = table_row_changes(ks, docs, table);
    let b = table_removals(tks, docs);
    assert forall|i: int, j: int| 0 <= i < a.len() && 0 <= j < b.len() implies a[i] != b[j] by {
        assert(a.contains(a[i]));
        assert(b.contains(b[j]));
        assert(!(a[i] is TableRemove));
        assert(b[j] is TableRemove);
    }
    vstd::seq_lib::lemma_no_dup_in_concat(a, b);
    assert forall|c: IndexChangeV| (a + b).contains(c) <==> owed_table_change(c, docs, table) by {
        if (a + b).contains(c) {
            let i = choose|i: int| 0 <= i < (a + b).len() && (a + b)[i] == c;
            if i < a.len() {
                assert(a.contains(c));
            } else {
                assert(b[i - a.len()] == c);
                assert(b.contains(c));
            }
        }
        if owed_table_change(c, docs, table) {
            if c is TableRemove {
                assert(b.contains(c));
                let i = choose|i: int| 0 <= i < b.len() && b[i] == c;
                assert((a + b)[a.len() + i] == c);
            } else {
                assert(change_row(c) is Some);
                assert(ks.contains(change_row(c)->0));
                assert(a.contains(c));
                let i = choose|i: int| 0 <= i < a.len() && a[i] == c;
                assert((a + b)[i] == c);
            }
        }
    }
}

fn owned_text(s: &str) -> (r: String)
    ensures
        r@ == s@,
{
    s.to_string()
}

fn push_change(v: &mut Vec<IndexChange>, c: IndexChange)
    ensures
        final(v).deep_view() == old(v).deep_view().push(c.deep_view()),
{
    let ghost before = v.deep_view();
    let ghost cv = c.deep_view();
    v.push(c);
    assert(v.deep_view() =~= before.push(cv));
}

fn push_field_update(v: &mut Vec<IndexChange>, number: &str, field: &str, was: &str, now: &str)
    ensures
        final(v).deep_view() == old(v).deep_view() + field_update(number@, field@, was@, now@),
{
    if !str_equal(was, now) {
        push_change(
            v,
            IndexChange::TableUpdate {
                number: owned_text(number),
                field: owned_text(field),
                old: owned_text(was),
                new: owned_text(now),
            },
        );
    } else {
        assert(v.deep_view() =~= v.deep_view() + Seq::<IndexChangeV>::empty());
    }
}

fn push_row_changes(
    v: &mut Vec<IndexChange>,
    number: &str,
    doc: &DesignDoc,
    table: &StrMap<IndexEntry>,
)
    requires
        table.wf(),
    ensures
        final(v).deep_view() == old(v).deep_view() + row_changes(
            number@,
            doc.deep_view().metadata,
            table.map(),
        ),
{
    let ghost start = v.deep_view();
    let m = &doc.metadata;
    match table.get(number) {
        Some(existing) => {
            push_field_update(v, number, "state", existing.state.as_str(), m.state.as_str());
            push_field_update(v, number, "updated", existing.updated.as_str(), m.updated.text.as_str());
            push_field_update(v, number, "title", existing.title.as_str(), m.title.as_str());
            assert(v.deep_view() =~= start + row_changes(number@, doc.deep_view().metadata, table.map()));
        },
        None => {
            push_change(
                v,
                IndexChange::TableAdd {
                    number: owned_text(number),
                    title: owned_text(m.title.as_str()),
                    state: owned_text(m.state.as_str()),
                    updated: owned_text(m.updated.text.as_str()),
                },
            );
            assert(v.deep_view() =~= start + row_changes(number@, doc.deep_view().metadata, table.map()));
        },
    }
}

/// The changes that bring the index table in line with the documents: for each document
/// (in the order of `doc_map`), a new row or updates of its state, updated date and title;
/// then, for each row (in table order) whose document is gone, its removal.
pub fn compute_table_changes(parsed: &ParsedIndex, doc_map: &StrMap<DesignDoc>) -> (r: Vec<
    IndexChange,
>)
    requires
        parsed.table_entries.wf(),
        doc_map.wf(),
    ensures
        r.deep_view() == table_row_changes(
            doc_map.key_seq(),
            doc_map.map(),
            parsed.table_entries.map(),
        ) + table_removals(parsed.table_entries.key_seq(), doc_map.map()),
        r.deep_view().no_duplicates(),
        forall|c: IndexChangeV|
            #[trigger] r.deep_view().contains(c) <==> owed_table_change(
                c,
                doc_map.map(),
                parsed.table_entries.map(),
            ),
{
    proof {
        doc_map.lemma_keys();
        parsed.table_entries.lemma_keys();
        lemma_table_changes_exact(
            doc_map.key_seq(),
            doc_map.map(),
            parsed.table_entries.key_seq(),
            parsed.table_entries.map(),
        );
    }
    let mut changes: Vec<IndexChange> = Vec::new();
    let table = &parsed.table_entries;
    let ghost ks = doc_map.key_seq();
    proof {
        doc_map.lemma_keys();
    }
    let n = doc_map.len();
    let mut i: usize = 0;
    assert(changes.deep_view() =~= Seq::<IndexChangeV>::empty());
    while i < n
        invariant
            doc_map.wf(),
            table.wf(),
            ks == doc_map.key_seq(),
            n == ks.len(),
            i <= n,
            changes.deep_view() == table_row_changes(ks.take(i as int), doc_map.map(), table.map()),
        decreases n - i,
    {
        let key = doc_map.key_at(i);
        let doc = doc_map.val_at(i);
        push_row_changes(&mut changes, key.as_str(), doc, table);
        proof {
            assert(ks.take(i + 1).drop_last() =~= ks.take(i as int));
            assert(ks.take(i + 1).last() == ks[i as int]);
        }
        i = i + 1;
    }
    assert(ks.take(n as int) =~= ks);
    let ghost adds = changes.deep_view();
    let ghost ts = table.key_seq();
    proof {
        table.lemma_keys();
    }
    let tn = table.len();
    let mut j: usize = 0;
    assert(adds =~= adds + table_removals(ts.take(0), doc_map.map()));
    while j < tn
        invariant
            doc_map.wf(),
            table.wf(),
            ts == table.key_seq(),
            tn == ts.len(),
            j <= tn,
            changes.deep_view() == adds + table_removals(ts.take(j as int), doc_map.map()),
        decreases tn - j,
    {
        let key = table.key_at(j);
        proof {
            assert(ts.take(j + 1).drop_last() =~= ts.take(j as int));
            assert(ts.take(j + 1).last() == ts[j as int]);
        }
        if !doc_map.contains_key(key.as_str()) {
            push_change(&mut changes, IndexChange::TableRemove { number: owned_text(key.as_str()) });
        }
        j = j + 1;
        assert(changes.deep_view() =~= adds + table_removals(ts.take(j as int), doc_map.map()));
    }
    assert(ts.take(tn as int) =~= ts);
    changes
}

/// A document's path as the index lists it: relative to the documents directory when it
/// lies under it, else as it is.
pub open spec fn listed_path(p: Seq<char>, docs_dir: Seq<char>) -> Seq<char> {
    match path_strip_prefix(p, docs_dir) {
        Some(q) => q,
        None => p,
    }
}

/// The documents under keys `ks` that are in state `st`, in that order.
pub open spec fn docs_in_state(
    ks: Seq<Seq<char>>,
    docs: Map<Seq<char>, DesignDocV>,
    st: DocState,
) -> Seq<DesignDocV>
    decreases ks.len(),
{
    if ks.len() == 0 {
        Seq::empty()
    } else {
        docs_in_state(ks.drop_last(), docs, st) + if docs[ks.last()].metadata.state == st {
            seq![docs[ks.last()]]
        } else {
            Seq::empty()
        }
    }
}

/// An entry for each expected document whose path the section lacks.
pub open spec fn section_adds(
    name: Seq<char>,
    expected: Seq<DesignDocV>,
    current: Seq<Seq<char>>,
    docs_dir: Seq<char>,
) -> Seq<IndexChangeV>
    decreases expected.len(),
{
    if expected.len() == 0 {
        Seq::empty()
    } else {
        let d = expected.last();
        let p = listed_path(d.path, docs_dir);
        section_adds(name, expected.drop_last(), current, docs_dir) + if current.contains(p) {
            Seq::empty()
        } else {
            seq![
                IndexChangeV::SectionAdd {
                    state: name,
                    number: zero_padded(d.metadata.number as nat, 4),
                    title: d.metadata.title,
                    path: p,
                },
            ]
        }
    }
}

/// A removal for each listed path that no expected document has, once per listing.
pub open spec fn section_removals(
    name: Seq<char>,
    current: Seq<Seq<char>>,
    expected_paths: Seq<Seq<char>>,
) -> Seq<IndexChangeV>
    decreases current.len(),
{
    if current.len() == 0 {
        Seq::empty()
    } else {
        section_removals(name, current.drop_last(), expected_paths) + if expected_paths.contains(
            current.last(),
        ) {
            Seq::empty()
        } else {
            seq![IndexChangeV::SectionRemove { state: name, path: current.last() }]
        }
    }
}

/// The paths listed in the section of a state (none when the index has no such section).
pub open spec fn listed_in(sections: Map<Seq<char>, Seq<Seq<char>>>, name: Seq<char>) -> Seq<
    Seq<char>,
> {
    if sections.dom().contains(name) {
        sections[name]
    } else {
        Seq::empty()
    }
}

/// The changes to the section of state `st`: entries to add, then entries to remove.
pub open spec fn state_section_changes(
    st: DocState,
    ks: Seq<Seq<char>>,
    docs: Map<Seq<char>, DesignDocV>,
    sections: Map<Seq<char>, Seq<Seq<char>>>,
    docs_dir: Seq<char>,
) -> Seq<IndexChangeV> {
    let name = state_name(st);
    let current = listed_in(sections, name);
    let expected = docs_in_state(ks, docs, st);
    section_adds(name, expected, current, docs_dir) + section_removals(
        name,
        current,
        expected.map_values(|d: DesignDocV| listed_path(d.path, docs_dir)),
    )
}

/// The section changes of the states `sts`, in that order.
pub open spec fn section_changes(
    sts: Seq<DocState>,
    ks: Seq<Seq<char>>,
    docs: Map<Seq<char>, DesignDocV>,
    sections: Map<Seq<char>, Seq<Seq<char>>>,
    docs_dir: Seq<char>,
) -> Seq<IndexChangeV>
    decreases sts.len(),
{
    if sts.len() == 0 {
        Seq::empty()
    } else {
        section_changes(sts.drop_last(), ks, docs, sections, docs_dir) + state_section_changes(
            sts.last(),
            ks,
            docs,
            sections,
            docs_dir,
        )
    }
}

fn contains_text(v: &Vec<String>, s: &str) -> (b: bool)
    ensures
        b == v.deep_view().contains(s@),
{
    let mut i: usize = 0;
    while i < v.len()
        invariant
            i <= v@.len(),
            forall|j: int| 0 <= j < i ==> v.deep_view()[j] != s@,
        decreases v@.len() - i,
    {
        if str_equal(v[i].as_str(), s) {
            assert(v.deep_view()[i as int] == s@);
            return true;
        }
        i = i + 1;
    }
    false
}

pub(crate) fn listed_path_of(p: &str, docs_dir: &str) -> (r: String)
    ensures
        r@ == listed_path(p@, docs_dir@),
{
    match strip_prefix_of(p, docs_dir) {
        Some(q) => q,
        None => owned_text(p),
    }
}

fn push_section_adds(
    v: &mut Vec<IndexChange>,
    expected_paths: &mut Vec<String>,
    st: DocState,
    doc_map: &StrMap<DesignDoc>,
    current: &Vec<String>,
    docs_dir: &str,
)
    requires
        doc_map.wf(),
    ensures
        ({
            let expected = docs_in_state(doc_map.key_seq(), doc_map.map(), st);
            &&& final(v).deep_view() == old(v).deep_view() + section_adds(
                state_name(st),
                expected,
                current.deep_view(),
                docs_dir@,
            )
            &&& final(expected_paths).deep_view() == old(expected_paths).deep_view()
                + expected.map_values(|d: DesignDocV| listed_path(d.path, docs_dir@))
        }),
{
    let ghost ks = doc_map.key_seq();
    let ghost docs = doc_map.map();
    let ghost start = v.deep_view();
    let ghost pstart = expected_paths.deep_view();
    let ghost name = state_name(st);
    let ghost cur = current.deep_view();
    proof {
        doc_map.lemma_keys();
    }
    let n = doc_map.len();
    let mut i: usize = 0;
    assert(docs_in_state(ks.take(0), docs, st) =~= Seq::<DesignDocV>::empty());
    assert(v.deep_view() =~= start + section_adds(name, Seq::empty(), cur, docs_dir@));
    assert(expected_paths.deep_view() =~= pstart + Seq::<DesignDocV>::empty().map_values(
        |d: DesignDocV| listed_path(d.path, docs_dir@),
    ));
    while i < n
        invariant
            doc_map.wf(),
            ks == doc_map.key_seq(),
            docs == doc_map.map(),
            n == ks.len(),
            i <= n,
            name == state_name(st),
            cur == current.deep_view(),
            v.deep_view() == start + section_adds(
                name,
                docs_in_state(ks.take(i as int), docs, st),
                cur,
                docs_dir@,
            ),
            expected_paths.deep_view() == pstart + docs_in_state(ks.take(i as int), docs, st).map_values(
                |d: DesignDocV| listed_path(d.path, docs_dir@),
            ),
        decreases n - i,
    {
        let doc = doc_map.val_at(i);
        let ghost before = docs_in_state(ks.take(i as int), docs, st);
        let ghost pv = expected_paths.deep_view();
        proof {
            assert(ks.take(i + 1).drop_last() =~= ks.take(i as int));
            assert(ks.take(i + 1).last() == ks[i as int]);
        }
        if doc.metadata.state == st {
            let ghost d = doc.deep_view();
            let path = listed_path_of(doc.path.as_str(), docs_dir);
            let ghost after = docs_in_state(ks.take(i + 1), docs, st);
            assert(after =~= before.push(d));
            assert(after.drop_last() =~= before);
            if !contains_text(current, path.as_str()) {
                let digits = zero_padded_chars(doc.metadata.number as u64, 4);
                push_change(
                    v,
                    IndexChange::SectionAdd {
                        state: owned_text(st.as_str()),
                        number: string_from_chars(digits.as_slice()),
                        title: owned_text(doc.metadata.title.as_str()),
                        path: owned_text(path.as_str()),
                    },
                );
            }
            let ghost pathv = path@;
            expected_paths.push(path);
            assert(expected_paths.deep_view() =~= pv.push(pathv));
            assert(after.map_values(|e: DesignDocV| listed_path(e.path, docs_dir@)) =~= before.map_values(
                |e: DesignDocV| listed_path(e.path, docs_dir@),
            ).push(pathv));
        } else {
            assert(docs_in_state(ks.take(i + 1), docs, st) =~= before);
        }
        i = i + 1;
        assert(v.deep_view() =~= start + section_adds(
            name,
            docs_in_state(ks.take(i as int), docs, st),
            cur,
            docs_dir@,
        ));
        assert(expected_paths.deep_view() =~= pstart + docs_in_state(ks.take(i as int), docs, st).map_values(
            |e: DesignDocV| listed_path(e.path, docs_dir@),
        ));
    }
    assert(ks.take(n as int) =~= ks);
}

fn push_section_removals(
    v: &mut Vec<IndexChange>,
    st: DocState,
    current: &Vec<String>,
    expected_paths: &Vec<String>,
)
    ensures
        final(v).deep_view() == old(v).deep_view() + section_removals(
            state_name(st),
            current.deep_view(),
            expected_paths.deep_view(),
        ),
{
    let ghost start = v.deep_view();
    let ghost cur = current.deep_view();
    let ghost ex = expected_paths.deep_view();
    let mut i: usize = 0;
    assert(cur.take(0) =~= Seq::<Seq<char>>::empty());
    assert(v.deep_view() =~= start + section_removals(state_name(st), cur.take(0), ex));
    while i < current.len()
        invariant
            i <= current@.len(),
            cur == current.deep_view(),
            ex == expected_paths.deep_view(),
            v.deep_view() == start + section_removals(state_name(st), cur.take(i as int), ex),
        decreases current@.len() - i,
    {
        let p = current[i].as_str();
        proof {
            assert(cur.take(i + 1).drop_last() =~= cur.take(i as int));
            assert(cur.take(i + 1).last() == cur[i as int]);
        }
        if !contains_text(expected_paths, p) {
            push_change(
                v,
                IndexChange::SectionRemove { state: owned_text(st.as_str()), path: owned_text(p) },
            );
        }
        i = i + 1;
        assert(v.deep_view() =~= start + section_removals(state_name(st), cur.take(i as int), ex));
    }
    assert(cur.take(current@.len() as int) =~= cur);
}

/// The changes that bring each state's section in line with the documents, state by
/// state in the order of `DocState::all_states`: an entry for each document of that
/// state (in the order of `doc_map`) whose path, relative to `docs_dir`, is not listed,
/// then a removal for each listed path that no such document has.
pub fn compute_section_changes(parsed: &ParsedIndex, doc_map: &StrMap<DesignDoc>, docs_dir: &str) -> (r:
    Vec<IndexChange>)
    requires
        parsed.state_sections.wf(),
        doc_map.wf(),
    ensures
        r.deep_view() == section_changes(
            crate::design::doc::all_states_seq(),
            doc_map.key_seq(),
            doc_map.map(),
            parsed.state_sections.map(),
            docs_dir@,
        ),
{
    let states = DocState::all_states();
    let ghost sts = states@;
    let mut changes: Vec<IndexChange> = Vec::new();
    let mut k: usize = 0;
    assert(changes.deep_view() =~= Seq::<IndexChangeV>::empty());
    assert(sts.take(0) =~= Seq::<DocState>::empty());
    while k < states.len()
        invariant
            k <= states@.len(),
            sts == states@,
            parsed.state_sections.wf(),
            doc_map.wf(),
            changes.deep_view() == section_changes(
                sts.take(k as int),
                doc_map.key_seq(),
                doc_map.map(),
                parsed.state_sections.map(),
                docs_dir@,
            ),
        decreases states@.len() - k,
    {
        let st = states[k];
        let empty: Vec<String> = Vec::new();
        let current: &Vec<String> = match parsed.state_sections.get(st.as_str()) {
            Some(c) => c,
            None => &empty,
        };
        assert(current.deep_view() =~= listed_in(parsed.state_sections.map(), state_name(st)));
        let mut expected_paths: Vec<String> = Vec::new();
        let ghost mid = changes.deep_view();
        assert(expected_paths.deep_view() =~= Seq::<Seq<char>>::empty());
        push_section_adds(&mut changes, &mut expected_paths, st, doc_map, current, docs_dir);
        proof {
            let ex = docs_in_state(doc_map.key_seq(), doc_map.map(), st).map_values(
                |d: DesignDocV| listed_path(d.path, docs_dir@),
            );
            assert(expected_paths.deep_view() =~= ex);
        }
        push_section_removals(&mut changes, st, current, &expected_paths);
        proof {
            assert(sts.take(k + 1).drop_last() =~= sts.take(k as int));
            assert(sts.take(k + 1).last() == sts[k as int]);
        }
        k = k + 1;
        assert(changes.deep_view() =~= section_changes(
            sts.take(k as int),
            doc_map.key_seq(),
            doc_map.map(),
            parsed.state_sections.map(),
            docs_dir@,
        ));
    }
    assert(sts.take(states@.len() as int) =~= sts);
    changes
}

/// `r` without its trailing blank lines.
pub open spec fn drop_trailing_blanks(r: Seq<Seq<char>>) -> Seq<Seq<char>>
    decreases r.len(),
{
    if r.len() > 0 && r.last().len() == 0 {
        drop_trailing_blanks(r.drop_last())
    } else {
        r
    }
}

/// The first index at or after `j` whose line is not blank, or the number of lines.
pub open spec fn skip_blank_lines(ls: Seq<Seq<char>>, j: int) -> int
    decreases ls.len() - j,
{
    if 0 <= j < ls.len() && ls[j].len() == 0 {
        skip_blank_lines(ls, j + 1)
    } else {
        j
    }
}

pub proof fn lemma_skip_blank_lines(ls: Seq<Seq<char>>, j: int)
    requires
        0 <= j <= ls.len(),
    ensures
        j <= skip_blank_lines(ls, j) <= ls.len(),
        forall|k: int| j <= k < skip_blank_lines(ls, j) ==> ls[k].len() == 0,
        skip_blank_lines(ls, j) < ls.len() ==> ls[skip_blank_lines(ls, j)].len() > 0,
    decreases ls.len() - j,
{
    if j < ls.len() && ls[j].len() == 0 {
        lemma_skip_blank_lines(ls, j + 1);
    }
}

/// Whether a line is a section heading (`## ` or `### `).
pub open spec fn is_section_heading(l: Seq<char>) -> bool {
    "## "@.is_prefix_of(l) || "### "@.is_prefix_of(l)
}

/// Whether a line is a link bullet (`- [`).
pub open spec fn is_link_bullet(l: Seq<char>) -> bool {
    "- ["@.is_prefix_of(l)
}

/// The tidied lines from index `i` on, added to `r`: exactly one blank line around each
/// section heading (none before the first line, none after when a heading follows), no
/// blank lines between consecutive link bullets, and runs of blank lines collapsed.
pub open spec fn cleanup_from(ls: Seq<Seq<char>>, i: int, r: Seq<Seq<char>>) -> Seq<Seq<char>>
    decreases ls.len() - i,
{
    if i < 0 || i >= ls.len() {
        r
    } else {
        let line = ls[i];
        if is_section_heading(line) {
            let r1 = drop_trailing_blanks(r);
            let r2 = if r1.len() > 0 {
                r1.push(Seq::empty())
            } else {
                r1
            };
            let r3 = r2.push(line);
            let j = skip_blank_lines(ls, i + 1);
            proof {
                lemma_skip_blank_lines(ls, i + 1);
            }
            let r4 = if j < ls.len() && !"#"@.is_prefix_of(ls[j]) {
                r3.push(Seq::empty())
            } else {
                r3
            };
            cleanup_from(ls, j, r4)
        } else if is_link_bullet(line) {
            let r1 = r.push(line);
            let j = skip_blank_lines(ls, i + 1);
            proof {
                lemma_skip_blank_lines(ls, i + 1);
            }
            if j < ls.len() && is_link_bullet(ls[j]) {
                cleanup_from(ls, j, r1)
            } else {
                cleanup_from(ls, i + 1, r1)
            }
        } else if line.len() == 0 {
            let r1 = if r.len() == 0 || r.last().len() > 0 {
                r.push(Seq::empty())
            } else {
                r
            };
            cleanup_from(ls, i + 1, r1)
        } else {
            cleanup_from(ls, i + 1, r.push(line))
        }
    }
}

/// The tidied text: the tidied lines, closed by a final line feed.
pub open spec fn cleanup_spec(content: Seq<char>) -> Seq<char> {
    let r = cleanup_from(lines_of(content), 0, Seq::empty());
    let r2 = if r.len() > 0 && r.last().len() > 0 {
        r.push(Seq::empty())
    } else {
        r
    };
    join_lines(r2)
}

/// No blank line follows another, and no line holds a line feed.
pub open spec fn tidy_lines(r: Seq<Seq<char>>) -> bool {
    &&& forall|k: int| 0 <= k < r.len() - 1 ==> !(#[trigger] r[k].len() == 0 && r[k + 1].len() == 0)
    &&& forall|k: int, j: int| 0 <= k < r.len() && 0 <= j < r[k].len() ==> #[trigger] r[k][j] != '\n'
}

proof fn lemma_drop_trailing_blanks(r: Seq<Seq<char>>)
    requires
        tidy_lines(r),
    ensures
        tidy_lines(drop_trailing_blanks(r)),
        drop_trailing_blanks(r).len() == 0 || drop_trailing_blanks(r).last().len() > 0,
    decreases r.len(),
{
    if r.len() > 0 && r.last().len() == 0 {
        let t = r.drop_last();
        assert forall|k: int, j: int| 0 <= k < t.len() && 0 <= j < t[k].len() implies #[trigger] t[k][j]
            != '\n' by {
            assert(t[k] == r[k]);
        }
        assert forall|k: int| 0 <= k < t.len() - 1 implies !(#[trigger] t[k].len() == 0 && t[k + 1].len()
            == 0) by {
            assert(t[k] == r[k] && t[k + 1] == r[k + 1]);
        }
        lemma_drop_trailing_blanks(t);
    }
}

/// Pushing a line keeps the lines tidy when it holds no line feed and is not a second
/// blank line in a row.
proof fn lemma_push_tidy(r: Seq<Seq<char>>, l: Seq<char>)
    requires
        tidy_lines(r),
        forall|j: int| 0 <= j < l.len() ==> #[trigger] l[j] != '\n',
        l.len() == 0 ==> r.len() == 0 || r.last().len() > 0,
    ensures
        tidy_lines(r.push(l)),
{
    let s = r.push(l);
    assert forall|k: int, j: int| 0 <= k < s.len() && 0 <= j < s[k].len() implies #[trigger] s[k][j]
        != '\n' by {
        if k < r.len() {
            assert(s[k] == r[k]);
        }
    }
    assert forall|k: int| 0 <= k < s.len() - 1 implies !(#[trigger] s[k].len() == 0 && s[k + 1].len() == 0) by {
        if k < r.len() - 1 {
            assert(s[k] == r[k] && s[k + 1] == r[k + 1]);
        }
    }
}

proof fn lemma_cleanup_tidy(ls: Seq<Seq<char>>, i: int, r: Seq<Seq<char>>)
    requires
        tidy_lines(r),
        forall|k: int, j: int| 0 <= k < ls.len() && 0 <= j < ls[k].len() ==> #[trigger] ls[k][j] != '\n',
    ensures
        tidy_lines(cleanup_from(ls, i, r)),
    decreases ls.len() - i,
{
    if i < 0 || i >= ls.len() {
    } else {
        let line = ls[i];
        assert forall|j: int| 0 <= j < line.len() implies #[trigger] line[j] != '\n' by {
            assert(ls[i][j] != '\n');
        }
        if is_section_heading(line) {
            reveal_strlit("## ");
            reveal_strlit("### ");
            assert(line.len() > 0);
            lemma_drop_trailing_blanks(r);
            let r1 = drop_trailing_blanks(r);
            let r2 = if r1.len() > 0 {
                lemma_push_tidy(r1, Seq::empty());
                r1.push(Seq::empty())
            } else {
                r1
            };
            lemma_push_tidy(r2, line);
            let r3 = r2.push(line);
            let j = skip_blank_lines(ls, i + 1);
            lemma_skip_blank_lines(ls, i + 1);
            lemma_push_tidy(r3, Seq::empty());
            let r4 = if j < ls.len() && !"#"@.is_prefix_of(ls[j]) {
                r3.push(Seq::empty())
            } else {
                r3
            };
            lemma_cleanup_tidy(ls, j, r4);
        } else if is_link_bullet(line) {
            reveal_strlit("- [");
            assert(line.len() > 0);
            lemma_push_tidy(r, line);
            let r1 = r.push(line);
            let j = skip_blank_lines(ls, i + 1);
            lemma_skip_blank_lines(ls, i + 1);
            if j < ls.len() && is_link_bullet(ls[j]) {
                lemma_cleanup_tidy(ls, j, r1);
            } else {
                lemma_cleanup_tidy(ls, i + 1, r1);
            }
        } else if line.len() == 0 {
            if r.len() == 0 || r.last().len() > 0 {
                lemma_push_tidy(r, Seq::empty());
                lemma_cleanup_tidy(ls, i + 1, r.push(Seq::empty()));
            } else {
                lemma_cleanup_tidy(ls, i + 1, r);
            }
        } else {
            lemma_push_tidy(r, line);
            lemma_cleanup_tidy(ls, i + 1, r.push(line));
        }
    }
}

/// Joined tidy lines never hold three line feeds in a row, and a line feed ends them
/// exactly when their last line is blank (and there is more than one line).
proof fn lemma_join_tidy(r: Seq<Seq<char>>)
    requires
        tidy_lines(r),
    ensures
        forall|i: int|
            0 <= i < join_lines(r).len() - 2 ==> !(#[trigger] join_lines(r)[i] == '\n' && join_lines(r)[i + 1]
                == '\n' && join_lines(r)[i + 2] == '\n'),
        join_lines(r).len() > 0 && join_lines(r).last() == '\n' ==> r.len() >= 2 && r.last().len() == 0,
        r.len() >= 2 && r.last().len() == 0 ==> join_lines(r).len() > 0 && join_lines(r).last() == '\n',
    decreases r.len(),
{
    if r.len() == 1 {
        assert(join_lines(r) == r[0]);
        if r[0].len() > 0 {
            assert(r[0][r[0].len() - 1] != '\n');
        }
        assert forall|i: int| 0 <= i < join_lines(r).len() - 2 implies !(#[trigger] join_lines(r)[i] == '\n'
            && join_lines(r)[i + 1] == '\n' && join_lines(r)[i + 2] == '\n') by {
            assert(r[0][i] != '\n');
        }
    } else if r.len() > 1 {
        let t = r.drop_last();
        assert forall|k: int, j: int| 0 <= k < t.len() && 0 <= j < t[k].len() implies #[trigger] t[k][j]
            != '\n' by {
            assert(t[k] == r[k]);
        }
        assert forall|k: int| 0 <= k < t.len() - 1 implies !(#[trigger] t[k].len() == 0 && t[k + 1].len()
            == 0) by {
            assert(t[k] == r[k] && t[k + 1] == r[k + 1]);
        }
        lemma_join_tidy(t);
        let jt = join_lines(t);
        let p = r.last();
        let s = jt + seq!['\n'] + p;
        assert(join_lines(r) == s);
        let n = jt.len() as int;
        assert forall|j: int| 0 <= j < p.len() implies #[trigger] p[j] != '\n' by {
            assert(r[r.len() - 1][j] != '\n');
        }
        assert forall|i: int| 0 <= i < s.len() - 2 implies !(#[trigger] s[i] == '\n' && s[i + 1] == '\n'
            && s[i + 2] == '\n') by {
            if i + 2 < n {
                assert(s[i] == jt[i] && s[i + 1] == jt[i + 1] && s[i + 2] == jt[i + 2]);
            } else if i + 2 == n {
                assert(s[i] == jt[i] && s[i + 1] == jt[i + 1]);
                if s[i] == '\n' && s[i + 1] == '\n' {
                    assert(jt.last() == '\n');
                    assert(t.last().len() == 0);
                    assert(t.len() >= 2);
                    assert(r[r.len() - 2].len() == 0);
                    let u = t.drop_last();
                    assert(jt == join_lines(u) + seq!['\n'] + t.last());
                    assert(t.last() =~= Seq::<char>::empty());
                    assert(jt =~= join_lines(u) + seq!['\n']);
                    assert(join_lines(u).last() == '\n');
                    if u.len() == 1 {
                        assert(join_lines(u) == u[0]);
                        assert(u[0] == r[0]);
                        assert(r[0][r[0].len() - 1] != '\n');
                    } else {
                        assert(u.last() == r[r.len() - 3]);
                        assert(join_lines(u) == join_lines(u.drop_last()) + seq!['\n'] + u.last());
                        if u.last().len() > 0 {
                            assert(join_lines(u).last() == u.last().last());
                            assert(r[r.len() - 3][u.last().len() - 1] != '\n');
                        } else {
                            assert(!(r[r.len() - 3].len() == 0 && r[r.len() - 2].len() == 0));
                        }
                    }
                }
            } else if i + 1 == n {
                assert(s[i + 1] == '\n');
                if p.len() > 0 {
                    assert(s[i + 2] == p[0]);
                }
            } else if i == n {
                assert(s[i + 1] == p[0]);
            } else {
                assert(s[i] == p[i - n - 1]);
            }
        }
        if p.len() > 0 {
            assert(s.last() == p.last());
            assert(p[p.len() - 1] != '\n');
        }
    }
}

/// Tidying the index leaves no more than one blank line in a row (no three line feeds
/// in a row), and leaves text that is empty or ends with a line feed.
pub proof fn lemma_cleanup_shape(content: Seq<char>)
    ensures
        !contains(cleanup_spec(content), "\n\n\n"@),
        cleanup_spec(content).len() == 0 || cleanup_spec(content).last() == '\n',
{
    let ls = lines_of(content);
    crate::design::normalize::lemma_lines_after_no_newline(content, Seq::empty());
    assert(tidy_lines(Seq::<Seq<char>>::empty()));
    lemma_cleanup_tidy(ls, 0, Seq::empty());
    let r = cleanup_from(ls, 0, Seq::empty());
    let r2 = if r.len() > 0 && r.last().len() > 0 {
        lemma_push_tidy(r, Seq::empty());
        r.push(Seq::empty())
    } else {
        r
    };
    lemma_join_tidy(r2);
    let out = join_lines(r2);
    assert(cleanup_spec(content) == out);
    reveal_strlit("\n\n\n");
    if contains(out, "\n\n\n"@) {
        let i = choose|i: int| occurs_at(out, "\n\n\n"@, i);
        assert(out.subrange(i, i + 3) == "\n\n\n"@);
        assert(out[i] == out.subrange(i, i + 3)[0]);
        assert(out[i + 1] == out.subrange(i, i + 3)[1]);
        assert(out[i + 2] == out.subrange(i, i + 3)[2]);
    }
    if r2.len() == 1 {
        assert(r2[0].len() == 0);
        assert(out == r2[0]);
    }
}

/// The lines of `ls` that are not blank, in order.
pub open spec fn nonblank_lines(ls: Seq<Seq<char>>) -> Seq<Seq<char>>
    decreases ls.len(),
{
    if ls.len() == 0 {
        ls
    } else if ls.last().len() > 0 {
        nonblank_lines(ls.drop_last()).push(ls.last())
    } else {
        nonblank_lines(ls.drop_last())
    }
}

pub(crate) proof fn lemma_nonblank_push(x: Seq<Seq<char>>, l: Seq<char>)
    ensures
        nonblank_lines(x.push(l)) == if l.len() > 0 {
            nonblank_lines(x).push(l)
        } else {
            nonblank_lines(x)
        },
{
    assert(x.push(l).drop_last() =~= x);
}

proof fn lemma_nonblank_concat(a: Seq<Seq<char>>, b: Seq<Seq<char>>)
    ensures
        nonblank_lines(a + b) == nonblank_lines(a) + nonblank_lines(b),
    decreases b.len(),
{
    if b.len() == 0 {
        assert(a + b =~= a);
        assert(nonblank_lines(a) + nonblank_lines(b) =~= nonblank_lines(a));
    } else {
        lemma_nonblank_concat(a, b.drop_last());
        assert((a + b).drop_last() =~= a + b.drop_last());
        assert((a + b).last() == b.last());
        if b.last().len() > 0 {
            assert(nonblank_lines(a) + nonblank_lines(b.drop_last()).push(b.last()) =~= (nonblank_lines(a)
                + nonblank_lines(b.drop_last())).push(b.last()));
        }
    }
}

pub(crate) proof fn lemma_nonblank_front(ls: Seq<Seq<char>>, i: int)
    requires
        0 <= i < ls.len(),
    ensures
        nonblank_lines(ls.skip(i)) == nonblank_lines(seq![ls[i]]) + nonblank_lines(ls.skip(i + 1)),
        nonblank_lines(seq![ls[i]]) == if ls[i].len() > 0 {
            seq![ls[i]]
        } else {
            Seq::<Seq<char>>::empty()
        },
{
    assert(ls.skip(i) =~= seq![ls[i]] + ls.skip(i + 1));
    lemma_nonblank_concat(seq![ls[i]], ls.skip(i + 1));
    let e = Seq::<Seq<char>>::empty();
    assert(e.push(ls[i]) =~= seq![ls[i]]);
    lemma_nonblank_push(e, ls[i]);
    assert(nonblank_lines(e) == e);
    if ls[i].len() > 0 {
        assert(e.push(ls[i]) =~= seq![ls[i]]);
    }
}

proof fn lemma_nonblank_skip_blanks(ls: Seq<Seq<char>>, a: int, b: int)
    requires
        0 <= a <= b <= ls.len(),
        forall|k: int| a <= k < b ==> ls[k].len() == 0,
    ensures
        nonblank_lines(ls.skip(a)) == nonblank_lines(ls.skip(b)),
    decreases b - a,
{
    if a < b {
        lemma_nonblank_front(ls, a);
        lemma_nonblank_skip_blanks(ls, a + 1, b);
        assert(Seq::<Seq<char>>::empty() + nonblank_lines(ls.skip(a + 1)) =~= nonblank_lines(ls.skip(a + 1)));
    }
}

proof fn lemma_nonblank_drop_trailing(r: Seq<Seq<char>>)
    ensures
        nonblank_lines(drop_trailing_blanks(r)) == nonblank_lines(r),
    decreases r.len(),
{
    if r.len() > 0 && r.last().len() == 0 {
        lemma_nonblank_drop_trailing(r.drop_last());
    }
}

proof fn lemma_cleanup_keeps_text(ls: Seq<Seq<char>>, i: int, r: Seq<Seq<char>>)
    requires
        0 <= i <= ls.len(),
    ensures
        nonblank_lines(cleanup_from(ls, i, r)) == nonblank_lines(r) + nonblank_lines(ls.skip(i)),
    decreases ls.len() - i,
{
    if i >= ls.len() {
        assert(ls.skip(i) =~= Seq::<Seq<char>>::empty());
        assert(nonblank_lines(r) + nonblank_lines(ls.skip(i)) =~= nonblank_lines(r));
    } else {
        let line = ls[i];
        lemma_nonblank_front(ls, i);
        let nr = nonblank_lines(r);
        if is_section_heading(line) {
            reveal_strlit("## ");
            reveal_strlit("### ");
            assert(line.len() > 0);
            lemma_nonblank_drop_trailing(r);
            let r1 = drop_trailing_blanks(r);
            lemma_nonblank_push(r1, Seq::empty());
            let r2 = if r1.len() > 0 {
                r1.push(Seq::empty())
            } else {
                r1
            };
            assert(nonblank_lines(r2) == nr);
            let r3 = r2.push(line);
            lemma_nonblank_push(r2, line);
            lemma_nonblank_push(r3, Seq::empty());
            let j = skip_blank_lines(ls, i + 1);
            lemma_skip_blank_lines(ls, i + 1);
            let r4 = if j < ls.len() && !"#"@.is_prefix_of(ls[j]) {
                r3.push(Seq::empty())
            } else {
                r3
            };
            assert(nonblank_lines(r4) == nr.push(line));
            lemma_nonblank_skip_blanks(ls, i + 1, j);
            lemma_cleanup_keeps_text(ls, j, r4);
            assert(nr.push(line) + nonblank_lines(ls.skip(j)) =~= nr + (seq![line] + nonblank_lines(
                ls.skip(i + 1),
            )));
        } else if is_link_bullet(line) {
            reveal_strlit("- [");
            assert(line.len() > 0);
            lemma_nonblank_push(r, line);
            let r1 = r.push(line);
            let j = skip_blank_lines(ls, i + 1);
            lemma_skip_blank_lines(ls, i + 1);
            lemma_nonblank_skip_blanks(ls, i + 1, j);
            if j < ls.len() && is_link_bullet(ls[j]) {
                lemma_cleanup_keeps_text(ls, j, r1);
            } else {
                lemma_cleanup_keeps_text(ls, i + 1, r1);
            }
            assert(nr.push(line) + nonblank_lines(ls.skip(i + 1)) =~= nr + (seq![line] + nonblank_lines(
                ls.skip(i + 1),
            )));
        } else if line.len() == 0 {
            lemma_nonblank_push(r, Seq::empty());
            let r1 = if r.len() == 0 || r.last().len() > 0 {
                r.push(Seq::empty())
            } else {
                r
            };
            assert(nonblank_lines(r1) == nr);
            lemma_cleanup_keeps_text(ls, i + 1, r1);
            assert(nonblank_lines(ls.skip(i)) =~= nonblank_lines(ls.skip(i + 1)));
        } else {
            lemma_nonblank_push(r, line);
            lemma_cleanup_keeps_text(ls, i + 1, r.push(line));
            assert(nr.push(line) + nonblank_lines(ls.skip(i + 1)) =~= nr + (seq![line] + nonblank_lines(
                ls.skip(i + 1),
            )));
        }
    }
}

/// Tidying the index changes blank lines only: it is the joining of lines whose
/// non-blank lines are exactly those of the input, in order, verbatim, with no blank
/// line after another.
pub proof fn lemma_cleanup_keeps_text_lines(content: Seq<char>)
    ensures
        exists|r: Seq<Seq<char>>|
            cleanup_spec(content) == join_lines(r) && #[trigger] nonblank_lines(r) == nonblank_lines(
                lines_of(content),
            ) && tidy_lines(r),
{
    let ls = lines_of(content);
    lemma_cleanup_keeps_text(ls, 0, Seq::empty());
    assert(ls.skip(0) =~= ls);
    let r = cleanup_from(ls, 0, Seq::empty());
    assert(nonblank_lines(Seq::<Seq<char>>::empty()) + nonblank_lines(ls) =~= nonblank_lines(ls));
    crate::design::normalize::lemma_lines_after_no_newline(content, Seq::empty());
    assert(tidy_lines(Seq::<Seq<char>>::empty()));
    lemma_cleanup_tidy(ls, 0, Seq::empty());
    lemma_nonblank_push(r, Seq::empty());
    let r2 = if r.len() > 0 && r.last().len() > 0 {
        lemma_push_tidy(r, Seq::empty());
        r.push(Seq::empty())
    } else {
        r
    };
    assert(nonblank_lines(r2) == nonblank_lines(ls));
    assert(cleanup_spec(content) == join_lines(r2));
}

/// Every line of `r` is free of `c`.
pub open spec fn lines_free(r: Seq<Seq<char>>, c: char) -> bool {
    forall|k: int, j: int| 0 <= k < r.len() && 0 <= j < r[k].len() ==> #[trigger] r[k][j] != c
}

/// The layout rules that tidied lines keep, each read from a line back to the lines
/// before it: no blank line after a blank line; a section heading first or after exactly
/// one blank line; right after a section heading only a line that starts with `#`; after
/// a section heading and a blank line, a section heading or a line that does not start
/// with `#`; after a link bullet and a blank line, no link bullet.
#[verifier::opaque]
pub open spec fn settled_lines(l: Seq<Seq<char>>) -> bool {
    &&& forall|i: int| 0 < i < l.len() && (#[trigger] l[i]).len() == 0 ==> l[i - 1].len() > 0
    &&& forall|i: int|
        0 < i < l.len() && is_section_heading(#[trigger] l[i]) ==> i >= 2 && l[i - 1].len() == 0
            && l[i - 2].len() > 0
    &&& forall|i: int|
        0 < i < l.len() && (#[trigger] l[i]).len() > 0 && is_section_heading(l[i - 1]) ==> "#"@.is_prefix_of(
            l[i],
        )
    &&& forall|i: int|
        1 < i < l.len() && l[i - 1].len() == 0 && is_section_heading(l[i - 2]) ==> is_section_heading(
            #[trigger] l[i],
        ) || !"#"@.is_prefix_of(l[i])
    &&& forall|i: int|
        1 < i < l.len() && l[i - 1].len() == 0 && is_link_bullet(l[i - 2]) ==> !is_link_bullet(
            #[trigger] l[i],
        )
}

proof fn lemma_kinds_exclusive(x: Seq<char>)
    ensures
        is_section_heading(x) ==> x.len() > 0 && "#"@.is_prefix_of(x) && !is_link_bullet(x),
        is_link_bullet(x) ==> x.len() > 0 && !"#"@.is_prefix_of(x),
{
    reveal_strlit("## ");
    reveal_strlit("### ");
    reveal_strlit("- [");
    reveal_strlit("#");
    if "## "@.is_prefix_of(x) {
        assert(x.subrange(0, 3)[0] == x[0]);
        assert(x.subrange(0, 1) =~= "#"@);
    }
    if "### "@.is_prefix_of(x) {
        assert(x.subrange(0, 4)[0] == x[0]);
        assert(x.subrange(0, 1) =~= "#"@);
    }
    if is_link_bullet(x) {
        assert(x.subrange(0, 3)[0] == x[0]);
        assert(x[0] == '-');
        if "#"@.is_prefix_of(x) {
            assert(x.subrange(0, 1)[0] == x[0]);
        }
    }
}

proof fn lemma_settled_at(l: Seq<Seq<char>>, i: int)
    requires
        settled_lines(l),
        0 <= i < l.len(),
    ensures
        0 < i && l[i].len() == 0 ==> l[i - 1].len() > 0,
        0 < i && is_section_heading(l[i]) ==> i >= 2 && l[i - 1].len() == 0 && l[i - 2].len() > 0,
        0 < i && l[i].len() > 0 && is_section_heading(l[i - 1]) ==> "#"@.is_prefix_of(l[i]),
        1 < i && l[i - 1].len() == 0 && is_section_heading(l[i - 2]) ==> is_section_heading(l[i])
            || !"#"@.is_prefix_of(l[i]),
        1 < i && l[i - 1].len() == 0 && is_link_bullet(l[i - 2]) ==> !is_link_bullet(l[i]),
{
    reveal(settled_lines);
}

proof fn lemma_settled_prefix(l: Seq<Seq<char>>, n: int)
    requires
        settled_lines(l),
        0 <= n <= l.len(),
    ensures
        settled_lines(l.take(n)),
{
    reveal(settled_lines);
    let t = l.take(n);
    assert forall|i: int| 0 <= i < t.len() implies #[trigger] t[i] == l[i] by {}
    assert forall|i: int| 0 < i < t.len() && (#[trigger] t[i]).len() == 0 implies t[i - 1].len() > 0 by {
        assert(t[i] == l[i] && t[i - 1] == l[i - 1]);
    }
    assert forall|i: int| 0 < i < t.len() && is_section_heading(#[trigger] t[i]) implies i >= 2 && t[i - 1].len()
        == 0 && t[i - 2].len() > 0 by {
        assert(t[i] == l[i] && t[i - 1] == l[i - 1]);
        if i >= 2 {
            assert(t[i - 2] == l[i - 2]);
        }
    }
    assert forall|i: int| 0 < i < t.len() && (#[trigger] t[i]).len() > 0 && is_section_heading(t[i - 1]) implies "#"@.is_prefix_of(
        t[i],
    ) by {
        assert(t[i] == l[i] && t[i - 1] == l[i - 1]);
    }
    assert forall|i: int| 1 < i < t.len() && t[i - 1].len() == 0 && is_section_heading(t[i - 2]) implies is_section_heading(
        #[trigger] t[i],
    ) || !"#"@.is_prefix_of(t[i]) by {
        assert(t[i] == l[i] && t[i - 1] == l[i - 1] && t[i - 2] == l[i - 2]);
    }
    assert forall|i: int| 1 < i < t.len() && t[i - 1].len() == 0 && is_link_bullet(t[i - 2]) implies !is_link_bullet(
        #[trigger] t[i],
    ) by {
        assert(t[i] == l[i] && t[i - 1] == l[i - 1] && t[i - 2] == l[i - 2]);
    }
}

/// Pushing a line that keeps each rule keeps the lines settled.
proof fn lemma_push_settled(r: Seq<Seq<char>>, x: Seq<char>)
    requires
        settled_lines(r),
        x.len() == 0 && r.len() > 0 ==> r.last().len() > 0,
        is_section_heading(x) && r.len() > 0 ==> r.len() >= 2 && r.last().len() == 0 && r[r.len() - 2].len() > 0,
        x.len() > 0 && r.len() > 0 && is_section_heading(r.last()) ==> "#"@.is_prefix_of(x),
        r.len() >= 2 && r.last().len() == 0 && is_section_heading(r[r.len() - 2]) ==> is_section_heading(x)
            || !"#"@.is_prefix_of(x),
        r.len() >= 2 && r.last().len() == 0 && is_link_bullet(r[r.len() - 2]) ==> !is_link_bullet(x),
    ensures
        settled_lines(r.push(x)),
{
    reveal(settled_lines);
    let t = r.push(x);
    let n = r.len() as int;
    assert(t[n] == x);
    assert forall|i: int| 0 <= i < n implies #[trigger] t[i] == r[i] by {}
    assert forall|i: int| 0 < i < t.len() && (#[trigger] t[i]).len() == 0 implies t[i - 1].len() > 0 by {
        assert(t[i - 1] == r[i - 1]);
    }
    assert forall|i: int| 0 < i < t.len() && is_section_heading(#[trigger] t[i]) implies i >= 2 && t[i - 1].len()
        == 0 && t[i - 2].len() > 0 by {
        assert(t[i - 1] == r[i - 1]);
        if i >= 2 {
            assert(t[i - 2] == r[i - 2]);
        }
    }
    assert forall|i: int| 0 < i < t.len() && (#[trigger] t[i]).len() > 0 && is_section_heading(t[i - 1]) implies "#"@.is_prefix_of(
        t[i],
    ) by {
        assert(t[i - 1] == r[i - 1]);
    }
    assert forall|i: int| 1 < i < t.len() && t[i - 1].len() == 0 && is_section_heading(t[i - 2]) implies is_section_heading(
        #[trigger] t[i],
    ) || !"#"@.is_prefix_of(t[i]) by {
        assert(t[i - 1] == r[i - 1] && t[i - 2] == r[i - 2]);
    }
    assert forall|i: int| 1 < i < t.len() && t[i - 1].len() == 0 && is_link_bullet(t[i - 2]) implies !is_link_bullet(
        #[trigger] t[i],
    ) by {
        assert(t[i - 1] == r[i - 1] && t[i - 2] == r[i - 2]);
    }
}

proof fn lemma_drop_trailing_prefix(r: Seq<Seq<char>>)
    ensures
        exists|n: int| 0 <= n <= r.len() && drop_trailing_blanks(r) == r.take(n),
        drop_trailing_blanks(r).len() == 0 || drop_trailing_blanks(r).last().len() > 0,
    decreases r.len(),
{
    if r.len() > 0 && r.last().len() == 0 {
        lemma_drop_trailing_prefix(r.drop_last());
        let n = choose|n: int| 0 <= n <= r.drop_last().len() && drop_trailing_blanks(r.drop_last()) == r.drop_last().take(n);
        assert(r.drop_last().take(n) =~= r.take(n));
    } else {
        assert(r.take(r.len() as int) =~= r);
    }
}

/// The lines left so far, and what the input still holds from `i`, keep the rules that
/// the next lines will be held to.
pub open spec fn pending_ok(ls: Seq<Seq<char>>, i: int, r: Seq<Seq<char>>) -> bool {
    &&& r.len() > 0 && is_section_heading(r.last()) ==> i == ls.len() || (i < ls.len() && ls[i].len() > 0
        && "#"@.is_prefix_of(ls[i]))
    &&& r.len() >= 2 && r.last().len() == 0 && is_section_heading(r[r.len() - 2]) ==> i < ls.len()
        && ls[i].len() > 0 && !"#"@.is_prefix_of(ls[i])
    &&& r.len() > 0 && is_link_bullet(r.last()) && i < ls.len() && ls[i].len() == 0 ==> (skip_blank_lines(
        ls,
        i,
    ) == ls.len() || !is_link_bullet(ls[skip_blank_lines(ls, i)]))
    &&& r.len() >= 2 && r.last().len() == 0 && is_link_bullet(r[r.len() - 2]) ==> (skip_blank_lines(ls, i)
        == ls.len() || !is_link_bullet(ls[skip_blank_lines(ls, i)]))
}

#[verifier::rlimit(60)]
proof fn lemma_cleanup_settles(ls: Seq<Seq<char>>, i: int, r: Seq<Seq<char>>)
    requires
        0 <= i <= ls.len(),
        settled_lines(r),
        pending_ok(ls, i, r),
        lines_free(r, '\r'),
        lines_free(ls, '\r'),
    ensures
        settled_lines(cleanup_from(ls, i, r)),
        lines_free(cleanup_from(ls, i, r), '\r'),
    decreases ls.len() - i,
{
    lemma_kinds_exclusive(Seq::<char>::empty());
    if i < ls.len() {
        let line = ls[i];
        lemma_kinds_exclusive(line);
        assert forall|j: int| 0 <= j < line.len() implies #[trigger] line[j] != '\r' by {
            assert(ls[i][j] != '\r');
        }
        if is_section_heading(line) {
            lemma_drop_trailing_prefix(r);
            let r1 = drop_trailing_blanks(r);
            let n = choose|n: int| 0 <= n <= r.len() && drop_trailing_blanks(r) == r.take(n);
            lemma_settled_prefix(r, n);
            assert(lines_free(r1, '\r'));
            let r2 = if r1.len() > 0 {
                lemma_push_settled(r1, Seq::empty());
                r1.push(Seq::empty())
            } else {
                r1
            };
            if r1.len() > 0 {
                assert(r2[r2.len() - 2] == r1.last());
                lemma_kinds_exclusive(r1.last());
            }
            assert(lines_free(r2, '\r'));
            lemma_push_settled(r2, line);
            let r3 = r2.push(line);
            assert(lines_free(r3, '\r'));
            let j = skip_blank_lines(ls, i + 1);
            lemma_skip_blank_lines(ls, i + 1);
            if j < ls.len() && !"#"@.is_prefix_of(ls[j]) {
                lemma_push_settled(r3, Seq::empty());
                let r4 = r3.push(Seq::empty());
                assert(r4[r4.len() - 2] == line);
                assert(lines_free(r4, '\r'));
                lemma_cleanup_settles(ls, j, r4);
            } else {
                lemma_cleanup_settles(ls, j, r3);
            }
        } else if is_link_bullet(line) {
            if r.len() >= 2 && r.last().len() == 0 && is_link_bullet(r[r.len() - 2]) {
                assert(skip_blank_lines(ls, i) == i);
            }
            lemma_push_settled(r, line);
            let r1 = r.push(line);
            assert(lines_free(r1, '\r'));
            let j = skip_blank_lines(ls, i + 1);
            lemma_skip_blank_lines(ls, i + 1);
            if j < ls.len() && is_link_bullet(ls[j]) {
                lemma_cleanup_settles(ls, j, r1);
            } else {
                if i + 1 < ls.len() && ls[i + 1].len() == 0 {
                    assert(skip_blank_lines(ls, i + 1) == j);
                }
                lemma_cleanup_settles(ls, i + 1, r1);
            }
        } else if line.len() == 0 {
            lemma_skip_blank_lines(ls, i + 1);
            assert(skip_blank_lines(ls, i) == skip_blank_lines(ls, i + 1));
            if r.len() == 0 || r.last().len() > 0 {
                lemma_push_settled(r, Seq::empty());
                let r1 = r.push(Seq::empty());
                if r.len() > 0 {
                    assert(r1[r1.len() - 2] == r.last());
                }
                assert(lines_free(r1, '\r'));
                lemma_cleanup_settles(ls, i + 1, r1);
            } else {
                lemma_cleanup_settles(ls, i + 1, r);
            }
        } else {
            lemma_push_settled(r, line);
            let r1 = r.push(line);
            assert(lines_free(r1, '\r'));
            lemma_cleanup_settles(ls, i + 1, r1);
        }
    }
}

#[verifier::rlimit(60)]
proof fn lemma_settled_fixed(l: Seq<Seq<char>>, i: int, r: Seq<Seq<char>>)
    requires
        settled_lines(l),
        l.len() == 0 || l.last().len() > 0,
        0 <= i <= l.len(),
        i < l.len() && is_section_heading(l[i]) ==> drop_trailing_blanks(r) == drop_trailing_blanks(l.take(i)),
        !(i < l.len() && is_section_heading(l[i])) ==> r == l.take(i),
    ensures
        cleanup_from(l, i, r) == l,
    decreases l.len() - i,
{
    if i == l.len() {
        assert(l.take(i) =~= l);
    } else {
        let line = l[i];
        lemma_kinds_exclusive(line);
        lemma_settled_at(l, i);
        assert(l.take(i + 1) =~= l.take(i).push(line));
        if i + 1 < l.len() {
            lemma_kinds_exclusive(l[i + 1]);
            lemma_settled_at(l, i + 1);
        }
        if i + 2 < l.len() {
            lemma_kinds_exclusive(l[i + 2]);
            lemma_settled_at(l, i + 2);
        }
        if is_section_heading(line) {
            let r1 = drop_trailing_blanks(r);
            if i > 0 {
                assert(l[i - 1].len() == 0 && l[i - 2].len() > 0);
                assert(l.take(i).drop_last() =~= l.take(i - 1));
                assert(l.take(i - 1).drop_last() =~= l.take(i - 2));
                assert(drop_trailing_blanks(l.take(i)) == drop_trailing_blanks(l.take(i - 1)));
                assert(drop_trailing_blanks(l.take(i - 1)) == l.take(i - 1));
                assert(l[i - 1] =~= Seq::<char>::empty());
                assert(l.take(i - 1).push(Seq::<char>::empty()) =~= l.take(i));
            } else {
                assert(l.take(0) =~= Seq::<Seq<char>>::empty());
            }
            let r2 = if r1.len() > 0 {
                r1.push(Seq::empty())
            } else {
                r1
            };
            assert(r2 == l.take(i));
            let r3 = r2.push(line);
            let j = skip_blank_lines(l, i + 1);
            lemma_skip_blank_lines(l, i + 1);
            if i + 1 == l.len() {
                lemma_settled_fixed(l, j, r3);
            } else if l[i + 1].len() > 0 {
                assert(j == i + 1);
                assert("#"@.is_prefix_of(l[i + 1]));
                lemma_settled_fixed(l, j, r3);
            } else {
                assert(i + 2 < l.len());
                assert(l[i + 2].len() > 0);
                assert(skip_blank_lines(l, i + 2) == i + 2);
                assert(j == i + 2);
                lemma_kinds_exclusive(l[i + 2]);
                assert(l[i + 1] =~= Seq::<char>::empty());
                assert(l.take(i + 2) =~= r3.push(Seq::<char>::empty()));
                if !"#"@.is_prefix_of(l[j]) {
                    lemma_settled_fixed(l, j, r3.push(Seq::empty()));
                } else {
                    assert(is_section_heading(l[i + 2]));
                    assert(l.take(i + 2).drop_last() =~= r3);
                    assert(drop_trailing_blanks(l.take(i + 2)) == drop_trailing_blanks(r3));
                    lemma_settled_fixed(l, j, r3);
                }
            }
        } else if is_link_bullet(line) {
            let r1 = r.push(line);
            let j = skip_blank_lines(l, i + 1);
            lemma_skip_blank_lines(l, i + 1);
            if j < l.len() && is_link_bullet(l[j]) {
                if i + 1 < l.len() && l[i + 1].len() == 0 {
                    assert(i + 2 < l.len());
                    assert(l[i + 2].len() > 0);
                    assert(skip_blank_lines(l, i + 2) == i + 2);
                    assert(!is_link_bullet(l[i + 2]));
                }
                assert(j == i + 1);
                lemma_settled_fixed(l, j, r1);
            } else {
                lemma_settled_fixed(l, i + 1, r1);
            }
        } else if line.len() == 0 {
            assert(line =~= Seq::<char>::empty());
            if i > 0 {
                assert(r.last() == l[i - 1]);
            }
            lemma_settled_fixed(l, i + 1, r.push(Seq::empty()));
        } else {
            lemma_settled_fixed(l, i + 1, r.push(line));
        }
    }
}

proof fn lemma_join_front(l: Seq<Seq<char>>)
    requires
        l.len() >= 2,
    ensures
        join_lines(l) == l[0] + seq!['\n'] + join_lines(l.drop_first()),
    decreases l.len(),
{
    if l.len() == 2 {
        assert(l.drop_last() =~= seq![l[0]]);
        assert(l.drop_first() =~= seq![l[1]]);
        assert(join_lines(l.drop_last()) == l[0]);
        assert(join_lines(l.drop_first()) == l[1]);
        assert(join_lines(l) == join_lines(l.drop_last()) + seq!['\n'] + l.last());
    } else {
        lemma_join_front(l.drop_last());
        assert(l.drop_last().drop_first() =~= l.drop_first().drop_last());
        assert(l.drop_first().last() == l.last());
        assert(join_lines(l.drop_first()) == join_lines(l.drop_first().drop_last()) + seq!['\n']
            + l.drop_first().last());
        assert(l.drop_last()[0] == l[0]);
        assert(join_lines(l) =~= l[0] + seq!['\n'] + join_lines(l.drop_first()));
    }
}

proof fn lemma_split_join(l: Seq<Seq<char>>)
    requires
        l.len() > 0,
        lines_free(l, '\n'),
        lines_free(l, '\r'),
    ensures
        lines_of(join_lines(l) + seq!['\n']) == l,
    decreases l.len(),
{
    reveal_strlit("\n");
    let x = l[0];
    assert(crate::textops::free_of(x, '\n')) by {
        assert forall|k: int| 0 <= k < x.len() implies x[k] != '\n' by {
            assert(l[0][k] != '\n');
        }
    }
    if x.len() > 0 {
        assert(l[0][x.len() - 1] != '\r');
    }
    assert(strip_cr(x) == x);
    let rest = l.drop_first();
    if l.len() == 1 {
        assert(join_lines(l) == x);
        assert(x + seq!['\n'] =~= x + "\n"@ + Seq::<char>::empty());
        crate::textops::lemma_lines_line_then(x, Seq::empty());
        assert(lines_of(Seq::empty()) =~= Seq::<Seq<char>>::empty());
        assert(seq![x] + Seq::<Seq<char>>::empty() =~= l);
    } else {
        lemma_join_front(l);
        assert forall|k: int, j: int| 0 <= k < rest.len() && 0 <= j < rest[k].len() implies #[trigger] rest[k][j]
            != '\n' && rest[k][j] != '\r' by {
            assert(rest[k] == l[k + 1]);
        }
        lemma_split_join(rest);
        let t = join_lines(rest) + seq!['\n'];
        assert(join_lines(l) + seq!['\n'] =~= x + "\n"@ + t);
        crate::textops::lemma_lines_line_then(x, t);
        assert(seq![x] + rest =~= l);
    }
}

proof fn lemma_lines_after_no_cr(s: Seq<char>, cur: Seq<char>)
    requires
        crate::textops::free_of(s, '\r'),
        crate::textops::free_of(cur, '\r'),
    ensures
        lines_free(lines_after(s, cur), '\r'),
    decreases s.len(),
{
    if s.len() == 0 {
        if cur.len() > 0 {
            assert(lines_after(s, cur) == seq![cur]);
            assert forall|k: int, j: int| 0 <= k < 1 && 0 <= j < seq![cur][k].len() implies #[trigger] seq![cur][k][j]
                != '\r' by {
                assert(seq![cur][k] == cur);
            }
        }
    } else if s[0] == '\n' {
        assert forall|k: int| 0 <= k < s.drop_first().len() implies s.drop_first()[k] != '\r' by {
            assert(s.drop_first()[k] == s[k + 1]);
        }
        lemma_lines_after_no_cr(s.drop_first(), Seq::empty());
        let rest = lines_after(s.drop_first(), Seq::empty());
        let all = seq![strip_cr(cur)] + rest;
        assert(lines_after(s, cur) == all);
        assert forall|k: int, j: int| 0 <= k < all.len() && 0 <= j < all[k].len() implies #[trigger] all[k][j]
            != '\r' by {
            if k == 0 {
                assert(strip_cr(cur)[j] == cur[j]);
            } else {
                assert(all[k] == rest[k - 1]);
            }
        }
    } else {
        let c2 = cur.push(s[0]);
        assert forall|k: int| 0 <= k < c2.len() implies c2[k] != '\r' by {
            if k < cur.len() {
                assert(c2[k] == cur[k]);
            }
        }
        assert forall|k: int| 0 <= k < s.drop_first().len() implies s.drop_first()[k] != '\r' by {
            assert(s.drop_first()[k] == s[k + 1]);
        }
        lemma_lines_after_no_cr(s.drop_first(), c2);
        assert(lines_after(s, cur) == lines_after(s.drop_first(), c2));
    }
}

/// Tidying the index a second time changes nothing, for text without carriage returns.
#[verifier::rlimit(60)]
pub proof fn lemma_cleanup_idempotent(content: Seq<char>)
    requires
        crate::textops::free_of(content, '\r'),
    ensures
        cleanup_spec(cleanup_spec(content)) == cleanup_spec(content),
{
    let ls = lines_of(content);
    lemma_lines_after_no_cr(content, Seq::empty());
    crate::design::normalize::lemma_lines_after_no_newline(content, Seq::empty());
    assert(tidy_lines(Seq::<Seq<char>>::empty()));
    lemma_cleanup_tidy(ls, 0, Seq::empty());
    assert(settled_lines(Seq::<Seq<char>>::empty())) by {
        reveal(settled_lines);
    }
    lemma_cleanup_settles(ls, 0, Seq::empty());
    let r = cleanup_from(ls, 0, Seq::empty());
    let l = if r.len() > 0 && r.last().len() == 0 {
        r.drop_last()
    } else {
        r
    };
    let r2 = if r.len() > 0 && r.last().len() > 0 {
        r.push(Seq::empty())
    } else {
        r
    };
    let o = join_lines(r2);
    assert(cleanup_spec(content) == o);
    lemma_settled_prefix(r, l.len() as int);
    assert(r.take(l.len() as int) =~= l);
    if l.len() > 0 && r.len() > 0 && r.last().len() == 0 {
        assert(l.last() == r[r.len() - 2]);
    }
    assert(l.len() == 0 || l.last().len() > 0);
    assert(lines_free(l, '\n') && lines_free(l, '\r')) by {
        assert forall|k: int, j: int| 0 <= k < l.len() && 0 <= j < l[k].len() implies #[trigger] l[k][j] != '\n'
            && l[k][j] != '\r' by {
            assert(l[k] == r[k]);
        }
    }
    if l.len() == 0 {
        if r.len() == 1 {
            assert(o == r[0]);
            assert(r[0] =~= Seq::<char>::empty());
        }
        assert(o =~= Seq::<char>::empty());
        assert(lines_of(o) =~= Seq::<Seq<char>>::empty());
    } else {
        if r.len() > 0 && r.last().len() == 0 {
            assert(r.last() =~= Seq::<char>::empty());
            assert(r =~= r.drop_last().push(r.last()));
        }
        assert(r2 =~= l.push(Seq::empty()));
        assert(r2.drop_last() =~= l);
        assert(o == join_lines(l) + seq!['\n'] + Seq::<char>::empty());
        assert(o =~= join_lines(l) + seq!['\n']);
        lemma_split_join(l);
    }
    assert(lines_of(o) == l);
    if l.len() > 0 && is_section_heading(l[0]) {
        assert(l.take(0) =~= Seq::<Seq<char>>::empty());
    } else {
        assert(l.take(0) =~= Seq::<Seq<char>>::empty());
    }
    lemma_settled_fixed(l, 0, Seq::empty());
    assert(cleanup_from(lines_of(o), 0, Seq::empty()) == l);
}

fn drop_blanks(r: &mut Vec<Vec<char>>)
    ensures
        final(r).deep_view() == drop_trailing_blanks(old(r).deep_view()),
{
    while r.len() > 0 && r[r.len() - 1].len() == 0
        invariant
            drop_trailing_blanks(r.deep_view()) == drop_trailing_blanks(old(r).deep_view()),
        decreases r@.len(),
    {
        proof {
            lemma_deep_view_chars(r@[r@.len() - 1]);
        }
        let ghost before = r.deep_view();
        r.pop();
        assert(r.deep_view() =~= before.drop_last());
    }
    if r.len() > 0 {
        proof {
            lemma_deep_view_chars(r@[r@.len() - 1]);
        }
    }
}

fn push_blank(r: &mut Vec<Vec<char>>)
    ensures
        final(r).deep_view() == old(r).deep_view().push(Seq::empty()),
{
    let e: Vec<char> = Vec::new();
    let ghost before = r.deep_view();
    proof {
        lemma_deep_view_chars(e);
        assert(e@ =~= Seq::<char>::empty());
    }
    r.push(e);
    assert(r.deep_view() =~= before.push(Seq::empty()));
}

fn push_line(r: &mut Vec<Vec<char>>, line: &Vec<char>)
    ensures
        final(r).deep_view() == old(r).deep_view().push(line@),
{
    let mut c: Vec<char> = Vec::new();
    push_all(&mut c, line.as_slice());
    let ghost before = r.deep_view();
    proof {
        lemma_deep_view_chars(c);
        assert(c@ =~= line@);
    }
    r.push(c);
    assert(r.deep_view() =~= before.push(line@));
}

fn first_nonblank(lines: &Vec<Vec<char>>, from: usize) -> (j: usize)
    requires
        from <= lines@.len(),
    ensures
        from <= j <= lines@.len(),
        j as int == skip_blank_lines(lines.deep_view(), from as int),
{
    proof {
        lemma_skip_blank_lines(lines.deep_view(), from as int);
    }
    let mut j = from;
    while j < lines.len() && lines[j].len() == 0
        invariant
            from <= j <= lines@.len(),
            skip_blank_lines(lines.deep_view(), from as int) == skip_blank_lines(
                lines.deep_view(),
                j as int,
            ),
        decreases lines@.len() - j,
    {
        proof {
            lemma_deep_view_chars(lines@[j as int]);
        }
        j = j + 1;
    }
    if j < lines.len() {
        proof {
            lemma_deep_view_chars(lines@[j as int]);
        }
    }
    j
}

/// Tidies the spacing of the index sections: one blank line around headings, none between
/// consecutive link bullets, no runs of blank lines, and a final line feed.
pub fn cleanup_formatting(content: &str) -> (r: String)
    ensures
        r@ == cleanup_spec(content@),
{
    let cs = chars_of(content);
    let lines = split_lines(cs.as_slice());
    let ghost ls = lines.deep_view();
    let mut result: Vec<Vec<char>> = Vec::new();
    let mut i: usize = 0;
    assert(result.deep_view() =~= Seq::<Seq<char>>::empty());
    while i < lines.len()
        invariant
            i <= lines@.len(),
            ls == lines.deep_view(),
            ls == lines_of(content@),
            cleanup_from(ls, 0, Seq::empty()) == cleanup_from(ls, i as int, result.deep_view()),
        decreases lines@.len() - i,
    {
        proof {
            assert(ls[i as int] == lines@[i as int]@);
            lemma_deep_view_chars(lines@[i as int]);
        }
        let line = &lines[i];
        let is_h2 = starts_with_str(line.as_slice(), "## ");
        let is_h3 = starts_with_str(line.as_slice(), "### ");
        if is_h2 || is_h3 {
            drop_blanks(&mut result);
            if result.len() > 0 {
                push_blank(&mut result);
            }
            push_line(&mut result, line);
            let j = first_nonblank(&lines, i + 1);
            if j < lines.len() {
                proof {
                    assert(ls[j as int] == lines@[j as int]@);
                    lemma_deep_view_chars(lines@[j as int]);
                }
                if !starts_with_str(lines[j].as_slice(), "#") {
                    push_blank(&mut result);
                }
            }
            i = j;
        } else if starts_with_str(line.as_slice(), "- [") {
            push_line(&mut result, line);
            let j = first_nonblank(&lines, i + 1);
            let mut next_bullet = false;
            if j < lines.len() {
                proof {
                    assert(ls[j as int] == lines@[j as int]@);
                    lemma_deep_view_chars(lines@[j as int]);
                }
                next_bullet = starts_with_str(lines[j].as_slice(), "- [");
            }
            if next_bullet {
                i = j;
            } else {
                i = i + 1;
            }
        } else if line.len() == 0 {
            let n = result.len();
            if n == 0 {
                push_blank(&mut result);
            } else {
                proof {
                    lemma_deep_view_chars(result@[n - 1]);
                }
                if result[n - 1].len() > 0 {
                    push_blank(&mut result);
                }
            }
            i = i + 1;
        } else {
            push_line(&mut result, line);
            i = i + 1;
        }
    }
    let n = result.len();
    if n > 0 {
        proof {
            lemma_deep_view_chars(result@[n - 1]);
        }
        if result[n - 1].len() > 0 {
            push_blank(&mut result);
        }
    }
    let v = join_with_newlines(&result);
    string_from_chars(v.as_slice())
}

} // verus!
