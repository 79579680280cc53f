//! What the table of a generated index file reads back as.

use crate::builder::helpers::{all_digits, digits_value, parse_i128_spec};
use crate::design::doc::{all_states_seq, parse_u32_spec, state_name, DocState};
use crate::design::docmeta::DesignDocV;
use crate::design::index::{index_heading, index_row, index_rows, index_sections, index_text};
use crate::design::index_sync::{row_entry, table_from, table_spec, IndexEntryV};
use crate::text::{decimal, digit_char, is_ascii_digit, zero_padded};
use crate::textops::{contains, free_of, lemma_lines_line_then, lemma_split_piece_then, lemma_trim_padded, lines_of, occurs_at, split_after, split_on, strip_cr, trimmed_text};
use vstd::prelude::*;

verus! {

/// Whether a table cell can hold `t` and give it back: no column bar, no line feed, and no
/// whitespace at either end.
pub open spec fn plain_cell(t: Seq<char>) -> bool {
    free_of(t, '|') && free_of(t, '\n') && trimmed_text(t)
}

/// Whether a document's title and date can stand in a table row and be read back.
pub open spec fn plain_row(d: DesignDocV) -> bool {
    plain_cell(d.metadata.title) && plain_cell(d.metadata.updated.text)
}

/// The table row of a document without its line feed.
pub open spec fn row_line(d: DesignDocV) -> Seq<char> {
    "| "@ + zero_padded(d.metadata.number as nat, 4) + " | "@ + d.metadata.title + " | "@
        + state_name(d.metadata.state) + " | "@ + d.metadata.updated.text + " |"@
}

/// The entry that the row of a document stands for.
pub open spec fn row_entry_of(d: DesignDocV) -> IndexEntryV {
    IndexEntryV {
        number: zero_padded(d.metadata.number as nat, 4),
        title: d.metadata.title,
        state: state_name(d.metadata.state),
        updated: d.metadata.updated.text,
    }
}

/// The entries of the documents of numbers `ns`, keyed by their number cells, each
/// written over what came before.
pub open spec fn rows_table(ns: Seq<u32>, docs: Map<u32, DesignDocV>) -> Map<
    Seq<char>,
    IndexEntryV,
>
    decreases ns.len(),
{
    if ns.len() == 0 {
        Map::empty()
    } else {
        let d = docs[ns.last()];
        rows_table(ns.drop_last(), docs).insert(row_entry_of(d).number, row_entry_of(d))
    }
}

/// The row lines of the documents of numbers `ns`.
pub open spec fn row_lines(ns: Seq<u32>, docs: Map<u32, DesignDocV>) -> Seq<Seq<char>>
    decreases ns.len(),
{
    if ns.len() == 0 {
        Seq::empty()
    } else {
        row_lines(ns.drop_last(), docs).push(row_line(docs[ns.last()]))
    }
}

proof fn lemma_decimal_digits(n: nat)
    ensures
        decimal(n).len() >= 1,
        forall|k: int| 0 <= k < decimal(n).len() ==> is_ascii_digit(#[trigger] decimal(n)[k]),
    decreases n,
{
    if n < 10 {
        assert(is_ascii_digit(digit_char(n)));
    } else {
        lemma_decimal_digits(n / 10);
        let d = decimal(n / 10);
        assert(is_ascii_digit(digit_char(n % 10)));
        assert forall|k: int| 0 <= k < decimal(n).len() implies is_ascii_digit(
            #[trigger] decimal(n)[k],
        ) by {
            if k < d.len() {
                assert(decimal(n)[k] == d[k]);
            }
        }
    }
}

proof fn lemma_padded_digits(n: nat)
    ensures
        zero_padded(n, 4).len() >= 4,
        forall|k: int|
            0 <= k < zero_padded(n, 4).len() ==> is_ascii_digit(#[trigger] zero_padded(n, 4)[k]),
{
    lemma_decimal_digits(n);
    let d = decimal(n);
    if d.len() < 4 {
        let pad = Seq::new((4 - d.len()) as nat, |i: int| '0');
        assert forall|k: int| 0 <= k < zero_padded(n, 4).len() implies is_ascii_digit(
            #[trigger] zero_padded(n, 4)[k],
        ) by {
            if k < pad.len() {
                assert(zero_padded(n, 4)[k] == '0');
            } else {
                assert(zero_padded(n, 4)[k] == d[k - pad.len()]);
            }
        }
    }
}

/// A digit string can stand in a table cell.
proof fn lemma_digits_plain(s: Seq<char>)
    requires
        forall|k: int| 0 <= k < s.len() ==> is_ascii_digit(#[trigger] s[k]),
    ensures
        plain_cell(s),
{
    assert forall|k: int| 0 <= k < s.len() implies s[k] != '|' && s[k] != '\n' by {
        assert(is_ascii_digit(s[k]));
    }
    if s.len() > 0 {
        assert(is_ascii_digit(s[0]));
        assert(is_ascii_digit(s[s.len() - 1]));
    }
}

/// Every state name can stand in a table cell.
proof fn lemma_state_name_plain(st: DocState)
    ensures
        plain_cell(state_name(st)),
{
    reveal_strlit("Draft");
    reveal_strlit("Under Review");
    reveal_strlit("Revised");
    reveal_strlit("Accepted");
    reveal_strlit("Active");
    reveal_strlit("Final");
    reveal_strlit("Deferred");
    reveal_strlit("Rejected");
    reveal_strlit("Withdrawn");
    reveal_strlit("Superseded");
    let s = state_name(st);
    assert forall|k: int| 0 <= k < s.len() implies s[k] != '|' && s[k] != '\n' by {
        assert(65 <= (s[k] as u32) <= 122 || s[k] == ' ');
    }
    assert(65 <= (s[0] as u32) <= 122);
    assert(65 <= (s.last() as u32) <= 122);
}

/// Whether every column bar of `s` but a leading one follows a space.
pub open spec fn bars_after_space(s: Seq<char>) -> bool {
    forall|p: int| 0 < p < s.len() && #[trigger] s[p] == '|' ==> s[p - 1] == ' '
}

proof fn lemma_bars_concat(a: Seq<char>, b: Seq<char>)
    requires
        bars_after_space(a),
        bars_after_space(b),
        b.len() > 0 && b[0] == '|' ==> a.len() > 0 && a.last() == ' ',
    ensures
        bars_after_space(a + b),
{
    let ab = a + b;
    assert forall|p: int| 0 < p < ab.len() && #[trigger] ab[p] == '|' implies ab[p - 1] == ' ' by {
        if p < a.len() {
            assert(ab[p] == a[p]);
            assert(ab[p - 1] == a[p - 1]);
        } else if p == a.len() {
            assert(ab[p] == b[0]);
            assert(ab[p - 1] == a.last());
        } else {
            assert(ab[p] == b[p - a.len()]);
            assert(ab[p - 1] == b[p - 1 - a.len()]);
        }
    }
}

proof fn lemma_free_concat(a: Seq<char>, b: Seq<char>, c: char)
    requires
        free_of(a, c),
        free_of(b, c),
    ensures
        free_of(a + b, c),
{
    assert forall|k: int| 0 <= k < (a + b).len() implies (a + b)[k] != c by {
        if k < a.len() {
            assert((a + b)[k] == a[k]);
        } else {
            assert((a + b)[k] == b[k - a.len()]);
        }
    }
}

/// A cell as a row writes it: the text with a space on each side.
pub open spec fn padded(x: Seq<char>) -> Seq<char> {
    seq![' '] + x + seq![' ']
}

/// Four cells between column bars.
pub open spec fn bar_row(a: Seq<char>, b: Seq<char>, c: Seq<char>, d: Seq<char>) -> Seq<char> {
    seq!['|'] + padded(a) + seq!['|'] + padded(b) + seq!['|'] + padded(c) + seq!['|'] + padded(d)
        + seq!['|']
}

proof fn lemma_padded_cell(x: Seq<char>)
    requires
        plain_cell(x),
    ensures
        free_of(padded(x), '\n'),
        free_of(padded(x), '|'),
        bars_after_space(padded(x)),
        padded(x)[0] == ' ',
        padded(x).last() == ' ',
{
    let sp = seq![' '];
    assert(free_of(sp, '\n') && free_of(sp, '|'));
    lemma_free_concat(sp, x, '\n');
    lemma_free_concat(sp + x, sp, '\n');
    lemma_free_concat(sp, x, '|');
    lemma_free_concat(sp + x, sp, '|');
}

#[verifier::spinoff_prover]
proof fn lemma_bar_row_text(a: Seq<char>, b: Seq<char>, c: Seq<char>, d: Seq<char>)
    requires
        plain_cell(a),
        plain_cell(b),
        plain_cell(c),
        plain_cell(d),
    ensures
        free_of(bar_row(a, b, c, d), '\n'),
        bars_after_space(bar_row(a, b, c, d)),
        bar_row(a, b, c, d)[0] == '|',
        bar_row(a, b, c, d).last() == '|',
        a.len() > 0 ==> bar_row(a, b, c, d)[2] == a[0],
{
    lemma_padded_cell(a);
    lemma_padded_cell(b);
    lemma_padded_cell(c);
    lemma_padded_cell(d);
    let bar = seq!['|'];
    assert(free_of(bar, '\n'));
    assert(bars_after_space(bar));
    let p1 = bar + padded(a);
    lemma_bars_concat(bar, padded(a));
    lemma_free_concat(bar, padded(a), '\n');
    let p2 = p1 + bar;
    lemma_bars_concat(p1, bar);
    lemma_free_concat(p1, bar, '\n');
    let p3 = p2 + padded(b);
    lemma_bars_concat(p2, padded(b));
    lemma_free_concat(p2, padded(b), '\n');
    let p4 = p3 + bar;
    lemma_bars_concat(p3, bar);
    lemma_free_concat(p3, bar, '\n');
    let p5 = p4 + padded(c);
    lemma_bars_concat(p4, padded(c));
    lemma_free_concat(p4, padded(c), '\n');
    let p6 = p5 + bar;
    lemma_bars_concat(p5, bar);
    lemma_free_concat(p5, bar, '\n');
    let p7 = p6 + padded(d);
    lemma_bars_concat(p6, padded(d));
    lemma_free_concat(p6, padded(d), '\n');
    lemma_bars_concat(p7, bar);
    lemma_free_concat(p7, bar, '\n');
    assert(p7 + bar == bar_row(a, b, c, d));
    if a.len() > 0 {
        assert(p1[2] == padded(a)[1]);
        assert(padded(a)[1] == a[0]);
        assert(bar_row(a, b, c, d)[2] == p1[2]);
    }
}

/// A bar row read from the left: an empty piece, then each cell followed by a bar.
pub open spec fn bar_row_nested(a: Seq<char>, b: Seq<char>, c: Seq<char>, d: Seq<char>) -> Seq<
    char,
> {
    let bar = seq!['|'];
    let e = Seq::<char>::empty();
    e + bar + (padded(a) + bar + (padded(b) + bar + (padded(c) + bar + (padded(d) + bar + e))))
}

proof fn lemma_bar_row_nested(a: Seq<char>, b: Seq<char>, c: Seq<char>, d: Seq<char>)
    ensures
        bar_row(a, b, c, d) == bar_row_nested(a, b, c, d),
{
    assert(bar_row(a, b, c, d) =~= bar_row_nested(a, b, c, d));
}

proof fn lemma_bar_row_cells(a: Seq<char>, b: Seq<char>, c: Seq<char>, d: Seq<char>)
    requires
        plain_cell(a),
        plain_cell(b),
        plain_cell(c),
        plain_cell(d),
    ensures
        split_on(bar_row(a, b, c, d), '|') == seq![
            Seq::<char>::empty(),
            padded(a),
            padded(b),
            padded(c),
            padded(d),
            Seq::<char>::empty(),
        ],
{
    lemma_padded_cell(a);
    lemma_padded_cell(b);
    lemma_padded_cell(c);
    lemma_padded_cell(d);
    lemma_bar_row_nested(a, b, c, d);
    let bar = seq!['|'];
    let e = Seq::<char>::empty();
    let t4 = padded(d) + bar + e;
    let t3 = padded(c) + bar + t4;
    let t2 = padded(b) + bar + t3;
    let t1 = padded(a) + bar + t2;
    assert(free_of(e, '|'));
    lemma_split_piece_then(padded(d), e, '|');
    lemma_split_piece_then(padded(c), t4, '|');
    lemma_split_piece_then(padded(b), t3, '|');
    lemma_split_piece_then(padded(a), t2, '|');
    lemma_split_piece_then(e, t1, '|');
    assert(split_after(e, '|', e) == seq![e]);
    assert(split_on(bar_row(a, b, c, d), '|') =~= seq![
        e,
        padded(a),
        padded(b),
        padded(c),
        padded(d),
        e,
    ]);
}

/// The row of a document is the bar row of its four cells.
proof fn lemma_row_line_cells(d: DesignDocV)
    ensures
        row_line(d) == bar_row(
            zero_padded(d.metadata.number as nat, 4),
            d.metadata.title,
            state_name(d.metadata.state),
            d.metadata.updated.text,
        ),
{
    reveal_strlit("| ");
    reveal_strlit(" | ");
    reveal_strlit(" |");
    assert(row_line(d) =~= bar_row(
        zero_padded(d.metadata.number as nat, 4),
        d.metadata.title,
        state_name(d.metadata.state),
        d.metadata.updated.text,
    ));
}

/// What the row of a document is made of, in the terms its reading needs.
proof fn lemma_row_line(d: DesignDocV)
    requires
        plain_row(d),
    ensures
        free_of(row_line(d), '\n'),
        strip_cr(row_line(d)) == row_line(d),
        "|"@.is_prefix_of(row_line(d)),
        !"| Number | Title"@.is_prefix_of(row_line(d)),
        !contains(row_line(d), "---|"@),
        row_entry(row_line(d)) == Some(row_entry_of(d)),
{
    reveal_strlit("|");
    reveal_strlit("| Number | Title");
    reveal_strlit("---|");
    reveal_strlit("Number");
    let z = zero_padded(d.metadata.number as nat, 4);
    let t = d.metadata.title;
    let st = state_name(d.metadata.state);
    let u = d.metadata.updated.text;
    lemma_padded_digits(d.metadata.number as nat);
    lemma_digits_plain(z);
    lemma_state_name_plain(d.metadata.state);
    lemma_row_line_cells(d);
    lemma_bar_row_text(z, t, st, u);
    lemma_bar_row_cells(z, t, st, u);
    let line = row_line(d);
    assert(is_ascii_digit(z[0]));
    if "| Number | Title"@.is_prefix_of(line) {
        assert(line[2] == "| Number | Title"@[2]);
    }
    if contains(line, "---|"@) {
        let i = choose|i: int| occurs_at(line, "---|"@, i);
        assert(line.subrange(i, i + 4)[3] == '|');
        assert(line[i + 3] == '|');
        assert(line.subrange(i, i + 4)[2] == '-');
        assert(line[i + 2] == '-');
    }
    assert(line.subrange(0, 1) =~= "|"@);
    lemma_trim_padded(z);
    lemma_trim_padded(t);
    lemma_trim_padded(st);
    lemma_trim_padded(u);
    assert(z != "Number"@) by {
        assert("Number"@[0] == 'N');
    }
}

proof fn lemma_index_row(d: DesignDocV)
    ensures
        index_row(d) == row_line(d) + "\n"@,
{
    reveal_strlit("| ");
    reveal_strlit(" | ");
    reveal_strlit(" |");
    reveal_strlit(" |\n");
    reveal_strlit("\n");
    assert(index_row(d) =~= row_line(d) + "\n"@);
}

proof fn lemma_row_lines_index(ns: Seq<u32>, docs: Map<u32, DesignDocV>)
    ensures
        row_lines(ns, docs).len() == ns.len(),
        forall|i: int| 0 <= i < ns.len() ==> #[trigger] row_lines(ns, docs)[i] == row_line(docs[ns[i]]),
    decreases ns.len(),
{
    if ns.len() > 0 {
        lemma_row_lines_index(ns.drop_last(), docs);
        assert forall|i: int| 0 <= i < ns.len() implies #[trigger] row_lines(ns, docs)[i] == row_line(
            docs[ns[i]],
        ) by {
            if i < ns.len() - 1 {
                assert(ns.drop_last()[i] == ns[i]);
            }
        }
    }
}

/// The rows of documents whose cells can be read back are lines of their own.
proof fn lemma_rows_lines(ns: Seq<u32>, docs: Map<u32, DesignDocV>, t: Seq<char>)
    requires
        forall|i: int| 0 <= i < ns.len() ==> plain_row(#[trigger] docs[ns[i]]),
    ensures
        lines_of(index_rows(ns, docs) + t) == row_lines(ns, docs) + lines_of(t),
    decreases ns.len(),
{
    if ns.len() == 0 {
        assert(index_rows(ns, docs) + t =~= t);
        assert(row_lines(ns, docs) + lines_of(t) =~= lines_of(t));
    } else {
        let d = docs[ns.last()];
        let front = ns.drop_last();
        assert forall|i: int| 0 <= i < front.len() implies plain_row(#[trigger] docs[front[i]]) by {
            assert(front[i] == ns[i]);
        }
        assert(plain_row(docs[ns[ns.len() - 1]]));
        lemma_index_row(d);
        let rest = index_row(d) + t;
        lemma_rows_lines(front, docs, rest);
        assert(index_rows(ns, docs) + t =~= index_rows(front, docs) + rest);
        lemma_row_line(d);
        assert(rest =~= row_line(d) + "\n"@ + t);
        lemma_lines_line_then(row_line(d), t);
        assert(row_lines(front, docs) + (seq![row_line(d)] + lines_of(t)) =~= row_lines(
            front,
            docs,
        ).push(row_line(d)) + lines_of(t));
    }
}

/// The lines that open a generated index, up to its table rows.
pub open spec fn heading_lines() -> Seq<Seq<char>> {
    seq![
        "# Design Document Index"@,
        Seq::empty(),
        "This index is automatically generated. Do not edit manually."@,
        Seq::empty(),
        "## All Documents by Number"@,
        Seq::empty(),
        "| Number | Title | State | Updated |"@,
        "|--------|-------|-------|----------|"@,
    ]
}

#[verifier::spinoff_prover]
proof fn lemma_heading_lines(t: Seq<char>)
    ensures
        lines_of(index_heading() + t) == heading_lines() + lines_of(t),
{
    reveal_strlit("# Design Document Index\n\nThis index is automatically generated. Do not edit manually.\n\n## All Documents by Number\n\n| Number | Title | State | Updated |\n|--------|-------|-------|----------|\n");
    reveal_strlit("# Design Document Index");
    reveal_strlit("This index is automatically generated. Do not edit manually.");
    reveal_strlit("## All Documents by Number");
    reveal_strlit("| Number | Title | State | Updated |");
    reveal_strlit("|--------|-------|-------|----------|");
    reveal_strlit("\n");
    let hs = heading_lines();
    let nl = "\n"@;
    let t7 = hs[7] + nl + t;
    let t6 = hs[6] + nl + t7;
    let t5 = hs[5] + nl + t6;
    let t4 = hs[4] + nl + t5;
    let t3 = hs[3] + nl + t4;
    let t2 = hs[2] + nl + t3;
    let t1 = hs[1] + nl + t2;
    let t0 = hs[0] + nl + t1;
    assert(index_heading() + t =~= t0);
    lemma_lines_line_then(hs[7], t);
    lemma_lines_line_then(hs[6], t7);
    lemma_lines_line_then(hs[5], t6);
    lemma_lines_line_then(hs[4], t5);
    lemma_lines_line_then(hs[3], t4);
    lemma_lines_line_then(hs[2], t3);
    lemma_lines_line_then(hs[1], t2);
    lemma_lines_line_then(hs[0], t1);
    assert(lines_of(t0) =~= hs + lines_of(t));
}

/// Reading passes the heading of a generated index and stands at its first row, inside the
/// table and past its separator.
proof fn lemma_table_head(ls: Seq<Seq<char>>)
    requires
        ls.len() >= 8,
        ls.subrange(0, 8) == heading_lines(),
    ensures
        table_from(ls, 0, false, false, Map::empty()) == table_from(
            ls,
            8,
            true,
            true,
            Map::empty(),
        ),
{
    reveal_strlit("# Design Document Index");
    reveal_strlit("This index is automatically generated. Do not edit manually.");
    reveal_strlit("## All Documents by Number");
    reveal_strlit("| Number | Title | State | Updated |");
    reveal_strlit("|--------|-------|-------|----------|");
    reveal_strlit("| Number | Title");
    reveal_strlit("---|");
    let hs = heading_lines();
    let head = "| Number | Title"@;
    let m = Map::<Seq<char>, IndexEntryV>::empty();
    assert forall|k: int| 0 <= k < 8 implies ls[k] == #[trigger] hs[k] by {
        assert(ls[k] == ls.subrange(0, 8)[k]);
    }
    assert(!head.is_prefix_of(ls[0])) by {
        assert(ls[0][0] != head[0]);
    }
    assert(!head.is_prefix_of(ls[1]));
    assert(!head.is_prefix_of(ls[2])) by {
        assert(ls[2][0] != head[0]);
    }
    assert(!head.is_prefix_of(ls[3]));
    assert(!head.is_prefix_of(ls[4])) by {
        assert(ls[4][0] != head[0]);
    }
    assert(!head.is_prefix_of(ls[5]));
    assert(head.is_prefix_of(ls[6])) by {
        assert(ls[6].subrange(0, head.len() as int) =~= head);
    }
    assert(!head.is_prefix_of(ls[7])) by {
        assert(ls[7][1] != head[1]);
    }
    assert(contains(ls[7], "---|"@)) by {
        assert(ls[7].subrange(6, 10) =~= "---|"@);
        assert(occurs_at(ls[7], "---|"@, 6));
    }
    assert(table_from(ls, 0, false, false, m) == table_from(ls, 1, false, false, m));
    assert(table_from(ls, 1, false, false, m) == table_from(ls, 2, false, false, m));
    assert(table_from(ls, 2, false, false, m) == table_from(ls, 3, false, false, m));
    assert(table_from(ls, 3, false, false, m) == table_from(ls, 4, false, false, m));
    assert(table_from(ls, 4, false, false, m) == table_from(ls, 5, false, false, m));
    assert(table_from(ls, 5, false, false, m) == table_from(ls, 6, false, false, m));
    assert(table_from(ls, 6, false, false, m) == table_from(ls, 7, true, false, m));
    assert(table_from(ls, 7, true, false, m) == table_from(ls, 8, true, true, m));
}

/// Reading the rows from row `j` on adds each document's entry and stops at the blank
/// line after the table.
proof fn lemma_table_rows(
    ls: Seq<Seq<char>>,
    base: int,
    ns: Seq<u32>,
    docs: Map<u32, DesignDocV>,
    j: int,
)
    requires
        0 <= base,
        0 <= j <= ns.len(),
        base + ns.len() < ls.len(),
        forall|i: int| 0 <= i < ns.len() ==> ls[base + i] == row_line(#[trigger] docs[ns[i]]),
        forall|i: int| 0 <= i < ns.len() ==> plain_row(#[trigger] docs[ns[i]]),
        ls[base + ns.len()] == Seq::<char>::empty(),
    ensures
        table_from(ls, base + j, true, true, rows_table(ns.take(j), docs)) == rows_table(ns, docs),
    decreases ns.len() - j,
{
    reveal_strlit("| Number | Title");
    reveal_strlit("---|");
    reveal_strlit("|");
    if j == ns.len() {
        assert(ns.take(j) =~= ns);
        let line = ls[base + j];
        assert(!"| Number | Title"@.is_prefix_of(line));
        assert(!contains(line, "---|"@));
        assert(!"|"@.is_prefix_of(line));
    } else {
        let d = docs[ns[j]];
        assert(plain_row(docs[ns[j]]));
        assert(ls[base + j] == row_line(docs[ns[j]]));
        lemma_row_line(d);
        assert(ns.take(j + 1).drop_last() =~= ns.take(j));
        assert(ns.take(j + 1).last() == ns[j]);
        let e = row_entry_of(d);
        assert(rows_table(ns.take(j + 1), docs) == rows_table(ns.take(j), docs).insert(e.number, e));
        assert(table_from(ls, base + j, true, true, rows_table(ns.take(j), docs)) == table_from(
            ls,
            base + j + 1,
            true,
            true,
            rows_table(ns.take(j + 1), docs),
        ));
        lemma_table_rows(ls, base, ns, docs, j + 1);
    }
}

/// Reading back the table of a generated index gives each document's number cell, title,
/// state name and updated date, in number order, as long as no title or date holds a
/// column bar or a line feed or has whitespace at either end.
pub proof fn lemma_index_table_round_trip(
    ns: Seq<u32>,
    docs: Map<u32, DesignDocV>,
    docs_dir: Seq<char>,
)
    requires
        forall|i: int| 0 <= i < ns.len() ==> plain_row(#[trigger] docs[ns[i]]),
    ensures
        table_spec(index_text(ns, docs, docs_dir)) == rows_table(ns, docs),
{
    reveal_strlit("\n## Documents by State\n");
    reveal_strlit("## Documents by State\n");
    reveal_strlit("\n");
    let sections = index_sections(all_states_seq(), ns, docs, docs_dir);
    let after = "## Documents by State\n"@ + sections;
    let rest = "\n## Documents by State\n"@ + sections;
    let e = Seq::<char>::empty();
    assert(rest =~= e + "\n"@ + after);
    assert(free_of(e, '\n'));
    lemma_lines_line_then(e, after);
    lemma_rows_lines(ns, docs, rest);
    lemma_heading_lines(index_rows(ns, docs) + rest);
    let text = index_text(ns, docs, docs_dir);
    assert(text =~= index_heading() + (index_rows(ns, docs) + rest));
    let ls = lines_of(text);
    let rl = row_lines(ns, docs);
    lemma_row_lines_index(ns, docs);
    assert(strip_cr(e) == e);
    assert(ls == heading_lines() + (rl + (seq![e] + lines_of(after))));
    assert(ls.subrange(0, 8) =~= heading_lines());
    assert forall|i: int| 0 <= i < ns.len() implies ls[8 + i] == row_line(#[trigger] docs[ns[i]]) by {
        assert(ls[8 + i] == rl[i]);
    }
    assert(ls[8 + ns.len() as int] == e);
    lemma_table_head(ls);
    assert(ns.take(0) =~= Seq::<u32>::empty());
    lemma_table_rows(ls, 8, ns, docs, 0);
}

proof fn lemma_decimal_value(n: nat)
    ensures
        digits_value(decimal(n)) == n,
    decreases n,
{
    let d = decimal(n);
    if n >= 10 {
        lemma_decimal_value(n / 10);
        assert(d.drop_last() == decimal(n / 10));
        assert(d.last() == digit_char(n % 10));
        assert((digit_char(n % 10) as u32) == 48 + n % 10);
        assert(digits_value(d) == digits_value(decimal(n / 10)) * 10 + (n % 10));
        assert(n == (n / 10) * 10 + n % 10);
    } else {
        assert(d =~= seq![digit_char(n)]);
        assert(d.drop_last() =~= Seq::<char>::empty());
        assert(d.last() == digit_char(n));
        assert((digit_char(n) as u32) == 48 + n);
        assert(digits_value(d) == digits_value(d.drop_last()) * 10 + ((d.last() as u32) as int - 48));
    }
}

proof fn lemma_zeros_value(z: Seq<char>, s: Seq<char>)
    requires
        forall|k: int| 0 <= k < z.len() ==> #[trigger] z[k] == '0',
    ensures
        digits_value(z + s) == digits_value(s),
    decreases z.len() + s.len(),
{
    if s.len() > 0 {
        assert((z + s).drop_last() =~= z + s.drop_last());
        assert((z + s).last() == s.last());
        lemma_zeros_value(z, s.drop_last());
    } else if z.len() > 0 {
        assert(z + s =~= z);
        assert(z.drop_last() + s =~= z.drop_last());
        assert(z.last() == '0');
        lemma_zeros_value(z.drop_last(), s);
    } else {
        assert(z + s =~= s);
    }
}

/// A document number written with four digits reads back as the same number.
pub proof fn lemma_number_cell_reads_back(n: u32)
    ensures
        parse_u32_spec(zero_padded(n as nat, 4)) == Some(n),
{
    let z = zero_padded(n as nat, 4);
    let d = decimal(n as nat);
    lemma_padded_digits(n as nat);
    lemma_decimal_value(n as nat);
    if d.len() < 4 {
        let pad = Seq::new((4 - d.len()) as nat, |i: int| '0');
        lemma_zeros_value(pad, d);
        assert(z == pad + d);
    }
    assert(digits_value(z) == n);
    assert(all_digits(z));
    assert(is_ascii_digit(z[0]));
    assert(z[0] != '-' && z[0] != '+');
    assert(parse_i128_spec(z) == Some(n as i128));
}

/// The entry of a number's cell after the rows of `ns`: the last document of that number.
proof fn lemma_rows_table_lookup(ns: Seq<u32>, docs: Map<u32, DesignDocV>)
    requires
        forall|i: int| 0 <= i < ns.len() ==> (#[trigger] docs[ns[i]]).metadata.number == ns[i],
    ensures
        forall|i: int| #![trigger ns[i]]
            0 <= i < ns.len() ==> rows_table(ns, docs).contains_key(
                zero_padded(ns[i] as nat, 4),
            ) && rows_table(ns, docs)[zero_padded(ns[i] as nat, 4)] == row_entry_of(docs[ns[i]]),
        forall|k: Seq<char>| #[trigger]
            rows_table(ns, docs).contains_key(k) ==> exists|i: int|
                0 <= i < ns.len() && k == zero_padded(#[trigger] ns[i] as nat, 4),
    decreases ns.len(),
{
    if ns.len() > 0 {
        let front = ns.drop_last();
        assert forall|i: int| 0 <= i < front.len() implies (#[trigger] docs[front[i]]).metadata.number
            == front[i] by {
            assert(front[i] == ns[i]);
        }
        lemma_rows_table_lookup(front, docs);
        assert(docs[ns[ns.len() - 1]].metadata.number == ns[ns.len() - 1]);
        let last = ns.last();
        lemma_number_cell_reads_back(last);
        assert forall|i: int| #![trigger ns[i]]
            0 <= i < ns.len() implies rows_table(ns, docs).contains_key(
                zero_padded(ns[i] as nat, 4),
            ) && rows_table(ns, docs)[zero_padded(ns[i] as nat, 4)] == row_entry_of(
                docs[ns[i]],
            ) by {
            lemma_number_cell_reads_back(ns[i]);
            if i == ns.len() - 1 {
                assert(ns[i] == last);
            } else {
                assert(front[i] == ns[i]);
                if zero_padded(ns[i] as nat, 4) == zero_padded(last as nat, 4) {
                    assert(ns[i] == last);
                }
            }
        }
        assert forall|k: Seq<char>| #[trigger]
            rows_table(ns, docs).contains_key(k) implies exists|i: int|
                0 <= i < ns.len() && k == zero_padded(#[trigger] ns[i] as nat, 4) by {
            if k == zero_padded(last as nat, 4) {
                assert(ns[ns.len() - 1] == last);
            } else {
                assert(rows_table(front, docs).contains_key(k));
                let i = choose|i: int| 0 <= i < front.len() && k == zero_padded(#[trigger] front[i] as nat, 4);
                assert(front[i] == ns[i]);
            }
        }
    }
}

/// Reading back the table of a generated index whose documents stand under their own
/// numbers finds each document under its number written with four digits, with its title, state name and updated date, and nothing
/// else, as long as no title or date holds a column bar or a line feed or has whitespace
/// at either end.
pub proof fn lemma_index_table_entries(ns: Seq<u32>, docs: Map<u32, DesignDocV>, docs_dir: Seq<char>)
    requires
        forall|i: int| 0 <= i < ns.len() ==> plain_row(#[trigger] docs[ns[i]]),
        forall|i: int| 0 <= i < ns.len() ==> (#[trigger] docs[ns[i]]).metadata.number == ns[i],
    ensures
        forall|i: int| #![trigger ns[i]]
            0 <= i < ns.len() ==> table_spec(index_text(ns, docs, docs_dir)).contains_key(
                zero_padded(ns[i] as nat, 4),
            ) && table_spec(index_text(ns, docs, docs_dir))[zero_padded(ns[i] as nat, 4)]
                == row_entry_of(docs[ns[i]]),
        forall|k: Seq<char>| #[trigger]
            table_spec(index_text(ns, docs, docs_dir)).contains_key(k) ==> exists|i: int|
                0 <= i < ns.len() && k == zero_padded(#[trigger] ns[i] as nat, 4),
{
    lemma_index_table_round_trip(ns, docs, docs_dir);
    lemma_rows_table_lookup(ns, docs);
}

} // verus!
