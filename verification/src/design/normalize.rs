//! Markdown normalization: bullets, spacing, headings, trailing whitespace and
//! frontmatter removal.

use crate::pattern::{regex_compiles, regex_replace, regex_replace_all, replace, replace_all};
use crate::text::{chars_of, is_whitespace, string_from_chars};
use crate::textops::{contains, find, find_from, join_lines, lines_after, strip_cr, join_with_newlines, lemma_deep_view_chars, lines_of, skip_whitespace, split_lines, starts_with_str, trim, trim_end, trim_start, trimmed, trimmed_end};
use crate::design::index_sync::{lemma_nonblank_front, lemma_nonblank_push, nonblank_lines};
use vstd::prelude::*;

verus! {

/// The pattern of a `*` or `+` bullet.
pub open spec fn bullet_pattern() -> Seq<char> {
    "^(\\s*)[\\*\\+]\\s"@
}

/// The replacement that turns such a bullet into `-`.
pub open spec fn bullet_replacement() -> Seq<char> {
    "${1}- "@
}

/// The pattern of three or more line feeds in a row.
pub open spec fn blank_run_pattern() -> Seq<char> {
    "\\n{3,}"@
}

/// Each line with its `*`/`+` bullet turned into `-`.
pub open spec fn bullets_spec(content: Seq<char>) -> Seq<char> {
    if regex_compiles(bullet_pattern()) {
        join_lines(
            lines_of(content).map_values(
                |l: Seq<char>| regex_replace(bullet_pattern(), l, bullet_replacement()),
            ),
        )
    } else {
        content
    }
}

/// Runs of three or more line feeds shortened to two.
pub open spec fn spacing_spec(content: Seq<char>) -> Seq<char> {
    if regex_compiles(blank_run_pattern()) {
        regex_replace_all(blank_run_pattern(), content, "\n\n"@)
    } else {
        content
    }
}

/// Each line without its trailing whitespace.
pub open spec fn trim_lines_spec(content: Seq<char>) -> Seq<char> {
    join_lines(lines_of(content).map_values(|l: Seq<char>| trim_end(l)))
}

/// Whether a line is a heading: it starts with `#` once trimmed.
pub open spec fn is_heading_line(l: Seq<char>) -> bool {
    "#"@.is_prefix_of(trim(l))
}

/// The lines from index `i` on, added to `acc` with a blank line before each heading that
/// follows a non-blank line and after each heading that a text line follows.
pub open spec fn headings_from(ls: Seq<Seq<char>>, i: int, acc: Seq<Seq<char>>) -> Seq<
    Seq<char>,
>
    decreases ls.len() - i,
{
    if i < 0 || i >= ls.len() {
        acc
    } else {
        let line = ls[i];
        let acc2 = if is_heading_line(line) {
            let before = if i > 0 && acc.len() > 0 && acc.last().len() > 0 {
                acc.push(Seq::empty())
            } else {
                acc
            };
            let with_line = before.push(line);
            if i < ls.len() - 1 && trim(ls[i + 1]).len() > 0 && !is_heading_line(ls[i + 1]) {
                with_line.push(Seq::empty())
            } else {
                with_line
            }
        } else {
            acc.push(line)
        };
        headings_from(ls, i + 1, acc2)
    }
}

/// Headings set apart from the surrounding text by blank lines.
pub open spec fn headings_spec(content: Seq<char>) -> Seq<char> {
    join_lines(headings_from(lines_of(content), 0, Seq::empty()))
}

/// Headings stand apart in lines `h`: a heading that is not the first line follows an
/// empty line, and the line after a heading holds nothing but whitespace.
pub open spec fn headings_apart(h: Seq<Seq<char>>) -> bool {
    &&& forall|k: int| 0 < k < h.len() && is_heading_line(#[trigger] h[k]) ==> h[k - 1].len() == 0
    &&& forall|k: int| 0 <= k < h.len() - 1 && is_heading_line(#[trigger] h[k]) ==> trim(h[k + 1]).len() == 0
}

/// No line of `h` holds a line feed.
pub open spec fn lines_without_feeds(h: Seq<Seq<char>>) -> bool {
    forall|k: int, j: int| 0 <= k < h.len() && 0 <= j < h[k].len() ==> #[trigger] h[k][j] != '\n'
}

proof fn lemma_push_apart(h: Seq<Seq<char>>, x: Seq<char>)
    requires
        headings_apart(h),
        lines_without_feeds(h),
        forall|j: int| 0 <= j < x.len() ==> #[trigger] x[j] != '\n',
        is_heading_line(x) && h.len() > 0 ==> h.last().len() == 0,
        h.len() > 0 && is_heading_line(h.last()) ==> trim(x).len() == 0,
    ensures
        headings_apart(h.push(x)),
        lines_without_feeds(h.push(x)),
{
    let g = h.push(x);
    assert(g[h.len() as int] == x);
    assert forall|k: int| 0 <= k < h.len() implies #[trigger] g[k] == h[k] by {}
    assert forall|k: int| 0 < k < g.len() && is_heading_line(#[trigger] g[k]) implies g[k - 1].len() == 0 by {
        assert(g[k - 1] == h[k - 1]);
    }
    assert forall|k: int| 0 <= k < g.len() - 1 && is_heading_line(#[trigger] g[k]) implies trim(g[k + 1]).len() == 0 by {
        assert(g[k] == h[k]);
    }
    assert forall|k: int, j: int| 0 <= k < g.len() && 0 <= j < g[k].len() implies #[trigger] g[k][j] != '\n' by {
        if k < h.len() {
            assert(g[k] == h[k]);
        }
    }
}

proof fn lemma_headings_from(ls: Seq<Seq<char>>, i: int, acc: Seq<Seq<char>>)
    requires
        0 <= i <= ls.len(),
        headings_apart(acc),
        lines_without_feeds(acc),
        lines_without_feeds(ls),
        i == 0 ==> acc.len() == 0,
        i > 0 ==> acc.len() > 0,
        acc.len() > 0 && is_heading_line(acc.last()) ==> (i == ls.len() || trim(ls[i]).len() == 0
            || is_heading_line(ls[i])),
    ensures
        headings_apart(headings_from(ls, i, acc)),
        lines_without_feeds(headings_from(ls, i, acc)),
        nonblank_lines(headings_from(ls, i, acc)) == nonblank_lines(acc) + nonblank_lines(ls.skip(i)),
    decreases ls.len() - i,
{
    if i >= ls.len() {
        assert(ls.skip(i) =~= Seq::<Seq<char>>::empty());
        assert(nonblank_lines(acc) + nonblank_lines(ls.skip(i)) =~= nonblank_lines(acc));
    } else {
        let line = ls[i];
        assert forall|j: int| 0 <= j < line.len() implies #[trigger] line[j] != '\n' by {
            assert(ls[i][j] != '\n');
        }
        lemma_nonblank_front(ls, i);
        crate::textops::lemma_trim_len(line);
        let e = Seq::<char>::empty();
        assert(trim(e) =~= e);
        if is_heading_line(line) {
            reveal_strlit("#");
            assert(trim(line).len() > 0);
            let before = if i > 0 && acc.len() > 0 && acc.last().len() > 0 {
                lemma_push_apart(acc, e);
                lemma_nonblank_push(acc, e);
                acc.push(e)
            } else {
                acc
            };
            assert(nonblank_lines(before) == nonblank_lines(acc));
            lemma_push_apart(before, line);
            lemma_nonblank_push(before, line);
            let with_line = before.push(line);
            if i < ls.len() - 1 && trim(ls[i + 1]).len() > 0 && !is_heading_line(ls[i + 1]) {
                lemma_push_apart(with_line, e);
                lemma_nonblank_push(with_line, e);
                let acc2 = with_line.push(e);
                lemma_headings_from(ls, i + 1, acc2);
            } else {
                lemma_headings_from(ls, i + 1, with_line);
            }
            assert(nonblank_lines(acc).push(line) + nonblank_lines(ls.skip(i + 1)) =~= nonblank_lines(acc)
                + (seq![line] + nonblank_lines(ls.skip(i + 1))));
        } else {
            lemma_push_apart(acc, line);
            lemma_nonblank_push(acc, line);
            lemma_headings_from(ls, i + 1, acc.push(line));
            if line.len() > 0 {
                assert(nonblank_lines(acc).push(line) + nonblank_lines(ls.skip(i + 1)) =~= nonblank_lines(acc)
                    + (seq![line] + nonblank_lines(ls.skip(i + 1))));
            } else {
                assert(Seq::<Seq<char>>::empty() + nonblank_lines(ls.skip(i + 1)) =~= nonblank_lines(
                    ls.skip(i + 1),
                ));
            }
        }
    }
}

/// Heading normalization sets headings apart and changes nothing but empty lines: its
/// text is made of lines in which every heading that is not the first line follows an
/// empty line and the line after a heading holds nothing but whitespace, and whose
/// non-empty lines are the input's lines, in order.
pub proof fn lemma_headings_set_apart(content: Seq<char>)
    ensures
        exists|h: Seq<Seq<char>>|
            #[trigger] join_lines(h) == headings_spec(content) && headings_apart(h)
                && lines_without_feeds(h) && nonblank_lines(h) == nonblank_lines(lines_of(content)),
{
    let ls = lines_of(content);
    lemma_lines_after_no_newline(content, Seq::empty());
    assert(lines_without_feeds(ls));
    let e = Seq::<Seq<char>>::empty();
    assert(headings_apart(e));
    assert(lines_without_feeds(e));
    lemma_headings_from(ls, 0, e);
    assert(ls.skip(0) =~= ls);
    assert(nonblank_lines(e) =~= e);
    assert(e + nonblank_lines(ls) =~= nonblank_lines(ls));
    let h = headings_from(ls, 0, e);
    assert(join_lines(h) == headings_spec(content));
}

/// Where an empty line at `k` may stand in lines `h` when it was put in: after a line that
/// is not empty, and either just before a heading or just after a heading that a text line
/// follows (`open_end`: or last, after a heading, with its text line still to come).
pub open spec fn spacer_at(h: Seq<Seq<char>>, k: int, open_end: bool) -> bool {
    &&& h[k].len() == 0
    &&& k > 0
    &&& h[k - 1].len() > 0
    &&& ((k + 1 < h.len() && (is_heading_line(h[k + 1]) || (is_heading_line(h[k - 1]) && trim(
        h[k + 1],
    ).len() > 0 && !is_heading_line(h[k + 1])))) || (open_end && k + 1 == h.len()
        && is_heading_line(h[k - 1])))
}

/// Lines `h` hold the lines `ls` in order at the increasing positions `pos`, and every other
/// line of `h` is an empty line put in where `spacer_at` allows.
pub open spec fn spacing_added(ls: Seq<Seq<char>>, h: Seq<Seq<char>>, pos: Seq<int>, open_end: bool) -> bool {
    &&& pos.len() == ls.len()
    &&& forall|j: int| 0 <= j < pos.len() ==> 0 <= #[trigger] pos[j] < h.len() && h[pos[j]] == ls[j]
    &&& forall|a: int, b: int| 0 <= a < b < pos.len() ==> pos[a] < pos[b]
    &&& forall|k: int| 0 <= k < h.len() && !pos.contains(k) ==> #[trigger] spacer_at(h, k, open_end)
}

/// Lines `h` hold the lines `ls` in order, and every other line of `h` is an empty line
/// put in after a line that is not empty, either just before a heading or between a
/// heading and the text line that follows it.
pub open spec fn only_spacing_added(ls: Seq<Seq<char>>, h: Seq<Seq<char>>, pos: Seq<int>) -> bool {
    spacing_added(ls, h, pos, false)
}

proof fn lemma_spacer_kept(h: Seq<Seq<char>>, x: Seq<char>, k: int, open_end: bool)
    requires
        0 <= k < h.len(),
        spacer_at(h, k, open_end),
        k + 1 < h.len() || (trim(x).len() > 0 && !is_heading_line(x)),
    ensures
        spacer_at(h.push(x), k, false),
{
    let h2 = h.push(x);
    assert(h2[k] == h[k]);
    assert(h2[k - 1] == h[k - 1]);
    if k + 1 < h.len() {
        assert(h2[k + 1] == h[k + 1]);
    } else {
        assert(h2[k + 1] == x);
    }
}

proof fn lemma_push_kept(ls: Seq<Seq<char>>, h: Seq<Seq<char>>, pos: Seq<int>, x: Seq<char>)
    requires
        pos.len() < ls.len(),
        spacing_added(ls.take(pos.len() as int), h, pos, true),
        x == ls[pos.len() as int],
        h.len() > 0 && !pos.contains(h.len() - 1) ==> trim(x).len() > 0 && !is_heading_line(x),
    ensures
        spacing_added(ls.take(pos.len() + 1 as int), h.push(x), pos.push(h.len() as int), true),
{
    let n = pos.len() as int;
    let l2 = ls.take(n + 1);
    let h2 = h.push(x);
    let p2 = pos.push(h.len() as int);
    assert forall|j: int| 0 <= j < p2.len() implies 0 <= #[trigger] p2[j] < h2.len() && h2[p2[j]] == l2[j] by {
        if j < n {
            assert(ls.take(n)[j] == ls[j]);
        }
    }
    assert forall|k: int| 0 <= k < h2.len() && !p2.contains(k) implies #[trigger] spacer_at(h2, k, true) by {
        assert(k != h.len()) by {
            if k == h.len() {
                assert(p2[n] == k);
            }
        }
        assert(!pos.contains(k)) by {
            if pos.contains(k) {
                let j = choose|j: int| 0 <= j < pos.len() && pos[j] == k;
                assert(p2[j] == k);
            }
        }
        assert(spacer_at(h, k, true));
        lemma_spacer_kept(h, x, k, true);
    }
}

proof fn lemma_close_spacing(ls: Seq<Seq<char>>, h: Seq<Seq<char>>, pos: Seq<int>)
    requires
        spacing_added(ls, h, pos, true),
        h.len() > 0 ==> pos.contains(h.len() - 1),
    ensures
        spacing_added(ls, h, pos, false),
{
    assert forall|k: int| 0 <= k < h.len() && !pos.contains(k) implies #[trigger] spacer_at(h, k, false) by {
        assert(spacer_at(h, k, true));
    }
}

proof fn lemma_headings_spacing(ls: Seq<Seq<char>>, i: int, acc: Seq<Seq<char>>, pos: Seq<int>) -> (fin:
    Seq<int>)
    requires
        0 <= i <= ls.len(),
        pos.len() == i,
        spacing_added(ls.take(i), acc, pos, true),
        i == 0 ==> acc.len() == 0,
        i > 0 ==> acc.len() > 0,
        acc.len() > 0 && !pos.contains(acc.len() - 1) ==> i < ls.len() && trim(ls[i]).len() > 0
            && !is_heading_line(ls[i]),
    ensures
        only_spacing_added(ls, headings_from(ls, i, acc), fin),
    decreases ls.len() - i,
{
    if i >= ls.len() {
        assert(ls.take(i) =~= ls);
        lemma_close_spacing(ls, acc, pos);
        pos
    } else {
        let line = ls[i];
        let e = Seq::<char>::empty();
        assert(ls.take(i + 1).take(i) =~= ls.take(i));
        assert(trim(e) =~= e);
        if is_heading_line(line) {
            reveal_strlit("#");
            crate::textops::lemma_trim_len(line);
            assert(line.len() > 0);
            let before = if i > 0 && acc.len() > 0 && acc.last().len() > 0 {
                acc.push(e)
            } else {
                acc
            };
            let with_line = before.push(line);
            let p2 = pos.push(before.len() as int);
            assert(spacing_added(ls.take(i + 1), with_line, p2, true)) by {
                if i > 0 && acc.len() > 0 && acc.last().len() > 0 {
                    let l2 = ls.take(i + 1);
                    let n = acc.len() as int;
                    assert forall|j: int| 0 <= j < p2.len() implies 0 <= #[trigger] p2[j] < with_line.len()
                        && with_line[p2[j]] == l2[j] by {
                        if j < i {
                            assert(ls.take(i)[j] == ls[j]);
                            assert(with_line[pos[j]] == acc[pos[j]]);
                        }
                    }
                    assert forall|k: int| 0 <= k < with_line.len() && !p2.contains(k) implies #[trigger] spacer_at(
                        with_line,
                        k,
                        true,
                    ) by {
                        assert(k != n + 1) by {
                            if k == n + 1 {
                                assert(p2[i] == k);
                            }
                        }
                        if k == n {
                            assert(with_line[k - 1] == acc.last());
                            assert(with_line[k + 1] == line);
                        } else {
                            assert(!pos.contains(k)) by {
                                if pos.contains(k) {
                                    let j = choose|j: int| 0 <= j < pos.len() && pos[j] == k;
                                    assert(p2[j] == k);
                                }
                            }
                            assert(spacer_at(acc, k, true));
                            lemma_spacer_kept(acc, e, k, true);
                            lemma_spacer_kept(acc.push(e), line, k, false);
                        }
                    }
                } else {
                    lemma_push_kept(ls, acc, pos, line);
                }
            }
            assert(p2.contains(with_line.len() - 1)) by {
                assert(p2[i] == with_line.len() - 1);
            }
            if i < ls.len() - 1 && trim(ls[i + 1]).len() > 0 && !is_heading_line(ls[i + 1]) {
                let h3 = with_line.push(e);
                let l2 = ls.take(i + 1);
                assert(spacing_added(l2, h3, p2, true)) by {
                    assert forall|j: int| 0 <= j < p2.len() implies 0 <= #[trigger] p2[j] < h3.len() && h3[p2[j]]
                        == l2[j] by {
                        assert(h3[p2[j]] == with_line[p2[j]]);
                    }
                    assert forall|k: int| 0 <= k < h3.len() && !p2.contains(k) implies #[trigger] spacer_at(
                        h3,
                        k,
                        true,
                    ) by {
                        if k < with_line.len() {
                            assert(k != with_line.len() - 1);
                            assert(spacer_at(with_line, k, true));
                            assert(h3[k] == with_line[k]);
                            assert(h3[k - 1] == with_line[k - 1]);
                            assert(h3[k + 1] == with_line[k + 1]);
                        } else {
                            assert(h3[k - 1] == line);
                        }
                    }
                }
                assert(!p2.contains(h3.len() - 1)) by {
                    if p2.contains(h3.len() - 1) {
                        let j = choose|j: int| 0 <= j < p2.len() && p2[j] == h3.len() - 1;
                        assert(p2[j] < with_line.len());
                    }
                }
                lemma_headings_spacing(ls, i + 1, h3, p2)
            } else {
                lemma_headings_spacing(ls, i + 1, with_line, p2)
            }
        } else {
            lemma_push_kept(ls, acc, pos, line);
            let p2 = pos.push(acc.len() as int);
            assert(p2[i] == acc.len());
            lemma_headings_spacing(ls, i + 1, acc.push(line), p2)
        }
    }
}

/// Heading normalization sets headings apart and adds nothing but that spacing: its lines
/// hold the input's lines, in order; each other line is an empty line put in after a
/// non-empty line, just before a heading or between a heading and the text line after it;
/// every heading that is not the first line follows an empty line; and the line after a
/// heading holds nothing but whitespace.
pub proof fn lemma_headings_only_add_spacing(content: Seq<char>)
    ensures
        exists|h: Seq<Seq<char>>, pos: Seq<int>|
            join_lines(h) == headings_spec(content) && lines_without_feeds(h) && headings_apart(h)
                && #[trigger] only_spacing_added(lines_of(content), h, pos),
{
    let ls = lines_of(content);
    let e = Seq::<Seq<char>>::empty();
    assert(ls.take(0) =~= e);
    assert(spacing_added(ls.take(0), e, Seq::<int>::empty(), true));
    let pos = lemma_headings_spacing(ls, 0, e, Seq::empty());
    lemma_lines_after_no_newline(content, Seq::empty());
    assert(lines_without_feeds(ls));
    assert(headings_apart(e));
    assert(lines_without_feeds(e));
    lemma_headings_from(ls, 0, e);
    let h = headings_from(ls, 0, e);
    assert(join_lines(h) == headings_spec(content));
}

/// The whole normalization: bullets, spacing, headings, trailing whitespace, and a single
/// final line feed.
pub open spec fn normalize_spec(content: Seq<char>) -> Seq<char> {
    trim_end(trim_lines_spec(headings_spec(spacing_spec(bullets_spec(content))))) + seq!['\n']
}

/// A line break in `r` follows either another line break or a character that is not
/// whitespace: no line ends in whitespace.
pub open spec fn no_trailing_blanks(r: Seq<char>) -> bool {
    forall|i: int| 0 < i < r.len() && #[trigger] r[i] == '\n' ==> r[i - 1] == '\n' || !is_whitespace(r[i - 1])
}

/// A piece of a line: no line break in it, and no whitespace at its end.
pub open spec fn clean_piece(p: Seq<char>) -> bool {
    &&& forall|j: int| 0 <= j < p.len() ==> #[trigger] p[j] != '\n'
    &&& (p.len() == 0 || !is_whitespace(p.last()))
}

/// No line that splitting text into lines yields holds a line feed.
pub proof fn lemma_lines_after_no_newline(s: Seq<char>, cur: Seq<char>)
    requires
        forall|j: int| 0 <= j < cur.len() ==> #[trigger] cur[j] != '\n',
    ensures
        forall|k: int, j: int|
            0 <= k < lines_after(s, cur).len() && 0 <= j < lines_after(s, cur)[k].len()
                ==> #[trigger] lines_after(s, cur)[k][j] != '\n',
    decreases s.len(),
{
    if s.len() == 0 {
        if cur.len() > 0 {
            let all = seq![cur];
            assert(lines_after(s, cur) == all);
            assert forall|k: int, j: int| 0 <= k < all.len() && 0 <= j < all[k].len() implies #[trigger] all[k][j]
                != '\n' by {
                assert(all[k] == cur);
            }
        }
    } else if s[0] == '\n' {
        lemma_lines_after_no_newline(s.drop_first(), Seq::empty());
        let rest = lines_after(s.drop_first(), Seq::empty());
        let all = seq![strip_cr(cur)] + rest;
        assert(lines_after(s, cur) == all);
        assert forall|k: int, j: int| 0 <= k < all.len() && 0 <= j < all[k].len() implies #[trigger] all[k][j]
            != '\n' by {
            if k == 0 {
                assert(strip_cr(cur)[j] == cur[j]);
            } else {
                assert(all[k] == rest[k - 1]);
            }
        }
    } else {
        let c2 = cur.push(s[0]);
        assert forall|j: int| 0 <= j < c2.len() implies #[trigger] c2[j] != '\n' by {
            if j < cur.len() {
                assert(c2[j] == cur[j]);
            }
        }
        lemma_lines_after_no_newline(s.drop_first(), c2);
        assert(lines_after(s, cur) == lines_after(s.drop_first(), c2));
    }
}

proof fn lemma_trim_end_clean(l: Seq<char>)
    requires
        forall|j: int| 0 <= j < l.len() ==> #[trigger] l[j] != '\n',
    ensures
        clean_piece(trim_end(l)),
    decreases l.len(),
{
    if l.len() > 0 && is_whitespace(l.last()) {
        let t = l.drop_last();
        assert forall|j: int| 0 <= j < t.len() implies #[trigger] t[j] != '\n' by {
            assert(t[j] == l[j]);
        }
        lemma_trim_end_clean(t);
    }
}

proof fn lemma_join_clean(ls: Seq<Seq<char>>)
    requires
        forall|k: int| 0 <= k < ls.len() ==> clean_piece(#[trigger] ls[k]),
    ensures
        no_trailing_blanks(join_lines(ls)),
        join_lines(ls).len() == 0 || join_lines(ls).last() == '\n' || !is_whitespace(join_lines(ls).last()),
    decreases ls.len(),
{
    if ls.len() == 1 {
        assert(clean_piece(ls[0]));
    } else if ls.len() > 1 {
        let init = ls.drop_last();
        assert forall|k: int| 0 <= k < init.len() implies clean_piece(#[trigger] init[k]) by {
            assert(init[k] == ls[k]);
        }
        lemma_join_clean(init);
        let j = join_lines(init);
        let p = ls.last();
        assert(clean_piece(ls[ls.len() - 1]));
        let r = j + seq!['\n'] + p;
        assert(join_lines(ls) == r);
        assert forall|i: int| 0 < i < r.len() && #[trigger] r[i] == '\n' implies r[i - 1] == '\n'
            || !is_whitespace(r[i - 1]) by {
            if i < j.len() {
                assert(r[i] == j[i] && r[i - 1] == j[i - 1]);
            } else if i == j.len() {
                assert(r[i - 1] == j.last());
            } else {
                assert(r[i] == p[i - j.len() - 1]);
            }
        }
        if p.len() == 0 {
            assert(r.last() == '\n');
        } else {
            assert(r.last() == p.last());
        }
    }
}

proof fn lemma_trim_end_prefix(s: Seq<char>)
    ensures
        trim_end(s).is_prefix_of(s),
        trim_end(s).len() == 0 || !is_whitespace(trim_end(s).last()),
    decreases s.len(),
{
    if s.len() > 0 && is_whitespace(s.last()) {
        lemma_trim_end_prefix(s.drop_last());
    }
}

/// Normalized markdown keeps no whitespace at the end of any line, and ends with exactly
/// one line feed, after a character that is not whitespace (or is the line feed alone).
pub proof fn lemma_normalized_lines_are_trimmed(content: Seq<char>)
    ensures
        no_trailing_blanks(normalize_spec(content)),
        normalize_spec(content).len() > 0,
        normalize_spec(content).last() == '\n',
        normalize_spec(content).len() == 1 || !is_whitespace(
            normalize_spec(content)[normalize_spec(content).len() - 2],
        ),
{
    let h = headings_spec(spacing_spec(bullets_spec(content)));
    let ls = lines_of(h).map_values(|l: Seq<char>| trim_end(l));
    lemma_lines_after_no_newline(h, Seq::empty());
    assert forall|k: int| 0 <= k < ls.len() implies clean_piece(#[trigger] ls[k]) by {
        let l = lines_of(h)[k];
        assert forall|j: int| 0 <= j < l.len() implies #[trigger] l[j] != '\n' by {
            assert(lines_of(h)[k][j] != '\n');
        }
        lemma_trim_end_clean(l);
    }
    lemma_join_clean(ls);
    let t = join_lines(ls);
    assert(trim_lines_spec(h) == t);
    lemma_trim_end_prefix(t);
    let e = trim_end(t);
    let r = e + seq!['\n'];
    assert(normalize_spec(content) == r);
    assert forall|i: int| 0 < i < r.len() && #[trigger] r[i] == '\n' implies r[i - 1] == '\n'
        || !is_whitespace(r[i - 1]) by {
        if i < e.len() {
            assert(r[i] == t[i] && r[i - 1] == t[i - 1]);
        } else {
            assert(r[i - 1] == e.last());
        }
    }
    if r.len() > 1 {
        assert(r[r.len() - 2] == e.last());
    }
}

fn lines_vec(content: &str) -> (r: Vec<Vec<char>>)
    ensures
        r.deep_view() == lines_of(content@),
{
    let cs = chars_of(content);
    split_lines(cs.as_slice())
}

fn joined(ls: &Vec<Vec<char>>) -> (r: String)
    ensures
        r@ == join_lines(ls.deep_view()),
{
    let v = join_with_newlines(ls);
    string_from_chars(v.as_slice())
}

/// Turns `*` and `+` bullets into `-` bullets, line by line.
pub fn standardize_bullets(content: &str) -> (r: String)
    ensures
        r@ == bullets_spec(content@),
{
    let lines = lines_vec(content);
    let mut out: Vec<Vec<char>> = Vec::new();
    let mut i: usize = 0;
    while i < lines.len()
        invariant
            i <= lines@.len(),
            lines.deep_view() == lines_of(content@),
            out@.len() == i,
            i > 0 ==> regex_compiles(bullet_pattern()),
            regex_compiles(bullet_pattern()) ==> out.deep_view() == lines_of(content@).take(
                i as int,
            ).map_values(
                |l: Seq<char>| regex_replace(bullet_pattern(), l, bullet_replacement()),
            ),
        decreases lines@.len() - i,
    {
        let line = string_from_chars(lines[i].as_slice());
        match replace("^(\\s*)[\\*\\+]\\s", line.as_str(), "${1}- ") {
            Some(s) => {
                let v = chars_of(s.as_str());
                let ghost before = out.deep_view();
                proof {
                    lemma_deep_view_chars(v);
                    lemma_deep_view_chars(lines@[i as int]);
                }
                out.push(v);
                proof {
                    let f = |l: Seq<char>| regex_replace(bullet_pattern(), l, bullet_replacement());
                    let xs = lines_of(content@);
                    assert(lines.deep_view()[i as int] == lines@[i as int]@);
                    assert(out.deep_view() =~= before.push(v@));
                    assert(xs.take(i + 1).map_values(f) =~= xs.take(i as int).map_values(f).push(
                        f(xs[i as int]),
                    ));
                }
            },
            None => {
                return content.to_string();
            },
        }
        i = i + 1;
    }
    proof {
        assert(lines_of(content@).take(lines@.len() as int) =~= lines_of(content@));
        crate::textops::lemma_lines_nonempty(content@, Seq::empty());
        if !regex_compiles(bullet_pattern()) {
            assert(out.deep_view() =~= Seq::<Seq<char>>::empty());
            assert(content@ =~= Seq::<char>::empty());
        }
    }
    joined(&out)
}

/// Shortens every run of three or more line feeds to two.
pub fn normalize_spacing(content: &str) -> (r: String)
    ensures
        r@ == spacing_spec(content@),
{
    match replace_all("\\n{3,}", content, "\n\n") {
        Some(s) => s,
        None => content.to_string(),
    }
}

/// Removes trailing whitespace from every line.
pub fn trim_line_whitespace(content: &str) -> (r: String)
    ensures
        r@ == trim_lines_spec(content@),
{
    let lines = lines_vec(content);
    let mut out: Vec<Vec<char>> = Vec::new();
    let mut i: usize = 0;
    while i < lines.len()
        invariant
            i <= lines@.len(),
            lines.deep_view() == lines_of(content@),
            out.deep_view() == lines_of(content@).take(i as int).map_values(
                |l: Seq<char>| trim_end(l),
            ),
        decreases lines@.len() - i,
    {
        let t = trimmed_end(lines[i].as_slice());
        let ghost before = out.deep_view();
        proof {
            lemma_deep_view_chars(t);
            lemma_deep_view_chars(lines@[i as int]);
        }
        out.push(t);
        proof {
            let f = |l: Seq<char>| trim_end(l);
            let xs = lines_of(content@);
            assert(lines.deep_view()[i as int] == lines@[i as int]@);
            assert(out.deep_view() =~= before.push(t@));
            assert(xs.take(i + 1).map_values(f) =~= xs.take(i as int).map_values(f).push(
                f(xs[i as int]),
            ));
        }
        i = i + 1;
    }
    proof {
        assert(lines_of(content@).take(lines@.len() as int) =~= lines_of(content@));
    }
    joined(&out)
}

/// Sets headings apart with blank lines before and after.
pub fn normalize_headings(content: &str) -> (r: String)
    ensures
        r@ == headings_spec(content@),
{
    let lines = lines_vec(content);
    let ghost ls = lines.deep_view();
    let mut result: Vec<Vec<char>> = Vec::new();
    let mut i: usize = 0;
    assert(result.deep_view() =~= Seq::<Seq<char>>::empty());
    while i < lines.len()
        invariant
            i <= lines@.len(),
            ls == lines.deep_view(),
            ls == lines_of(content@),
            headings_from(ls, 0, Seq::empty()) == headings_from(ls, i as int, result.deep_view()),
        decreases lines@.len() - i,
    {
        let ghost acc = result.deep_view();
        proof {
            assert(ls[i as int] == lines@[i as int]@);
            lemma_deep_view_chars(lines@[i as int]);
        }
        let t = trimmed(lines[i].as_slice());
        let is_heading = starts_with_str(t.as_slice(), "#");
        if is_heading {
            let n = result.len();
            if i > 0 && n > 0 && result[n - 1].len() > 0 {
                let e: Vec<char> = Vec::new();
                proof {
                    lemma_deep_view_chars(e);
                    assert(e@ =~= Seq::<char>::empty());
                }
                result.push(e);
                proof {
                    assert(result.deep_view() =~= acc.push(Seq::empty()));
                }
            }
            let ghost before = result.deep_view();
            result.push(lines[i].clone());
            proof {
                assert(result.deep_view() =~= before.push(ls[i as int]));
            }
            if i + 1 < lines.len() {
                proof {
                    assert(ls[i + 1] == lines@[i + 1]@);
                    lemma_deep_view_chars(lines@[i + 1]);
                }
                let nt = trimmed(lines[i + 1].as_slice());
                if nt.len() > 0 && !starts_with_str(nt.as_slice(), "#") {
                    let ghost before2 = result.deep_view();
                    let e: Vec<char> = Vec::new();
                    proof {
                        lemma_deep_view_chars(e);
                        assert(e@ =~= Seq::<char>::empty());
                    }
                    result.push(e);
                    proof {
                        assert(result.deep_view() =~= before2.push(Seq::empty()));
                    }
                }
            }
        } else {
            result.push(lines[i].clone());
            proof {
                assert(result.deep_view() =~= acc.push(ls[i as int]));
            }
        }
        i = i + 1;
    }
    joined(&result)
}

/// Normalizes markdown: `-` bullets, at most one blank line in a row, headings set apart,
/// no trailing whitespace, and exactly one final line feed.
pub fn normalize_markdown(content: &str) -> (r: String)
    ensures
        r@ == normalize_spec(content@),
        r@.len() > 0,
        r@.last() == '\n',
{
    let s1 = standardize_bullets(content);
    let s2 = normalize_spacing(s1.as_str());
    let s3 = normalize_headings(s2.as_str());
    let s4 = trim_line_whitespace(s3.as_str());
    let cs = chars_of(s4.as_str());
    let mut t = trimmed_end(cs.as_slice());
    t.push('\n');
    string_from_chars(t.as_slice())
}

/// The rest of `t` after a frontmatter block that opens `t` with `---\n`, if the block is
/// closed: after `\n---\n` the text resumes at that marker's last line feed; with only
/// `\n---` (a closing marker that ends the text), after that marker.
pub open spec fn after_frontmatter(t: Seq<char>) -> Option<Seq<char>> {
    match find_from(t, "\n---\n"@, 4) {
        Some(a) => Some(t.skip(a + 4)),
        None => match find_from(t, "\n---"@, 4) {
            Some(a) => Some(t.skip(a + 4)),
            None => None,
        },
    }
}

/// The frontmatter text between the opening marker and the closing one.
pub open spec fn frontmatter_body(t: Seq<char>) -> Seq<char> {
    match find_from(t, "\n---\n"@, 4) {
        Some(a) => t.subrange(4, a),
        None => match find_from(t, "\n---"@, 4) {
            Some(a) => t.subrange(4, a),
            None => Seq::empty(),
        },
    }
}

/// `content` with any frontmatter block removed.
pub open spec fn strip_frontmatter_spec(content: Seq<char>) -> Seq<char> {
    let t = trim_start(content);
    if !"---\n"@.is_prefix_of(t) {
        content
    } else {
        match after_frontmatter(t) {
            Some(rest) => rest,
            None => content,
        }
    }
}

/// Removes any frontmatter block, well-formed or not.
pub fn strip_frontmatter(content: &str) -> (r: String)
    ensures
        r@ == strip_frontmatter_spec(content@),
{
    let cs = chars_of(content);
    let a = skip_whitespace(cs.as_slice(), 0, cs.len());
    proof {
        assert(cs@.subrange(0, cs@.len() as int) =~= cs@);
    }
    let t = crate::text::chars_range(cs.as_slice(), a, cs.len());
    if !starts_with_str(t.as_slice(), "---\n") {
        return content.to_string();
    }
    proof {
        reveal_strlit("\n---\n");
        reveal_strlit("\n---");
    }
    let m1 = chars_of("\n---\n");
    match find(t.as_slice(), m1.as_slice(), 4) {
        Some(e) => {
            proof {
                crate::textops::lemma_find_from(t@, m1@, 4);
            }
            let rest = crate::text::chars_range(t.as_slice(), e + 4, t.len());
            return string_from_chars(rest.as_slice());
        },
        None => {},
    }
    let m2 = chars_of("\n---");
    match find(t.as_slice(), m2.as_slice(), 4) {
        Some(e) => {
            proof {
                crate::textops::lemma_find_from(t@, m2@, 4);
            }
            let rest = crate::text::chars_range(t.as_slice(), e + 4, t.len());
            string_from_chars(rest.as_slice())
        },
        None => content.to_string(),
    }
}

/// Whether a frontmatter line counts: it is not blank.
pub open spec fn nonblank_count(ls: Seq<Seq<char>>) -> nat
    decreases ls.len(),
{
    if ls.len() == 0 {
        0
    } else {
        nonblank_count(ls.drop_last()) + if trim(ls.last()).len() > 0 {
            1nat
        } else {
            0nat
        }
    }
}

/// The non-blank lines that hold a colon.
pub open spec fn keyed_count(ls: Seq<Seq<char>>) -> nat
    decreases ls.len(),
{
    if ls.len() == 0 {
        0
    } else {
        keyed_count(ls.drop_last()) + if trim(ls.last()).len() > 0 && contains(
            ls.last(),
            ":"@,
        ) {
            1nat
        } else {
            0nat
        }
    }
}

/// Whether a frontmatter body looks malformed: it has non-blank lines, and fewer than
/// half of them (rounded down) hold a colon.
pub open spec fn looks_malformed(body: Seq<char>) -> bool {
    let ls = lines_of(body);
    nonblank_count(ls) > 0 && keyed_count(ls) < nonblank_count(ls) / 2
}

/// `content` without a frontmatter block that looks malformed.
pub open spec fn strip_bad_frontmatter_spec(content: Seq<char>) -> Seq<char> {
    let t = trim_start(content);
    if !"---\n"@.is_prefix_of(t) {
        content
    } else {
        match after_frontmatter(t) {
            Some(rest) => if looks_malformed(frontmatter_body(t)) {
                rest
            } else {
                content
            },
            None => content,
        }
    }
}

/// Counts the non-blank lines of a frontmatter body and those of them that hold a colon.
fn count_frontmatter_lines(body: &[char]) -> (r: (usize, usize))
    ensures
        r.0 == nonblank_count(lines_of(body@)),
        r.1 == keyed_count(lines_of(body@)),
{
    let lines = split_lines(body);
    let ghost ls = lines.deep_view();
    let mut nonblank: usize = 0;
    let mut keyed: usize = 0;
    let mut i: usize = 0;
    while i < lines.len()
        invariant
            i <= lines@.len(),
            ls == lines.deep_view(),
            ls == lines_of(body@),
            nonblank == nonblank_count(ls.take(i as int)),
            keyed == keyed_count(ls.take(i as int)),
            nonblank <= i,
            keyed <= i,
        decreases lines@.len() - i,
    {
        proof {
            assert(ls.take(i + 1).drop_last() =~= ls.take(i as int));
            assert(ls.take(i + 1).last() == ls[i as int]);
            assert(ls[i as int] == lines@[i as int]@);
            lemma_deep_view_chars(lines@[i as int]);
        }
        let t = trimmed(lines[i].as_slice());
        if t.len() > 0 {
            nonblank = nonblank + 1;
            let colon = chars_of(":");
            if crate::textops::contains_exec(lines[i].as_slice(), colon.as_slice()) {
                keyed = keyed + 1;
            }
        }
        i = i + 1;
    }
    proof {
        assert(ls.take(lines@.len() as int) =~= ls);
    }
    (nonblank, keyed)
}

/// Removes a frontmatter block when fewer than half of its lines look like `key: value`.
pub fn strip_bad_frontmatter(content: &str) -> (r: String)
    ensures
        r@ == strip_bad_frontmatter_spec(content@),
{
    let cs = chars_of(content);
    let a = skip_whitespace(cs.as_slice(), 0, cs.len());
    proof {
        assert(cs@.subrange(0, cs@.len() as int) =~= cs@);
    }
    let t = crate::text::chars_range(cs.as_slice(), a, cs.len());
    if !starts_with_str(t.as_slice(), "---\n") {
        return content.to_string();
    }
    proof {
        reveal_strlit("\n---\n");
        reveal_strlit("\n---");
    }
    let m1 = chars_of("\n---\n");
    let m2 = chars_of("\n---");
    let end = match find(t.as_slice(), m1.as_slice(), 4) {
        Some(e) => {
            proof {
                crate::textops::lemma_find_from(t@, m1@, 4);
            }
            e
        },
        None => match find(t.as_slice(), m2.as_slice(), 4) {
            Some(e) => {
                proof {
                    crate::textops::lemma_find_from(t@, m2@, 4);
                }
                e
            },
            None => {
                return content.to_string();
            },
        },
    };
    let body = crate::text::chars_range(t.as_slice(), 4, end);
    let (nonblank, keyed) = count_frontmatter_lines(body.as_slice());
    if nonblank > 0 && keyed < nonblank / 2 {
        let rest = crate::text::chars_range(t.as_slice(), end + 4, t.len());
        string_from_chars(rest.as_slice())
    } else {
        content.to_string()
    }
}

} // verus!
