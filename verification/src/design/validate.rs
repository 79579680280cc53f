//! The consistency checks over the design documents: duplicate numbers, dangling
//! references, date order, state directories, the index, and missing headers.

use crate::design::doc::{
    has_frontmatter, has_frontmatter_spec, parse_u32, parse_u32_spec, state_from_directory,
    state_name, state_of_parent_dir, DocState,
};
use crate::design::index_sync::IndexEntry;
use crate::design::strmap::StrMap;
use crate::text::{decimal, decimal_chars, push_all, push_str, string_from_chars, zero_padded, zero_padded_chars};
use vstd::prelude::*;

verus! {

/// A calendar date, and the text it is written as.
#[derive(Debug, Clone)]
pub struct DateStamp {
    pub year: i32,
    pub month: u32,
    pub day: u32,
    pub text: String,
}

/// A date written as `YYYY-MM-DD`.
pub open spec fn date_text(year: i32, month: u32, day: u32) -> Seq<char> {
    zero_padded(year as nat, 4) + "-"@ + zero_padded(month as nat, 2) + "-"@ + zero_padded(day as nat, 2)
}

impl DateStamp {
    /// A date of the years 0 to 9999, with a month from 1 to 12 and a day from 1 to 31,
    /// whose text is that date written as `YYYY-MM-DD`.
    pub open spec fn wf(&self) -> bool {
        &&& 0 <= self.year <= 9999
        &&& 1 <= self.month <= 12
        &&& 1 <= self.day <= 31
        &&& self.text@ == date_text(self.year, self.month, self.day)
    }

    /// The date of `year`, `month` and `day`, with its text.
    pub fn from_ymd(year: i32, month: u32, day: u32) -> (d: Self)
        requires
            0 <= year <= 9999,
            1 <= month <= 12,
            1 <= day <= 31,
        ensures
            d.wf(),
            d.year == year,
            d.month == month,
            d.day == day,
    {
        let mut v = zero_padded_chars(year as u64, 4);
        push_str(&mut v, "-");
        let m = zero_padded_chars(month as u64, 2);
        push_all(&mut v, m.as_slice());
        push_str(&mut v, "-");
        let dd = zero_padded_chars(day as u64, 2);
        push_all(&mut v, dd.as_slice());
        DateStamp { year, month, day, text: string_from_chars(v.as_slice()) }
    }
}

/// Whether `a` is a later day than `b`.
pub open spec fn date_after(a: DateStamp, b: DateStamp) -> bool {
    a.year > b.year || (a.year == b.year && (a.month > b.month || (a.month == b.month && a.day
        > b.day)))
}

/// What the checks read of one document.
#[derive(Debug, Clone)]
pub struct DocFacts {
    pub number: u32,
    pub title: String,
    pub path: String,
    pub state: DocState,
    pub supersedes: Option<u32>,
    pub superseded_by: Option<u32>,
    pub created: DateStamp,
    pub updated: DateStamp,
}

/// A problem the checks found.
#[derive(Debug, Clone)]
pub enum ValidationIssue {
    DuplicateNumber { number: u32, paths: Vec<String> },
    MissingReference { doc_num: u32, ref_type: String, ref_num: u32 },
    DateOrderIssue { doc_num: u32, created: String, updated: String },
    StateDirectoryMismatch { doc_num: u32, yaml_state: String, dir_state: String, path: String },
    NotInIndex { doc_num: u32, title: String, path: String },
    InIndexNotOnDisk { number: String },
    MissingHeaders { path: String },
}

pub enum IssueV {
    DuplicateNumber { number: u32, paths: Seq<Seq<char>> },
    MissingReference { doc_num: u32, ref_type: Seq<char>, ref_num: u32 },
    DateOrderIssue { doc_num: u32, created: Seq<char>, updated: Seq<char> },
    StateDirectoryMismatch {
        doc_num: u32,
        yaml_state: Seq<char>,
        dir_state: Seq<char>,
        path: Seq<char>,
    },
    NotInIndex { doc_num: u32, title: Seq<char>, path: Seq<char> },
    InIndexNotOnDisk { number: Seq<char> },
    MissingHeaders { path: Seq<char> },
}

impl View for ValidationIssue {
    type V = IssueV;

    open spec fn view(&self) -> IssueV {
        match self {
            ValidationIssue::DuplicateNumber { number, paths } => IssueV::DuplicateNumber {
                number: *number,
                paths: paths@.map_values(|p: String| p@),
            },
            ValidationIssue::MissingReference { doc_num, ref_type, ref_num } =>
                IssueV::MissingReference { doc_num: *doc_num, ref_type: ref_type@, ref_num: *ref_num },
            ValidationIssue::DateOrderIssue { doc_num, created, updated } =>
                IssueV::DateOrderIssue { doc_num: *doc_num, created: created@, updated: updated@ },
            ValidationIssue::StateDirectoryMismatch { doc_num, yaml_state, dir_state, path } =>
                IssueV::StateDirectoryMismatch {
                doc_num: *doc_num,
                yaml_state: yaml_state@,
                dir_state: dir_state@,
                path: path@,
            },
            ValidationIssue::NotInIndex { doc_num, title, path } => IssueV::NotInIndex {
                doc_num: *doc_num,
                title: title@,
                path: path@,
            },
            ValidationIssue::InIndexNotOnDisk { number } => IssueV::InIndexNotOnDisk {
                number: number@,
            },
            ValidationIssue::MissingHeaders { path } => IssueV::MissingHeaders { path: path@ },
        }
    }
}

pub open spec fn issues_view(v: Seq<ValidationIssue>) -> Seq<IssueV> {
    v.map_values(|i: ValidationIssue| i@)
}

// ---------------------------------------------------------------------------
// The checks, one by one
// ---------------------------------------------------------------------------

/// How many documents carry `num`.
pub open spec fn count_number(ds: Seq<DocFacts>, num: u32) -> nat
    decreases ds.len(),
{
    if ds.len() == 0 {
        0
    } else {
        count_number(ds.drop_last(), num) + if ds.last().number == num {
            1nat
        } else {
            0nat
        }
    }
}

/// The paths of the documents that carry `num`, in order.
pub open spec fn paths_with_number(ds: Seq<DocFacts>, num: u32) -> Seq<Seq<char>>
    decreases ds.len(),
{
    if ds.len() == 0 {
        Seq::empty()
    } else if ds.last().number == num {
        paths_with_number(ds.drop_last(), num).push(ds.last().path@)
    } else {
        paths_with_number(ds.drop_last(), num)
    }
}

/// Whether document `i` is the first to carry its number.
pub open spec fn first_with_number(ds: Seq<DocFacts>, i: int) -> bool {
    forall|j: int| 0 <= j < i ==> ds[j].number != ds[i].number
}

/// One issue per number that several documents carry, in order of first appearance.
pub open spec fn duplicate_issues(ds: Seq<DocFacts>, i: int) -> Seq<IssueV>
    decreases ds.len() - i,
{
    if i < 0 || i >= ds.len() {
        Seq::empty()
    } else {
        let here = if first_with_number(ds, i) && count_number(ds, ds[i].number) >= 2 {
            seq![
                IssueV::DuplicateNumber {
                    number: ds[i].number,
                    paths: paths_with_number(ds, ds[i].number),
                },
            ]
        } else {
            Seq::empty()
        };
        here + duplicate_issues(ds, i + 1)
    }
}

/// Whether some document carries `num`.
pub open spec fn number_exists(ds: Seq<DocFacts>, num: u32) -> bool {
    exists|k: int| 0 <= k < ds.len() && ds[k].number == num
}

/// The references of document `d` to numbers no document carries.
pub open spec fn reference_issues_of(ds: Seq<DocFacts>, d: DocFacts) -> Seq<IssueV> {
    let a = match d.supersedes {
        Some(r) => if !number_exists(ds, r) {
            seq![
                IssueV::MissingReference {
                    doc_num: d.number,
                    ref_type: "supersedes"@,
                    ref_num: r,
                },
            ]
        } else {
            Seq::empty()
        },
        None => Seq::empty(),
    };
    let b = match d.superseded_by {
        Some(r) => if !number_exists(ds, r) {
            seq![
                IssueV::MissingReference {
                    doc_num: d.number,
                    ref_type: "superseded-by"@,
                    ref_num: r,
                },
            ]
        } else {
            Seq::empty()
        },
        None => Seq::empty(),
    };
    a + b
}

/// The issues of each document from index `i` on, found by `f`.
pub open spec fn per_doc(
    ds: Seq<DocFacts>,
    i: int,
    f: spec_fn(DocFacts) -> Seq<IssueV>,
) -> Seq<IssueV>
    decreases ds.len() - i,
{
    if i < 0 || i >= ds.len() {
        Seq::empty()
    } else {
        f(ds[i]) + per_doc(ds, i + 1, f)
    }
}

/// A document created after it was last updated.
pub open spec fn date_issues_of(d: DocFacts) -> Seq<IssueV> {
    if date_after(d.created, d.updated) {
        seq![
            IssueV::DateOrderIssue {
                doc_num: d.number,
                created: d.created.text@,
                updated: d.updated.text@,
            },
        ]
    } else {
        Seq::empty()
    }
}

/// A document whose state differs from the state directory it lies in.
pub open spec fn directory_issues_of(d: DocFacts) -> Seq<IssueV> {
    match state_of_parent_dir(d.path@) {
        Some(ds) => if ds != d.state {
            seq![
                IssueV::StateDirectoryMismatch {
                    doc_num: d.number,
                    yaml_state: state_name(d.state),
                    dir_state: state_name(ds),
                    path: d.path@,
                },
            ]
        } else {
            Seq::empty()
        },
        None => Seq::empty(),
    }
}

/// A document whose four-digit number the index table lacks.
pub open spec fn not_indexed_of(keys: Seq<Seq<char>>, d: DocFacts) -> Seq<IssueV> {
    if !keys.contains(zero_padded(d.number as nat, 4)) {
        seq![IssueV::NotInIndex { doc_num: d.number, title: d.title@, path: d.path@ }]
    } else {
        Seq::empty()
    }
}

/// The index entries (from position `i` on) whose number no document carries; an entry
/// whose number does not read as one counts as 0.
pub open spec fn stale_entries(ds: Seq<DocFacts>, keys: Seq<Seq<char>>, i: int) -> Seq<IssueV>
    decreases keys.len() - i,
{
    if i < 0 || i >= keys.len() {
        Seq::empty()
    } else {
        let num = match parse_u32_spec(keys[i]) {
            Some(n) => n,
            None => 0,
        };
        let here = if !number_exists(ds, num) {
            seq![IssueV::InIndexNotOnDisk { number: keys[i] }]
        } else {
            Seq::empty()
        };
        here + stale_entries(ds, keys, i + 1)
    }
}

/// The files (from position `i` on) whose content does not open with frontmatter.
pub open spec fn header_issues(files: Seq<(Seq<char>, Seq<char>)>, i: int) -> Seq<IssueV>
    decreases files.len() - i,
{
    if i < 0 || i >= files.len() {
        Seq::empty()
    } else {
        let here = if !has_frontmatter_spec(files[i].1) {
            seq![IssueV::MissingHeaders { path: files[i].0 }]
        } else {
            Seq::empty()
        };
        here + header_issues(files, i + 1)
    }
}

/// Every issue, check by check: duplicates, references, dates, directories, the index (when
/// one was read, given by its table's numbers), and headers.
pub open spec fn all_issues(
    ds: Seq<DocFacts>,
    index_keys: Option<Seq<Seq<char>>>,
    files: Seq<(Seq<char>, Seq<char>)>,
) -> Seq<IssueV> {
    duplicate_issues(ds, 0) + per_doc(ds, 0, |d: DocFacts| reference_issues_of(ds, d)) + per_doc(
        ds,
        0,
        |d: DocFacts| date_issues_of(d),
    ) + per_doc(ds, 0, |d: DocFacts| directory_issues_of(d)) + match index_keys {
        Some(keys) => per_doc(ds, 0, |d: DocFacts| not_indexed_of(keys, d)) + stale_entries(
            ds,
            keys,
            0,
        ),
        None => Seq::empty(),
    } + header_issues(files, 0)
}

pub open spec fn files_view(files: Seq<(String, String)>) -> Seq<(Seq<char>, Seq<char>)> {
    files.map_values(|f: (String, String)| (f.0@, f.1@))
}

// ---------------------------------------------------------------------------
// The checks, executed
// ---------------------------------------------------------------------------

fn number_exists_exec(docs: &Vec<DocFacts>, num: u32) -> (b: bool)
    ensures
        b == number_exists(docs@, num),
{
    let mut k: usize = 0;
    while k < docs.len()
        invariant
            k <= docs@.len(),
            forall|j: int| 0 <= j < k ==> docs@[j].number != num,
        decreases docs@.len() - k,
    {
        if docs[k].number == num {
            return true;
        }
        k = k + 1;
    }
    false
}

fn clone_string(s: &String) -> (r: String)
    ensures
        r@ == s@,
{
    s.clone()
}

fn text_of(lit: &str) -> (r: String)
    ensures
        r@ == lit@,
{
    lit.to_string()
}

/// Adds one issue per number carried by several documents.
fn check_duplicates(docs: &Vec<DocFacts>, out: &mut Vec<ValidationIssue>)
    ensures
        issues_view(final(out)@) == issues_view(old(out)@) + duplicate_issues(docs@, 0),
{
    let ghost ds = docs@;
    let ghost start = issues_view(out@);
    let mut i: usize = 0;
    assert(start + duplicate_issues(ds, 0) =~= issues_view(out@) + duplicate_issues(ds, 0));
    while i < docs.len()
        invariant
            ds == docs@,
            i <= ds.len(),
            start + duplicate_issues(ds, 0) == issues_view(out@) + duplicate_issues(ds, i as int),
        decreases ds.len() - i,
    {
        let num = docs[i].number;
        let mut first = true;
        let mut j: usize = 0;
        while j < i
            invariant
                ds == docs@,
                i < ds.len(),
                j <= i,
                num == ds[i as int].number,
                first == forall|m: int| 0 <= m < j ==> ds[m].number != num,
            decreases i - j,
        {
            if docs[j].number == num {
                first = false;
            }
            j = j + 1;
        }
        let ghost before = out@;
        if first {
            let mut paths: Vec<String> = Vec::new();
            let mut count: usize = 0;
            let mut k: usize = 0;
            while k < docs.len()
                invariant
                    ds == docs@,
                    k <= ds.len(),
                    count == count_number(ds.take(k as int), num),
                    count <= k,
                    paths@.map_values(|p: String| p@) == paths_with_number(ds.take(k as int), num),
                decreases ds.len() - k,
            {
                proof {
                    assert(ds.take(k + 1).drop_last() =~= ds.take(k as int));
                    assert(ds.take(k + 1).last() == ds[k as int]);
                }
                if docs[k].number == num {
                    let p = clone_string(&docs[k].path);
                    let ghost pv = paths@;
                    paths.push(p);
                    assert(paths@.map_values(|p: String| p@) =~= pv.map_values(|p: String| p@).push(
                        p@,
                    ));
                    count = count + 1;
                }
                k = k + 1;
            }
            assert(ds.take(ds.len() as int) =~= ds);
            if count >= 2 {
                let issue = ValidationIssue::DuplicateNumber { number: num, paths };
                out.push(issue);
                assert(issues_view(out@) =~= issues_view(before).push(issue@));
            }
        }
        proof {
            let here = if first_with_number(ds, i as int) && count_number(ds, ds[i as int].number)
                >= 2 {
                seq![
                    IssueV::DuplicateNumber {
                        number: ds[i as int].number,
                        paths: paths_with_number(ds, ds[i as int].number),
                    },
                ]
            } else {
                Seq::empty()
            };
            assert(issues_view(out@) =~= issues_view(before) + here);
            assert(issues_view(before) + (here + duplicate_issues(ds, i + 1)) =~= issues_view(out@)
                + duplicate_issues(ds, i + 1));
        }
        i = i + 1;
    }
    assert(issues_view(out@) + Seq::<IssueV>::empty() =~= issues_view(out@));
}

/// The issues of one document's dangling references.
fn reference_issues(docs: &Vec<DocFacts>, d: &DocFacts, out: &mut Vec<ValidationIssue>)
    ensures
        issues_view(final(out)@) == issues_view(old(out)@) + reference_issues_of(docs@, *d),
{
    let ghost before = issues_view(out@);
    match d.supersedes {
        Some(r) => {
            if !number_exists_exec(docs, r) {
                let issue = ValidationIssue::MissingReference {
                    doc_num: d.number,
                    ref_type: text_of("supersedes"),
                    ref_num: r,
                };
                let ghost o = out@;
                out.push(issue);
                assert(issues_view(out@) =~= issues_view(o).push(issue@));
            }
        },
        None => {},
    }
    let ghost mid = issues_view(out@);
    match d.superseded_by {
        Some(r) => {
            if !number_exists_exec(docs, r) {
                let issue = ValidationIssue::MissingReference {
                    doc_num: d.number,
                    ref_type: text_of("superseded-by"),
                    ref_num: r,
                };
                let ghost o = out@;
                out.push(issue);
                assert(issues_view(out@) =~= issues_view(o).push(issue@));
            }
        },
        None => {},
    }
    assert(issues_view(out@) =~= before + reference_issues_of(docs@, *d));
}

fn date_issue(d: &DocFacts, out: &mut Vec<ValidationIssue>)
    ensures
        issues_view(final(out)@) == issues_view(old(out)@) + date_issues_of(*d),
{
    let c = &d.created;
    let u = &d.updated;
    let after = c.year > u.year || (c.year == u.year && (c.month > u.month || (c.month == u.month
        && c.day > u.day)));
    if after {
        let issue = ValidationIssue::DateOrderIssue {
            doc_num: d.number,
            created: clone_string(&c.text),
            updated: clone_string(&u.text),
        };
        let ghost o = out@;
        out.push(issue);
        assert(issues_view(out@) =~= issues_view(o) + date_issues_of(*d));
    } else {
        assert(issues_view(out@) =~= issues_view(out@) + date_issues_of(*d));
    }
}

fn directory_issue(d: &DocFacts, out: &mut Vec<ValidationIssue>)
    ensures
        issues_view(final(out)@) == issues_view(old(out)@) + directory_issues_of(*d),
{
    match state_from_directory(d.path.as_str()) {
        Some(ds) => {
            if ds != d.state {
                let issue = ValidationIssue::StateDirectoryMismatch {
                    doc_num: d.number,
                    yaml_state: text_of(d.state.as_str()),
                    dir_state: text_of(ds.as_str()),
                    path: clone_string(&d.path),
                };
                let ghost o = out@;
                out.push(issue);
                assert(issues_view(out@) =~= issues_view(o) + directory_issues_of(*d));
                return ;
            }
        },
        None => {},
    }
    assert(issues_view(out@) =~= issues_view(out@) + directory_issues_of(*d));
}

fn not_indexed_issue(keys: &StrMap<IndexEntry>, d: &DocFacts, out: &mut Vec<ValidationIssue>)
    requires
        keys.wf(),
    ensures
        issues_view(final(out)@) == issues_view(old(out)@) + not_indexed_of(keys.key_seq(), *d),
{
    let digits = zero_padded_chars(d.number as u64, 4);
    let key = string_from_chars(digits.as_slice());
    proof {
        keys.lemma_keys();
    }
    if !keys.contains_key(key.as_str()) {
        let issue = ValidationIssue::NotInIndex {
            doc_num: d.number,
            title: clone_string(&d.title),
            path: clone_string(&d.path),
        };
        let ghost o = out@;
        out.push(issue);
        assert(issues_view(out@) =~= issues_view(o) + not_indexed_of(keys.key_seq(), *d));
    } else {
        assert(issues_view(out@) =~= issues_view(out@) + not_indexed_of(keys.key_seq(), *d));
    }
}

/// Runs every check and lists what it found, check by check. `index` is the parsed index
/// when its file could be read; `files` pairs each document file's path with its content.
pub fn collect_issues(
    docs: &Vec<DocFacts>,
    index: Option<&StrMap<IndexEntry>>,
    files: &Vec<(String, String)>,
) -> (r: Vec<ValidationIssue>)
    requires
        index matches Some(m) ==> m.wf(),
    ensures
        issues_view(r@) == all_issues(
            docs@,
            match index {
                Some(m) => Some(m.key_seq()),
                None => None,
            },
            files_view(files@),
        ),
{
    let ghost ds = docs@;
    let mut out: Vec<ValidationIssue> = Vec::new();
    assert(issues_view(out@) =~= Seq::<IssueV>::empty());
    check_duplicates(docs, &mut out);
    let ghost after_dup = issues_view(out@);
    // references
    let mut i: usize = 0;
    let ghost f1 = |d: DocFacts| reference_issues_of(ds, d);
    assert(after_dup + per_doc(ds, 0, f1) =~= issues_view(out@) + per_doc(ds, 0, f1));
    while i < docs.len()
        invariant
            ds == docs@,
            i <= ds.len(),
            f1 == (|d: DocFacts| reference_issues_of(ds, d)),
            after_dup + per_doc(ds, 0, f1) == issues_view(out@) + per_doc(ds, i as int, f1),
        decreases ds.len() - i,
    {
        let ghost o = issues_view(out@);
        reference_issues(docs, &docs[i], &mut out);
        assert(o + (f1(ds[i as int]) + per_doc(ds, i + 1, f1)) =~= issues_view(out@) + per_doc(
            ds,
            i + 1,
            f1,
        ));
        i = i + 1;
    }
    let ghost after_ref = issues_view(out@);
    assert(after_ref =~= after_dup + per_doc(ds, 0, f1));
    // dates
    let ghost f2 = |d: DocFacts| date_issues_of(d);
    i = 0;
    assert(after_ref + per_doc(ds, 0, f2) =~= issues_view(out@) + per_doc(ds, 0, f2));
    while i < docs.len()
        invariant
            ds == docs@,
            i <= ds.len(),
            f2 == (|d: DocFacts| date_issues_of(d)),
            after_ref + per_doc(ds, 0, f2) == issues_view(out@) + per_doc(ds, i as int, f2),
        decreases ds.len() - i,
    {
        let ghost o = issues_view(out@);
        date_issue(&docs[i], &mut out);
        assert(o + (f2(ds[i as int]) + per_doc(ds, i + 1, f2)) =~= issues_view(out@) + per_doc(
            ds,
            i + 1,
            f2,
        ));
        i = i + 1;
    }
    let ghost after_date = issues_view(out@);
    assert(after_date =~= after_ref + per_doc(ds, 0, f2));
    // directories
    let ghost f3 = |d: DocFacts| directory_issues_of(d);
    i = 0;
    assert(after_date + per_doc(ds, 0, f3) =~= issues_view(out@) + per_doc(ds, 0, f3));
    while i < docs.len()
        invariant
            ds == docs@,
            i <= ds.len(),
            f3 == (|d: DocFacts| directory_issues_of(d)),
            after_date + per_doc(ds, 0, f3) == issues_view(out@) + per_doc(ds, i as int, f3),
        decreases ds.len() - i,
    {
        let ghost o = issues_view(out@);
        directory_issue(&docs[i], &mut out);
        assert(o + (f3(ds[i as int]) + per_doc(ds, i + 1, f3)) =~= issues_view(out@) + per_doc(
            ds,
            i + 1,
            f3,
        ));
        i = i + 1;
    }
    let ghost after_dir = issues_view(out@);
    assert(after_dir =~= after_date + per_doc(ds, 0, f3));
    // the index
    let ghost index_part: Seq<IssueV> = Seq::empty();
    match index {
        Some(m) => {
            let ghost keys = m.key_seq();
            let ghost f4 = |d: DocFacts| not_indexed_of(keys, d);
            i = 0;
            assert(after_dir + per_doc(ds, 0, f4) =~= issues_view(out@) + per_doc(ds, 0, f4));
            while i < docs.len()
                invariant
                    ds == docs@,
                    i <= ds.len(),
                    m.wf(),
                    keys == m.key_seq(),
                    f4 == (|d: DocFacts| not_indexed_of(keys, d)),
                    after_dir + per_doc(ds, 0, f4) == issues_view(out@) + per_doc(ds, i as int, f4),
                decreases ds.len() - i,
            {
                let ghost o = issues_view(out@);
                not_indexed_issue(m, &docs[i], &mut out);
                assert(o + (f4(ds[i as int]) + per_doc(ds, i + 1, f4)) =~= issues_view(out@)
                    + per_doc(ds, i + 1, f4));
                i = i + 1;
            }
            let ghost after_missing = issues_view(out@);
            assert(after_missing =~= after_dir + per_doc(ds, 0, f4));
            proof {
                m.lemma_keys();
            }
            let mut k: usize = 0;
            let n = m.len();
            assert(after_missing + stale_entries(ds, keys, 0) =~= issues_view(out@) + stale_entries(
                ds,
                keys,
                0,
            ));
            while k < n
                invariant
                    ds == docs@,
                    m.wf(),
                    keys == m.key_seq(),
                    n == keys.len(),
                    k <= n,
                    after_missing + stale_entries(ds, keys, 0) == issues_view(out@)
                        + stale_entries(ds, keys, k as int),
                decreases n - k,
            {
                let key = m.key_at(k);
                let num = match parse_u32(key.as_str()) {
                    Some(v) => v,
                    None => 0,
                };
                let ghost o = issues_view(out@);
                if !number_exists_exec(docs, num) {
                    let issue = ValidationIssue::InIndexNotOnDisk { number: clone_string(key) };
                    out.push(issue);
                    assert(issues_view(out@) =~= o.push(issue@));
                }
                assert(o + (if !number_exists(ds, num) {
                    seq![IssueV::InIndexNotOnDisk { number: keys[k as int] }]
                } else {
                    Seq::empty()
                } + stale_entries(ds, keys, k + 1)) =~= issues_view(out@) + stale_entries(
                    ds,
                    keys,
                    k + 1,
                ));
                k = k + 1;
            }
            proof {
                index_part = per_doc(ds, 0, f4) + stale_entries(ds, keys, 0);
            }
            assert(issues_view(out@) =~= after_dir + index_part);
        },
        None => {
            assert(issues_view(out@) =~= after_dir + index_part);
        },
    }
    let ghost after_index = issues_view(out@);
    // headers
    let ghost fs = files_view(files@);
    let mut h: usize = 0;
    assert(after_index + header_issues(fs, 0) =~= issues_view(out@) + header_issues(fs, 0));
    while h < files.len()
        invariant
            fs == files_view(files@),
            h <= files@.len(),
            after_index + header_issues(fs, 0) == issues_view(out@) + header_issues(fs, h as int),
        decreases files@.len() - h,
    {
        let ghost o = issues_view(out@);
        assert(fs[h as int] == (files@[h as int].0@, files@[h as int].1@));
        if !has_frontmatter(files[h].1.as_str()) {
            let issue = ValidationIssue::MissingHeaders { path: clone_string(&files[h].0) };
            out.push(issue);
            assert(issues_view(out@) =~= o.push(issue@));
        }
        assert(o + (if !has_frontmatter_spec(fs[h as int].1) {
            seq![IssueV::MissingHeaders { path: fs[h as int].0 }]
        } else {
            Seq::empty()
        } + header_issues(fs, h + 1)) =~= issues_view(out@) + header_issues(fs, h + 1));
        h = h + 1;
    }
    assert(issues_view(out@) =~= after_index + header_issues(fs, 0));
    out
}

// ---------------------------------------------------------------------------
// Reporting
// ---------------------------------------------------------------------------

/// How serious an issue is.
pub open spec fn severity_of(i: IssueV) -> Seq<char> {
    match i {
        IssueV::DuplicateNumber { .. } => "ERROR"@,
        IssueV::MissingReference { .. } => "ERROR"@,
        IssueV::StateDirectoryMismatch { .. } => "WARNING"@,
        IssueV::NotInIndex { .. } => "WARNING"@,
        IssueV::InIndexNotOnDisk { .. } => "ERROR"@,
        IssueV::DateOrderIssue { .. } => "WARNING"@,
        IssueV::MissingHeaders { .. } => "WARNING"@,
    }
}

/// Whether an issue counts as an error (the others are warnings).
pub open spec fn is_error(i: IssueV) -> bool {
    i is DuplicateNumber || i is MissingReference || i is InIndexNotOnDisk
}

/// Whether the tool can fix an issue by itself.
pub open spec fn auto_fixable(i: IssueV) -> bool {
    i is StateDirectoryMismatch || i is NotInIndex || i is MissingHeaders
}

/// The hint that tells how to fix an issue, for those the tool can fix.
pub open spec fn fix_text(i: IssueV) -> Option<Seq<char>> {
    match i {
        IssueV::StateDirectoryMismatch { .. } => Some("Run 'oxd sync-location <file>' to fix"@),
        IssueV::NotInIndex { .. } => Some("Run 'oxd update-index' to add to index"@),
        IssueV::MissingHeaders { .. } => Some("Run 'oxd add-headers <file>' to add headers"@),
        _ => None,
    }
}

/// The listed paths, each on its own line indented by six spaces.
pub open spec fn indented_paths(ps: Seq<Seq<char>>) -> Seq<char>
    decreases ps.len(),
{
    if ps.len() == 0 {
        Seq::empty()
    } else if ps.len() == 1 {
        "      "@ + ps[0]
    } else {
        indented_paths(ps.drop_last()) + "\n"@ + "      "@ + ps.last()
    }
}

/// The message that describes an issue.
pub open spec fn description_of(i: IssueV) -> Seq<char> {
    match i {
        IssueV::DuplicateNumber { number, paths } => "Duplicate number "@ + zero_padded(
            number as nat,
            4,
        ) + " found in "@ + decimal(paths.len()) + " files:\n"@ + indented_paths(paths),
        IssueV::MissingReference { doc_num, ref_type, ref_num } => "Document "@ + zero_padded(
            doc_num as nat,
            4,
        ) + " references non-existent "@ + ref_type + " "@ + zero_padded(ref_num as nat, 4),
        IssueV::DateOrderIssue { doc_num, created, updated } => "Document "@ + zero_padded(
            doc_num as nat,
            4,
        ) + ": created date ("@ + created + ") is after updated date ("@ + updated + ")"@,
        IssueV::StateDirectoryMismatch { doc_num, yaml_state, dir_state, path } => "Document "@
            + zero_padded(doc_num as nat, 4) + ": YAML state '"@ + yaml_state
            + "' doesn't match directory state '"@ + dir_state + "'\n      Path: "@ + path,
        IssueV::NotInIndex { doc_num, title, path } => "Document "@ + zero_padded(
            doc_num as nat,
            4,
        ) + " '"@ + title + "' exists but not in index\n      Path: "@ + path,
        IssueV::InIndexNotOnDisk { number } => "Index entry "@ + number
            + " references non-existent file"@,
        IssueV::MissingHeaders { path } => "Document missing YAML headers: "@ + path,
    }
}

fn push_padded(v: &mut Vec<char>, n: u32)
    ensures
        final(v)@ == old(v)@ + zero_padded(n as nat, 4),
{
    let d = zero_padded_chars(n as u64, 4);
    push_all(v, d.as_slice());
}

impl ValidationIssue {
    /// `ERROR` or `WARNING`.
    pub fn severity(&self) -> (r: &'static str)
        ensures
            r@ == severity_of(self@),
    {
        match self {
            ValidationIssue::DuplicateNumber { .. } => "ERROR",
            ValidationIssue::MissingReference { .. } => "ERROR",
            ValidationIssue::StateDirectoryMismatch { .. } => "WARNING",
            ValidationIssue::NotInIndex { .. } => "WARNING",
            ValidationIssue::InIndexNotOnDisk { .. } => "ERROR",
            ValidationIssue::DateOrderIssue { .. } => "WARNING",
            ValidationIssue::MissingHeaders { .. } => "WARNING",
        }
    }

    /// Whether the tool can fix this issue by itself.
    pub fn can_auto_fix(&self) -> (b: bool)
        ensures
            b == auto_fixable(self@),
    {
        match self {
            ValidationIssue::StateDirectoryMismatch { .. } => true,
            ValidationIssue::NotInIndex { .. } => true,
            ValidationIssue::MissingHeaders { .. } => true,
            _ => false,
        }
    }

    /// How to fix this issue, when the tool can.
    pub fn fix_description(&self) -> (r: Option<String>)
        ensures
            match r {
                Some(t) => fix_text(self@) == Some(t@),
                None => fix_text(self@) is None,
            },
    {
        match self {
            ValidationIssue::StateDirectoryMismatch { .. } => Some(
                text_of("Run 'oxd sync-location <file>' to fix"),
            ),
            ValidationIssue::NotInIndex { .. } => Some(
                text_of("Run 'oxd update-index' to add to index"),
            ),
            ValidationIssue::MissingHeaders { .. } => Some(
                text_of("Run 'oxd add-headers <file>' to add headers"),
            ),
            _ => None,
        }
    }

    /// The message that describes this issue.
    pub fn description(&self) -> (r: String)
        ensures
            r@ == description_of(self@),
    {
        let mut v: Vec<char> = Vec::new();
        match self {
            ValidationIssue::DuplicateNumber { number, paths } => {
                push_str(&mut v, "Duplicate number ");
                push_padded(&mut v, *number);
                push_str(&mut v, " found in ");
                let count = decimal_chars(paths.len() as u64);
                push_all(&mut v, count.as_slice());
                push_str(&mut v, " files:\n");
                let ghost ps = paths@.map_values(|p: String| p@);
                let ghost head = v@;
                let mut k: usize = 0;
                while k < paths.len()
                    invariant
                        k <= paths@.len(),
                        ps == paths@.map_values(|p: String| p@),
                        v@ == head + indented_paths(ps.take(k as int)),
                    decreases paths@.len() - k,
                {
                    proof {
                        assert(ps.take(k + 1).drop_last() =~= ps.take(k as int));
                        assert(ps.take(k + 1).last() == paths@[k as int]@);
                    }
                    if k > 0 {
                        push_str(&mut v, "\n");
                    }
                    push_str(&mut v, "      ");
                    push_str(&mut v, paths[k].as_str());
                    proof {
                        if k == 0 {
                            assert(ps.take(1) =~= seq![paths@[0]@]);
                            assert(indented_paths(ps.take(0)) =~= Seq::<char>::empty());
                        }
                    }
                    k = k + 1;
                    assert(v@ =~= head + indented_paths(ps.take(k as int)));
                }
                assert(ps.take(paths@.len() as int) =~= ps);
            },
            ValidationIssue::MissingReference { doc_num, ref_type, ref_num } => {
                push_str(&mut v, "Document ");
                push_padded(&mut v, *doc_num);
                push_str(&mut v, " references non-existent ");
                push_str(&mut v, ref_type.as_str());
                push_str(&mut v, " ");
                push_padded(&mut v, *ref_num);
            },
            ValidationIssue::DateOrderIssue { doc_num, created, updated } => {
                push_str(&mut v, "Document ");
                push_padded(&mut v, *doc_num);
                push_str(&mut v, ": created date (");
                push_str(&mut v, created.as_str());
                push_str(&mut v, ") is after updated date (");
                push_str(&mut v, updated.as_str());
                push_str(&mut v, ")");
            },
            ValidationIssue::StateDirectoryMismatch { doc_num, yaml_state, dir_state, path } => {
                push_str(&mut v, "Document ");
                push_padded(&mut v, *doc_num);
                push_str(&mut v, ": YAML state '");
                push_str(&mut v, yaml_state.as_str());
                push_str(&mut v, "' doesn't match directory state '");
                push_str(&mut v, dir_state.as_str());
                push_str(&mut v, "'\n      Path: ");
                push_str(&mut v, path.as_str());
            },
            ValidationIssue::NotInIndex { doc_num, title, path } => {
                push_str(&mut v, "Document ");
                push_padded(&mut v, *doc_num);
                push_str(&mut v, " '");
                push_str(&mut v, title.as_str());
                push_str(&mut v, "' exists but not in index\n      Path: ");
                push_str(&mut v, path.as_str());
            },
            ValidationIssue::InIndexNotOnDisk { number } => {
                push_str(&mut v, "Index entry ");
                push_str(&mut v, number.as_str());
                push_str(&mut v, " references non-existent file");
            },
            ValidationIssue::MissingHeaders { path } => {
                push_str(&mut v, "Document missing YAML headers: ");
                push_str(&mut v, path.as_str());
            },
        }
        string_from_chars(v.as_slice())
    }
}

/// How many issues are errors, how many are warnings, and how many the tool can fix.
pub open spec fn tally(is: Seq<IssueV>) -> (nat, nat, nat)
    decreases is.len(),
{
    if is.len() == 0 {
        (0, 0, 0)
    } else {
        let (e, w, f) = tally(is.drop_last());
        let i = is.last();
        (
            e + if is_error(i) {
                1nat
            } else {
                0nat
            },
            w + if is_error(i) {
                0nat
            } else {
                1nat
            },
            f + if auto_fixable(i) {
                1nat
            } else {
                0nat
            },
        )
    }
}

/// Counts the errors, the warnings and the issues the tool can fix.
pub fn summarize(issues: &Vec<ValidationIssue>) -> (r: (usize, usize, usize))
    ensures
        (r.0 as nat, r.1 as nat, r.2 as nat) == tally(issues_view(issues@)),
{
    let ghost iv = issues_view(issues@);
    let mut errors: usize = 0;
    let mut warnings: usize = 0;
    let mut fixable: usize = 0;
    let mut k: usize = 0;
    while k < issues.len()
        invariant
            k <= issues@.len(),
            iv == issues_view(issues@),
            (errors as nat, warnings as nat, fixable as nat) == tally(iv.take(k as int)),
            errors + warnings == k,
            fixable <= k,
        decreases issues@.len() - k,
    {
        proof {
            assert(iv.take(k + 1).drop_last() =~= iv.take(k as int));
            assert(iv.take(k + 1).last() == issues@[k as int]@);
        }
        let issue = &issues[k];
        let err = match issue {
            ValidationIssue::DuplicateNumber { .. } => true,
            ValidationIssue::MissingReference { .. } => true,
            ValidationIssue::InIndexNotOnDisk { .. } => true,
            _ => false,
        };
        if err {
            errors = errors + 1;
        } else {
            warnings = warnings + 1;
        }
        if issue.can_auto_fix() {
            fixable = fixable + 1;
        }
        k = k + 1;
    }
    assert(iv.take(issues@.len() as int) =~= iv);
    (errors, warnings, fixable)
}

/// Every issue is either an error or a warning, and the counts add up.
pub proof fn lemma_tally_total(is: Seq<IssueV>)
    ensures
        tally(is).0 + tally(is).1 == is.len(),
        tally(is).2 <= is.len(),
    decreases is.len(),
{
    if is.len() > 0 {
        lemma_tally_total(is.drop_last());
    }
}

} // verus!
