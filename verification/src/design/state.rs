//! Change detection: content checksums and the outcome of a scan of the documents.

use crate::design::doc::DocState;
use crate::design::docmeta::{copy_metadata, DocMetadata, DocMetadataV};
use crate::design::index_sync::listed_path;
use crate::design::doc::{parse_u32, parse_u32_spec};
use crate::paths::{file_name_of, file_stem_of, path_file_name, path_file_stem, strip_prefix_of};
use crate::textops::{contains, contains_str};
use crate::text::push_str;
use crate::design::nummap::{increasing, NumMap};
use crate::text::string_from_chars;
use vstd::prelude::*;

verus! {

/// The SHA-256 digest of `data` (`sha2::Sha256::digest`).
pub uninterp spec fn sha256(data: Seq<u8>) -> Seq<u8>;

/// `<sha2::Sha256 as sha2::Digest>::digest`.
/// Claims the result is the named digest of the data, and that a SHA-256 digest is
/// 32 bytes long.
#[verifier::external_body]
fn sha256_digest(data: &[u8]) -> (r: Vec<u8>)
    ensures
        r@ == sha256(data@),
        r@.len() == 32,
{
    <sha2::Sha256 as sha2::Digest>::digest(data).to_vec()
}

/// The lowercase hexadecimal digit of `d < 16`.
pub open spec fn hex_digit(d: u8) -> char {
    if d < 10 {
        (48 + d) as char
    } else {
        (87 + d) as char
    }
}

/// Two lowercase hexadecimal digits per byte, high nibble first.
pub open spec fn hex_of(bytes: Seq<u8>) -> Seq<char>
    decreases bytes.len(),
{
    if bytes.len() == 0 {
        Seq::empty()
    } else {
        hex_of(bytes.drop_last()) + seq![
            hex_digit(bytes.last() / 16),
            hex_digit(bytes.last() % 16),
        ]
    }
}

fn hex_char(d: u8) -> (c: char)
    requires
        d < 16,
    ensures
        c == hex_digit(d),
{
    if d < 10 {
        (48u8 + d) as char
    } else {
        (87u8 + d) as char
    }
}

/// The checksum of a file's contents: its SHA-256 digest in lowercase hexadecimal.
pub fn checksum_of(contents: &[u8]) -> (r: String)
    ensures
        r@ == hex_of(sha256(contents@)),
        r@.len() == 64,
{
    let digest = sha256_digest(contents);
    let mut out: Vec<char> = Vec::new();
    let mut i: usize = 0;
    while i < digest.len()
        invariant
            i <= digest@.len(),
            out@ == hex_of(digest@.take(i as int)),
            out@.len() == 2 * i,
        decreases digest@.len() - i,
    {
        let b = digest[i];
        out.push(hex_char(b / 16));
        out.push(hex_char(b % 16));
        proof {
            assert(digest@.take(i + 1).drop_last() =~= digest@.take(i as int));
            assert(digest@.take(i + 1).last() == b);
        }
        i = i + 1;
    }
    assert(digest@.take(digest@.len() as int) =~= digest@);
    string_from_chars(out.as_slice())
}

/// Whether a file whose contents are `contents` differs from the recorded checksum.
pub fn file_changed(contents: &[u8], expected_checksum: &str) -> (b: bool)
    ensures
        b == (hex_of(sha256(contents@)) != expected_checksum@),
{
    let actual = checksum_of(contents);
    !crate::textops::str_equal(actual.as_str(), expected_checksum)
}

/// What a scan of the documents found: numbers of new, changed and deleted documents, and
/// the errors met on the way.
#[derive(Debug)]
pub struct ScanResult {
    pub new_files: Vec<u32>,
    pub changed: Vec<u32>,
    pub deleted: Vec<u32>,
    pub errors: Vec<String>,
}

impl ScanResult {
    /// A scan that found nothing.
    pub fn new() -> (r: Self)
        ensures
            r.new_files@.len() == 0,
            r.changed@.len() == 0,
            r.deleted@.len() == 0,
            r.errors@.len() == 0,
    {
        ScanResult {
            new_files: Vec::new(),
            changed: Vec::new(),
            deleted: Vec::new(),
            errors: Vec::new(),
        }
    }

    /// Whether any document is new, changed or deleted.
    pub fn has_changes(&self) -> (b: bool)
        ensures
            b == (self.new_files@.len() > 0 || self.changed@.len() > 0 || self.deleted@.len()
                > 0),
    {
        !self.new_files.is_empty() || !self.changed.is_empty() || !self.deleted.is_empty()
    }

    /// How many documents are new, changed or deleted.
    pub fn total_changes(&self) -> (n: usize)
        requires
            self.new_files@.len() + self.changed@.len() + self.deleted@.len() <= usize::MAX,
        ensures
            n == self.new_files@.len() + self.changed@.len() + self.deleted@.len(),
    {
        self.new_files.len() + self.changed.len() + self.deleted.len()
    }
}

/// A scan has changes exactly when it counts at least one change.
pub proof fn lemma_has_changes_iff_total(r: ScanResult)
    ensures
        (r.new_files@.len() > 0 || r.changed@.len() > 0 || r.deleted@.len() > 0) <==> (
        r.new_files@.len() + r.changed@.len() + r.deleted@.len() > 0),
{
}


/// A point in time: whole seconds since the Unix epoch and the nanoseconds past them.
pub type Instant = (i64, u32);

/// One document's canonical record: its metadata, its path relative to the documents
/// directory, the checksum, size and modification time of its file.
#[derive(Debug)]
pub struct DocumentRecord {
    pub metadata: DocMetadata,
    pub path: String,
    pub checksum: String,
    pub file_size: u64,
    pub modified: (i64, u32),
}

/// A record as plain values.
pub struct DocumentRecordV {
    pub metadata: DocMetadataV,
    pub path: Seq<char>,
    pub checksum: Seq<char>,
    pub file_size: u64,
    pub modified: (i64, u32),
}

impl DeepView for DocumentRecord {
    type V = DocumentRecordV;

    open spec fn deep_view(&self) -> DocumentRecordV {
        DocumentRecordV {
            metadata: self.metadata.deep_view(),
            path: self.path@,
            checksum: self.checksum@,
            file_size: self.file_size,
            modified: self.modified,
        }
    }
}

/// The canonical state of all documents: a schema version, when it last changed, the
/// records by number, and the next free number.
pub struct DocumentState {
    pub version: u32,
    pub last_updated: (i64, u32),
    pub documents: NumMap<DocumentRecord>,
    pub next_number: u32,
}

/// The records of numbers `ns` whose state is `st`, in that order.
pub open spec fn records_in_state(
    ns: Seq<u32>,
    records: Map<u32, DocumentRecordV>,
    st: DocState,
) -> Seq<DocumentRecordV>
    decreases ns.len(),
{
    if ns.len() == 0 {
        Seq::empty()
    } else {
        let prev = records_in_state(ns.drop_last(), records, st);
        if records[ns.last()].metadata.state == st {
            prev.push(records[ns.last()])
        } else {
            prev
        }
    }
}

/// The plain values of a sequence of records.
pub open spec fn record_views(v: Seq<&DocumentRecord>) -> Seq<DocumentRecordV> {
    v.map_values(|r: &DocumentRecord| r.deep_view())
}

/// Where a stable sort by number places `x` among the already sorted `s`: after the last
/// record, counting from the end, whose number is not above that of `x`.
pub open spec fn insert_point(s: Seq<DocumentRecordV>, x: DocumentRecordV) -> int
    decreases s.len(),
{
    if s.len() == 0 || s.last().metadata.number <= x.metadata.number {
        s.len() as int
    } else {
        insert_point(s.drop_last(), x)
    }
}

/// `s` sorted by number, as a stable sort does it: records of equal number keep the order
/// they had in `s`.
pub open spec fn sort_by_number(s: Seq<DocumentRecordV>) -> Seq<DocumentRecordV>
    decreases s.len(),
{
    if s.len() == 0 {
        s
    } else {
        let t = sort_by_number(s.drop_last());
        t.insert(insert_point(t, s.last()), s.last())
    }
}

/// The numbers of the records never decrease along `s`.
pub open spec fn numbers_ascending(s: Seq<DocumentRecordV>) -> bool {
    forall|i: int, j: int|
        0 <= i < j < s.len() ==> #[trigger] s[i].metadata.number <= #[trigger] s[j].metadata.number
}

proof fn lemma_insert_point(s: Seq<DocumentRecordV>, x: DocumentRecordV)
    ensures
        0 <= insert_point(s, x) <= s.len(),
        forall|i: int|
            insert_point(s, x) <= i < s.len() ==> s[i].metadata.number > x.metadata.number,
        insert_point(s, x) == 0 || s[insert_point(s, x) - 1].metadata.number <= x.metadata.number,
    decreases s.len(),
{
    if s.len() > 0 && s.last().metadata.number > x.metadata.number {
        lemma_insert_point(s.drop_last(), x);
        assert forall|i: int|
            insert_point(s, x) <= i < s.len() implies s[i].metadata.number > x.metadata.number by {
            if i < s.len() - 1 {
                assert(s[i] == s.drop_last()[i]);
            }
        }
    }
}

proof fn lemma_insert_sorted(s: Seq<DocumentRecordV>, x: DocumentRecordV)
    requires
        numbers_ascending(s),
    ensures
        numbers_ascending(s.insert(insert_point(s, x), x)),
        s.insert(insert_point(s, x), x).to_multiset() == s.to_multiset().insert(x),
{
    lemma_insert_point(s, x);
    let p = insert_point(s, x);
    let r = s.insert(p, x);
    assert forall|i: int| 0 <= i < p implies s[i].metadata.number <= x.metadata.number by {
        if i < p - 1 {
            assert(s[i].metadata.number <= s[p - 1].metadata.number);
        }
    }
    assert forall|i: int, j: int|
        0 <= i < j < r.len() implies #[trigger] r[i].metadata.number <= #[trigger] r[j].metadata.number by {
        if j < p {
        } else if j == p {
        } else if i < p {
            assert(s[i].metadata.number <= s[j - 1].metadata.number);
        } else if i == p {
        } else {
            assert(s[i - 1].metadata.number <= s[j - 1].metadata.number);
        }
    }
    vstd::seq_lib::to_multiset_insert(s, p, x);
}

/// A stable sort by number puts the numbers in ascending order, and keeps every record,
/// each as many times as it came.
pub proof fn lemma_sort_by_number(s: Seq<DocumentRecordV>)
    ensures
        numbers_ascending(sort_by_number(s)),
        sort_by_number(s).to_multiset() == s.to_multiset(),
        sort_by_number(s).len() == s.len(),
    decreases s.len(),
{
    if s.len() > 0 {
        lemma_sort_by_number(s.drop_last());
        let t = sort_by_number(s.drop_last());
        lemma_insert_sorted(t, s.last());
        assert(s.drop_last().push(s.last()) =~= s);
        vstd::seq_lib::to_multiset_build(s.drop_last(), s.last());
    }
    vstd::seq_lib::to_multiset_len(sort_by_number(s));
    vstd::seq_lib::to_multiset_len(s);
}

/// Places `x` into `v`, whose records are sorted by number, where a stable sort would.
fn insert_by_number<'a>(v: &mut Vec<&'a DocumentRecord>, x: &'a DocumentRecord)
    ensures
        record_views(final(v)@) == record_views(old(v)@).insert(
            insert_point(record_views(old(v)@), x.deep_view()),
            x.deep_view(),
        ),
{
    let ghost s = record_views(v@);
    let ghost xv = x.deep_view();
    let mut j: usize = v.len();
    assert(s.take(j as int) =~= s);
    while j > 0 && v[j - 1].metadata.number > x.metadata.number
        invariant
            j <= v@.len(),
            s == record_views(v@),
            xv == x.deep_view(),
            insert_point(s, xv) == insert_point(s.take(j as int), xv),
        decreases j,
    {
        assert(s.take(j as int).drop_last() =~= s.take(j - 1));
        assert(s.take(j as int).last() == s[j - 1]);
        assert(s[j - 1] == v@[j - 1].deep_view());
        assert(s[j - 1].metadata.number == v@[j - 1].metadata.number);
        let ghost t = s.take(j as int);
        assert(t.len() > 0);
        assert(t.last().metadata.number > xv.metadata.number);
        assert(insert_point(t, xv) == insert_point(t.drop_last(), xv));
        j = j - 1;
    }
    let ghost t = s.take(j as int);
    assert(t.len() == j);
    v.insert(j, x);
    assert(record_views(v@) =~= s.insert(j as int, xv));
}

/// `v`'s records, sorted by number as a stable sort does it.
fn sorted_by_number<'a>(v: Vec<&'a DocumentRecord>) -> (r: Vec<&'a DocumentRecord>)
    ensures
        record_views(r@) == sort_by_number(record_views(v@)),
{
    let ghost s = record_views(v@);
    let mut out: Vec<&'a DocumentRecord> = Vec::new();
    let mut i: usize = 0;
    assert(s.take(0) =~= Seq::<DocumentRecordV>::empty());
    assert(record_views(out@) =~= Seq::<DocumentRecordV>::empty());
    while i < v.len()
        invariant
            i <= v@.len(),
            s == record_views(v@),
            record_views(out@) == sort_by_number(s.take(i as int)),
        decreases v@.len() - i,
    {
        insert_by_number(&mut out, v[i]);
        assert(s.take(i + 1).drop_last() =~= s.take(i as int));
        i = i + 1;
    }
    assert(s.take(v@.len() as int) =~= s);
    out
}

impl DocumentState {
    /// The records are well kept.
    pub closed spec fn wf(&self) -> bool {
        self.documents.wf()
    }

    /// The records by number, as plain values.
    pub closed spec fn records(&self) -> Map<u32, DocumentRecordV> {
        self.documents.map().map_values(|r: DocumentRecord| r.deep_view())
    }

    /// The numbers that have records, in increasing order.
    pub closed spec fn numbers(&self) -> Seq<u32> {
        self.documents.key_seq()
    }

    /// The records, in increasing order of their keys.
    pub open spec fn record_seq(&self) -> Seq<DocumentRecordV> {
        self.numbers().map_values(|k: u32| self.records()[k])
    }

    /// Every recorded number is below the next free number.
    pub open spec fn numbers_below_next(&self) -> bool {
        forall|k: u32| self.records().dom().contains(k) ==> k < self.next_number
    }

    /// The numbers increase strictly and are exactly the recorded ones.
    pub proof fn lemma_numbers(&self)
        requires
            self.wf(),
        ensures
            increasing(self.numbers()),
            forall|k: u32| self.records().dom().contains(k) <==> self.numbers().contains(k),
            self.records().dom().len() == self.numbers().len(),
    {
        self.documents.lemma_keys();
        assert(self.records().dom() =~= self.documents.map().dom());
    }

    /// An empty state of schema version 1, last updated at `now`, whose next number is 1.
    pub fn new(now: (i64, u32)) -> (r: Self)
        ensures
            r.wf(),
            r.version == 1,
            r.last_updated == now,
            r.records() == Map::<u32, DocumentRecordV>::empty(),
            r.next_number == 1,
            r.numbers_below_next(),
    {
        let r = DocumentState { version: 1, last_updated: now, documents: NumMap::new(), next_number: 1 };
        assert(r.records() =~= Map::<u32, DocumentRecordV>::empty());
        r
    }

    /// Adds or replaces the record of `number`, stamped `now`; the next free number moves
    /// past `number` when it was not already.
    pub fn upsert(&mut self, number: u32, record: DocumentRecord, now: (i64, u32))
        requires
            old(self).wf(),
            number >= old(self).next_number ==> number < u32::MAX,
        ensures
            final(self).wf(),
            final(self).records() == old(self).records().insert(number, record.deep_view()),
            final(self).last_updated == now,
            final(self).version == old(self).version,
            final(self).next_number == if number >= old(self).next_number {
                (number + 1) as u32
            } else {
                old(self).next_number
            },
            old(self).numbers_below_next() ==> final(self).numbers_below_next(),
    {
        let ghost old_records = self.records();
        let ghost rv = record.deep_view();
        self.documents.insert(number, record);
        self.last_updated = now;
        if number >= self.next_number {
            self.next_number = number + 1;
        }
        assert(self.records() =~= old_records.insert(number, rv));
    }

    /// Removes the record of `number`, stamped `now`, giving it back.
    pub fn remove(&mut self, number: u32, now: (i64, u32)) -> (r: Option<DocumentRecord>)
        requires
            old(self).wf(),
        ensures
            final(self).wf(),
            final(self).records() == old(self).records().remove(number),
            final(self).last_updated == now,
            final(self).version == old(self).version,
            final(self).next_number == old(self).next_number,
            match r {
                Some(rec) => old(self).records().dom().contains(number)
                    && old(self).records()[number] == rec.deep_view(),
                None => !old(self).records().dom().contains(number),
            },
            old(self).numbers_below_next() ==> final(self).numbers_below_next(),
    {
        let ghost old_records = self.records();
        self.last_updated = now;
        let r = self.documents.remove(number);
        assert(self.records() =~= old_records.remove(number));
        r
    }

    /// The record of `number`.
    pub fn get(&self, number: u32) -> (r: Option<&DocumentRecord>)
        requires
            self.wf(),
        ensures
            match r {
                Some(rec) => self.records().dom().contains(number) && self.records()[number]
                    == rec.deep_view(),
                None => !self.records().dom().contains(number),
            },
    {
        self.documents.get(number)
    }

    /// Every record, in increasing order of its key.
    pub(crate) fn in_key_order(&self) -> (r: Vec<&DocumentRecord>)
        requires
            self.wf(),
        ensures
            r@.len() == self.numbers().len(),
            forall|i: int|
                0 <= i < r@.len() ==> #[trigger] r@[i].deep_view() == self.records()[self.numbers()[i]],
    {
        proof {
            self.documents.lemma_keys();
        }
        let n = self.documents.len();
        let mut out: Vec<&DocumentRecord> = Vec::new();
        let mut i: usize = 0;
        while i < n
            invariant
                self.wf(),
                n == self.numbers().len(),
                i <= n,
                out@.len() == i,
                forall|j: int|
                    0 <= j < i ==> #[trigger] out@[j].deep_view() == self.records()[self.numbers()[j]],
            decreases n - i,
        {
            let rec = self.documents.val_at(i);
            out.push(rec);
            proof {
                self.documents.lemma_keys();
                assert(self.documents.key_seq().contains(self.documents.key_seq()[i as int]));
                assert(self.documents.map().dom().contains(self.numbers()[i as int]));
            }
            i = i + 1;
        }
        out
    }

    /// Every record, once each, by the record's own number (records of one number in the
    /// order of their keys).
    pub fn all(&self) -> (r: Vec<&DocumentRecord>)
        requires
            self.wf(),
        ensures
            record_views(r@) == sort_by_number(self.record_seq()),
            numbers_ascending(record_views(r@)),
            record_views(r@).to_multiset() == self.record_seq().to_multiset(),
    {
        proof {
            lemma_sort_by_number(self.record_seq());
        }
        let v = self.in_key_order();
        assert(record_views(v@) =~= self.record_seq());
        sorted_by_number(v)
    }

    /// The records in state `st`, by the record's own number (records of one number in
    /// the order of their keys).
    pub fn by_state(&self, st: DocState) -> (r: Vec<&DocumentRecord>)
        requires
            self.wf(),
        ensures
            record_views(r@) == sort_by_number(records_in_state(self.numbers(), self.records(), st)),
            numbers_ascending(record_views(r@)),
    {
        proof {
            lemma_sort_by_number(records_in_state(self.numbers(), self.records(), st));
        }
        let v = self.in_state_key_order(st);
        sorted_by_number(v)
    }

    fn in_state_key_order(&self, st: DocState) -> (r: Vec<&DocumentRecord>)
        requires
            self.wf(),
        ensures
            record_views(r@) == records_in_state(self.numbers(), self.records(), st),
    {
        proof {
            self.documents.lemma_keys();
        }
        let n = self.documents.len();
        let ghost ns = self.numbers();
        let mut out: Vec<&DocumentRecord> = Vec::new();
        let mut i: usize = 0;
        assert(out@.map_values(|x: &DocumentRecord| x.deep_view()) =~= records_in_state(
            ns.take(0),
            self.records(),
            st,
        ));
        while i < n
            invariant
                self.wf(),
                ns == self.numbers(),
                n == ns.len(),
                i <= n,
                out@.map_values(|x: &DocumentRecord| x.deep_view()) == records_in_state(
                    ns.take(i as int),
                    self.records(),
                    st,
                ),
            decreases n - i,
        {
            let rec = self.documents.val_at(i);
            proof {
                self.documents.lemma_keys();
                assert(self.documents.key_seq().contains(self.documents.key_seq()[i as int]));
                assert(self.documents.map().dom().contains(ns[i as int]));
                assert(ns.take(i + 1).drop_last() =~= ns.take(i as int));
                assert(ns.take(i + 1).last() == ns[i as int]);
            }
            let ghost before = out@;
            if rec.metadata.state == st {
                out.push(rec);
                assert(out@.map_values(|x: &DocumentRecord| x.deep_view()) =~= before.map_values(
                    |x: &DocumentRecord| x.deep_view(),
                ).push(rec.deep_view()));
            }
            i = i + 1;
        }
        assert(ns.take(n as int) =~= ns);
        out
    }
}

/// A record written by `upsert` is what `get` then reads back, and the next free number
/// stays above every recorded number.
pub proof fn lemma_upsert_then_get(
    before: DocumentState,
    after: DocumentState,
    number: u32,
    record: DocumentRecordV,
)
    requires
        after.records() == before.records().insert(number, record),
        after.next_number >= before.next_number,
        after.next_number > number,
        before.numbers_below_next(),
    ensures
        after.records().dom().contains(number),
        after.records()[number] == record,
        after.numbers_below_next(),
{
}

/// After `remove`, `get` finds nothing under the number, and every other record stays.
pub proof fn lemma_remove_then_get(before: DocumentState, after: DocumentState, number: u32)
    requires
        after.records() == before.records().remove(number),
    ensures
        !after.records().dom().contains(number),
        forall|k: u32|
            k != number ==> (after.records().dom().contains(k) <==> before.records().dom().contains(k)),
        forall|k: u32| k != number && after.records().dom().contains(k) ==> after.records()[k]
            == before.records()[k],
{
}


/// What reading one document file gave.
pub enum FileObservation {
    /// The file could not be read.
    Unreadable { path: String, error: String },
    /// The file was read but is not a design document.
    Unparsable { path: String, error: String },
    /// The file was read and parsed: its metadata, path, contents, size and modification
    /// time.
    Parsed {
        metadata: DocMetadata,
        path: String,
        contents: Vec<u8>,
        file_size: u64,
        modified: (i64, u32),
    },
}

/// An observation as plain values.
pub enum FileObservationV {
    Unreadable { path: Seq<char>, error: Seq<char> },
    Unparsable { path: Seq<char>, error: Seq<char> },
    Parsed {
        metadata: DocMetadataV,
        path: Seq<char>,
        contents: Seq<u8>,
        file_size: u64,
        modified: (i64, u32),
    },
}

impl DeepView for FileObservation {
    type V = FileObservationV;

    open spec fn deep_view(&self) -> FileObservationV {
        match self {
            FileObservation::Unreadable { path, error } => FileObservationV::Unreadable {
                path: path@,
                error: error@,
            },
            FileObservation::Unparsable { path, error } => FileObservationV::Unparsable {
                path: path@,
                error: error@,
            },
            FileObservation::Parsed { metadata, path, contents, file_size, modified } =>
                FileObservationV::Parsed {
                metadata: metadata.deep_view(),
                path: path@,
                contents: contents@,
                file_size: *file_size,
                modified: *modified,
            },
        }
    }
}

/// Whether instant `a` is later than instant `b`.
pub open spec fn later(a: (i64, u32), b: (i64, u32)) -> bool {
    a.0 > b.0 || (a.0 == b.0 && a.1 > b.1)
}

/// The record a parsed file gives: its metadata, its path relative to the documents
/// directory (as it is when outside it), and its checksum, size and time.
pub open spec fn record_of(
    metadata: DocMetadataV,
    path: Seq<char>,
    contents: Seq<u8>,
    file_size: u64,
    modified: (i64, u32),
    docs_dir: Seq<char>,
) -> DocumentRecordV {
    DocumentRecordV {
        metadata,
        path: listed_path(path, docs_dir),
        checksum: hex_of(sha256(contents)),
        file_size,
        modified,
    }
}

/// The running outcome of a scan: its findings, the numbers seen, the records and the
/// next free number.
pub struct ScanAcc {
    pub new_files: Seq<u32>,
    pub changed: Seq<u32>,
    pub errors: Seq<Seq<char>>,
    pub seen: Seq<u32>,
    pub records: Map<u32, DocumentRecordV>,
    pub next_number: u32,
}

/// The accumulated scan with the record of `number` written.
pub open spec fn acc_with_record(acc: ScanAcc, number: u32, rec: DocumentRecordV) -> ScanAcc {
    ScanAcc {
        records: acc.records.insert(number, rec),
        next_number: if number >= acc.next_number {
            (number + 1) as u32
        } else {
            acc.next_number
        },
        ..acc
    }
}

/// One file of a scan. An unreadable or unparsable file adds an error. A parsed file is
/// seen; without a record it is new, and with one it is changed when its checksum differs
/// (in a quick scan, only looked at when its size differs or its time is later); new and
/// changed files get their record written.
pub open spec fn scan_step(o: FileObservationV, acc: ScanAcc, docs_dir: Seq<char>, quick: bool) -> ScanAcc {
    match o {
        FileObservationV::Unreadable { path, error } => ScanAcc {
            errors: acc.errors.push("Failed to read "@ + path + ": "@ + error),
            ..acc
        },
        FileObservationV::Unparsable { path, error } => ScanAcc {
            errors: acc.errors.push("Failed to parse "@ + path + ": "@ + error),
            ..acc
        },
        FileObservationV::Parsed { metadata, path, contents, file_size, modified } => {
            let n = metadata.number;
            let acc1 = ScanAcc { seen: acc.seen.push(n), ..acc };
            let rec = record_of(metadata, path, contents, file_size, modified, docs_dir);
            if acc.records.dom().contains(n) {
                let old = acc.records[n];
                let looked = !quick || file_size != old.file_size || later(modified, old.modified);
                if looked && hex_of(sha256(contents)) != old.checksum {
                    acc_with_record(ScanAcc { changed: acc1.changed.push(n), ..acc1 }, n, rec)
                } else {
                    acc1
                }
            } else {
                acc_with_record(ScanAcc { new_files: acc1.new_files.push(n), ..acc1 }, n, rec)
            }
        },
    }
}

/// A scan over the files `os`, in order.
pub open spec fn scan_files(os: Seq<FileObservationV>, acc: ScanAcc, docs_dir: Seq<char>, quick: bool) -> ScanAcc
    decreases os.len(),
{
    if os.len() == 0 {
        acc
    } else {
        scan_step(os.last(), scan_files(os.drop_last(), acc, docs_dir, quick), docs_dir, quick)
    }
}

/// The number of observations of files that were read and parsed.
pub open spec fn parsed_count(os: Seq<FileObservationV>) -> nat
    decreases os.len(),
{
    if os.len() == 0 {
        0
    } else {
        parsed_count(os.drop_last()) + if os.last() is Parsed {
            1nat
        } else {
            0nat
        }
    }
}

/// A scan accounts for every file once: each file that could not be read or parsed adds
/// one error, each parsed file is seen once, and at most that many files are found new
/// or changed.
pub proof fn lemma_scan_counts(os: Seq<FileObservationV>, acc: ScanAcc, docs_dir: Seq<char>, quick: bool)
    ensures
        ({
            let r = scan_files(os, acc, docs_dir, quick);
            &&& r.errors.len() == acc.errors.len() + (os.len() - parsed_count(os))
            &&& r.seen.len() == acc.seen.len() + parsed_count(os)
            &&& r.new_files.len() + r.changed.len() <= acc.new_files.len() + acc.changed.len()
                + parsed_count(os)
            &&& r.new_files.len() >= acc.new_files.len()
            &&& r.changed.len() >= acc.changed.len()
            &&& parsed_count(os) <= os.len()
        }),
    decreases os.len(),
{
    if os.len() > 0 {
        lemma_scan_counts(os.drop_last(), acc, docs_dir, quick);
    }
}

/// The recorded numbers among `ns` that the scan did not see, in that order.
pub open spec fn unseen(ns: Seq<u32>, seen: Seq<u32>) -> Seq<u32>
    decreases ns.len(),
{
    if ns.len() == 0 {
        Seq::empty()
    } else {
        let prev = unseen(ns.drop_last(), seen);
        if seen.contains(ns.last()) {
            prev
        } else {
            prev.push(ns.last())
        }
    }
}

/// Whether every parsed file's number leaves room for the next free number.
pub open spec fn numbers_fit(os: Seq<FileObservationV>) -> bool {
    forall|i: int|
        0 <= i < os.len() ==> (#[trigger] os[i] matches FileObservationV::Parsed { metadata, .. }
            ==> metadata.number < u32::MAX)
}

fn scan_error(what: &str, path: &str, error: &str) -> (r: String)
    ensures
        r@ == what@ + path@ + ": "@ + error@,
{
    let mut v: Vec<char> = Vec::new();
    push_str(&mut v, what);
    push_str(&mut v, path);
    push_str(&mut v, ": ");
    push_str(&mut v, error);
    string_from_chars(v.as_slice())
}

fn push_number(v: &mut Vec<u32>, n: u32)
    ensures
        final(v)@ == old(v)@.push(n),
{
    v.push(n);
}

fn contains_number(v: &Vec<u32>, n: u32) -> (b: bool)
    ensures
        b == v@.contains(n),
{
    let mut i: usize = 0;
    while i < v.len()
        invariant
            i <= v@.len(),
            forall|j: int| 0 <= j < i ==> v@[j] != n,
        decreases v@.len() - i,
    {
        if v[i] == n {
            assert(v@[i as int] == n);
            return true;
        }
        i = i + 1;
    }
    false
}

impl DocumentState {
    /// Writes the record of a parsed file, stamped `now`.
    pub fn record_file(
        &mut self,
        metadata: &DocMetadata,
        path: &str,
        contents: &[u8],
        file_size: u64,
        modified: (i64, u32),
        docs_dir: &str,
        now: (i64, u32),
    )
        requires
            old(self).wf(),
            metadata.number >= old(self).next_number ==> metadata.number < u32::MAX,
        ensures
            final(self).wf(),
            final(self).records() == old(self).records().insert(
                metadata.number,
                record_of(metadata.deep_view(), path@, contents@, file_size, modified, docs_dir@),
            ),
            final(self).last_updated == now,
            final(self).version == old(self).version,
            final(self).next_number == if metadata.number >= old(self).next_number {
                (metadata.number + 1) as u32
            } else {
                old(self).next_number
            },
            old(self).numbers_below_next() ==> final(self).numbers_below_next(),
    {
        let rel = match strip_prefix_of(path, docs_dir) {
            Some(q) => q,
            None => path.to_string(),
        };
        let record = DocumentRecord {
            metadata: copy_metadata(metadata),
            path: rel,
            checksum: checksum_of(contents),
            file_size,
            modified,
        };
        self.upsert(metadata.number, record, now);
    }

    /// Brings the records in line with a scan of the document files (`quick` skips the
    /// checksum of files whose size and time are as recorded): new and changed files get
    /// their records written, then the records of numbers no file had are removed, in
    /// increasing order. The result lists new, changed and deleted numbers and the errors
    /// met; the state is stamped `now` when anything changed.
    pub fn apply_scan(
        &mut self,
        observations: &Vec<FileObservation>,
        docs_dir: &str,
        quick: bool,
        now: (i64, u32),
    ) -> (r: ScanResult)
        requires
            old(self).wf(),
            numbers_fit(observations.deep_view()),
        ensures
            ({
                let acc = scan_files(
                    observations.deep_view(),
                    fresh_scan(old(self).records(), old(self).next_number),
                    docs_dir@,
                    quick,
                );
                &&& r.new_files@ == acc.new_files
                &&& r.changed@ == acc.changed
                &&& r.errors.deep_view() == acc.errors
                &&& increasing(r.deleted@)
                &&& forall|k: u32|
                    r.deleted@.contains(k) <==> (acc.records.dom().contains(k) && !acc.seen.contains(
                        k,
                    ))
                &&& final(self).records() == acc.records.remove_keys(r.deleted@.to_set())
                &&& final(self).next_number == acc.next_number
            }),
            final(self).wf(),
            final(self).version == old(self).version,
            final(self).last_updated == if r.new_files@.len() > 0 || r.changed@.len() > 0
                || r.deleted@.len() > 0 {
                now
            } else {
                old(self).last_updated
            },
            old(self).numbers_below_next() ==> final(self).numbers_below_next(),
    {
        let ghost os = observations.deep_view();
        let ghost start = fresh_scan(self.records(), self.next_number);
        let ghost old_stamp = self.last_updated;
        let ghost old_nbn = self.numbers_below_next();
        let ghost version = self.version;
        let mut result = ScanResult::new();
        let mut seen: Vec<u32> = Vec::new();
        let mut i: usize = 0;
        proof {
            assert(os.take(0) =~= Seq::<FileObservationV>::empty());
            assert(result.errors.deep_view() =~= Seq::<Seq<char>>::empty());
            assert(result.new_files@ =~= Seq::<u32>::empty());
            assert(result.changed@ =~= Seq::<u32>::empty());
            assert(seen@ =~= Seq::<u32>::empty());
        }
        while i < observations.len()
            invariant
                i <= observations@.len(),
                os == observations.deep_view(),
                numbers_fit(os),
                self.wf(),
                self.version == version,
                old_nbn ==> self.numbers_below_next(),
                self.last_updated == if result.new_files@.len() > 0 || result.changed@.len() > 0 {
                    now
                } else {
                    old_stamp
                },
                result.deleted@.len() == 0,
                scan_files(os.take(i as int), start, docs_dir@, quick) == (ScanAcc {
                    new_files: result.new_files@,
                    changed: result.changed@,
                    errors: result.errors.deep_view(),
                    seen: seen@,
                    records: self.records(),
                    next_number: self.next_number,
                }),
            decreases observations@.len() - i,
        {
            proof {
                assert(os.take(i + 1).drop_last() =~= os.take(i as int));
                assert(os.take(i + 1).last() == os[i as int]);
                assert(os[i as int] == observations@[i as int].deep_view());
            }
            let ghost errs = result.errors.deep_view();
            match &observations[i] {
                FileObservation::Unreadable { path, error } => {
                    result.errors.push(scan_error("Failed to read ", path.as_str(), error.as_str()));
                    proof {
                        reveal_strlit("Failed to read ");
                    }
                    assert(result.errors.deep_view() =~= errs.push(
                        "Failed to read "@ + path@ + ": "@ + error@,
                    ));
                },
                FileObservation::Unparsable { path, error } => {
                    result.errors.push(scan_error("Failed to parse ", path.as_str(), error.as_str()));
                    assert(result.errors.deep_view() =~= errs.push(
                        "Failed to parse "@ + path@ + ": "@ + error@,
                    ));
                },
                FileObservation::Parsed { metadata, path, contents, file_size, modified } => {
                    let n = metadata.number;
                    push_number(&mut seen, n);
                    let verdict: Option<bool> = match self.get(n) {
                        Some(rec) => {
                            let looked = !quick || *file_size != rec.file_size || later_than(
                                *modified,
                                rec.modified,
                            );
                            Some(looked && file_changed(contents.as_slice(), rec.checksum.as_str()))
                        },
                        None => None,
                    };
                    match verdict {
                        Some(true) => {
                            push_number(&mut result.changed, n);
                            self.record_file(
                                metadata,
                                path.as_str(),
                                contents.as_slice(),
                                *file_size,
                                *modified,
                                docs_dir,
                                now,
                            );
                        },
                        Some(false) => {},
                        None => {
                            push_number(&mut result.new_files, n);
                            self.record_file(
                                metadata,
                                path.as_str(),
                                contents.as_slice(),
                                *file_size,
                                *modified,
                                docs_dir,
                                now,
                            );
                        },
                    }
                },
            }
            i = i + 1;
        }
        proof {
            assert(os.take(observations@.len() as int) =~= os);
        }
        let ghost acc_records = self.records();
        let ghost nf = result.new_files@;
        let ghost ch = result.changed@;
        let ghost er = result.errors.deep_view();
        let ghost stamp = self.last_updated;
        let ghost next = self.next_number;
        // Numbers with a record that no file had.
        let n = self.documents.len();
        let ghost ks = self.documents.key_seq();
        proof {
            self.documents.lemma_keys();
        }
        let mut j: usize = 0;
        while j < n
            invariant
                self.wf(),
                ks == self.documents.key_seq(),
                n == ks.len(),
                j <= n,
                increasing(ks),
                result.new_files@ == nf,
                result.changed@ == ch,
                result.errors.deep_view() == er,
                self.records() == acc_records,
                self.last_updated == stamp,
                self.next_number == next,
                self.version == version,
                old_nbn ==> self.numbers_below_next(),
                increasing(result.deleted@),
                forall|k: u32|
                    #![trigger result.deleted@.contains(k)]
                    #![trigger ks.take(j as int).contains(k)]
                    result.deleted@.contains(k) <==> (ks.take(j as int).contains(k) && !seen@.contains(k)),
                forall|a: int| 0 <= a < result.deleted@.len() ==> exists|b: int| 0 <= b < j && ks[b] == #[trigger] result.deleted@[a],
            decreases n - j,
        {
            let k = self.documents.key_at(j);
            let ghost before = result.deleted@;
            assert(forall|q: u32| before.contains(q) <==> (ks.take(j as int).contains(q) && !seen@.contains(q)));
            let ghost t0 = ks.take(j as int);
            let ghost t1 = ks.take(j + 1);
            proof {
                assert(t1 =~= t0.push(k));
                lemma_push_contains(t0, k);
            }
            let unseen_k = !contains_number(&seen, k);
            if unseen_k {
                push_number(&mut result.deleted, k);
                proof {
                    lemma_push_contains(before, k);
                    assert forall|a: int| 0 <= a < before.len() implies before[a] < k by {
                        let b = choose|b: int| 0 <= b < j && ks[b] == #[trigger] before[a];
                        assert(ks[b] < ks[j as int]);
                    }
                }
            }
            proof {
                assert(!t0.contains(k)) by {
                    if t0.contains(k) {
                        let b = choose|b: int| 0 <= b < t0.len() && #[trigger] t0[b] == k;
                        assert(ks[b] < ks[j as int]);
                    }
                }
                if unseen_k {
                    lemma_push_contains(before, k);
                }
                assert forall|q: u32| result.deleted@.contains(q) <==> (t1.contains(q) && !seen@.contains(q)) by {
                    assert(before.contains(q) <==> (t0.contains(q) && !seen@.contains(q)));
                    assert(t1.contains(q) <==> (t0.contains(q) || q == k));
                    if unseen_k {
                        assert(result.deleted@ == before.push(k));
                    } else {
                        assert(result.deleted@ == before);
                    }
                }
                assert forall|a: int| 0 <= a < result.deleted@.len() implies exists|b: int| 0 <= b < j + 1 && ks[b] == #[trigger] result.deleted@[a] by {
                    if a < before.len() {
                        let b = choose|b: int| 0 <= b < j && ks[b] == #[trigger] before[a];
                        assert(result.deleted@[a] == before[a]);
                    } else {
                        assert(ks[j as int] == result.deleted@[a]);
                    }
                }
            }
            j = j + 1;
        }
        proof {
            assert(ks.take(n as int) =~= ks);
            self.documents.lemma_keys();
            assert(self.records().dom() =~= self.documents.map().dom());
            assert forall|k: u32| result.deleted@.contains(k) <==> (acc_records.dom().contains(k) && !seen@.contains(k)) by {
                assert(self.records().dom().contains(k) <==> self.documents.map().dom().contains(k));
                assert(ks.take(n as int).contains(k) <==> ks.contains(k));
            }
        }
        // Remove them.
        let dn = result.deleted.len();
        let ghost dels = result.deleted@;
        let mut d: usize = 0;
        proof {
            assert(dels.take(0).to_set() =~= Set::<u32>::empty());
            assert(acc_records.remove_keys(Set::<u32>::empty()) =~= acc_records);
        }
        while d < dn
            invariant
                self.wf(),
                self.version == version,
                old_nbn ==> self.numbers_below_next(),
                dels == result.deleted@,
                dn == dels.len(),
                d <= dn,
                self.records() == acc_records.remove_keys(dels.take(d as int).to_set()),
                self.next_number == scan_files(os, start, docs_dir@, quick).next_number,
                self.last_updated == if result.new_files@.len() > 0 || result.changed@.len() > 0
                    || d > 0 {
                    now
                } else {
                    old_stamp
                },
            decreases dn - d,
        {
            let k = result.deleted[d];
            let ghost before = self.records();
            self.remove(k, now);
            proof {
                assert(dels.take(d + 1) =~= dels.take(d as int).push(k));
                lemma_push_to_set(dels.take(d as int), k);
                assert(self.records() =~= acc_records.remove_keys(dels.take(d + 1).to_set()));
            }
            d = d + 1;
        }
        proof {
            assert(dels.take(dn as int) =~= dels);
        }
        result
    }
}

proof fn lemma_push_contains(s: Seq<u32>, x: u32)
    ensures
        forall|q: u32| s.push(x).contains(q) <==> (s.contains(q) || q == x),
{
    assert forall|q: u32| s.push(x).contains(q) <==> (s.contains(q) || q == x) by {
        let t = s.push(x);
        if t.contains(q) {
            let b = choose|b: int| 0 <= b < t.len() && #[trigger] t[b] == q;
            if b < s.len() {
                assert(s[b] == q);
            }
        }
        if s.contains(q) {
            let b = choose|b: int| 0 <= b < s.len() && #[trigger] s[b] == q;
            assert(t[b] == q);
        }
        if q == x {
            assert(t[s.len() as int] == q);
        }
    }
}

proof fn lemma_push_to_set(s: Seq<u32>, x: u32)
    ensures
        s.push(x).to_set() == s.to_set().insert(x),
{
    lemma_push_contains(s, x);
    assert forall|q: u32| #[trigger] s.push(x).to_set().contains(q) <==> s.to_set().insert(x).contains(q) by {
        assert(s.push(x).to_set().contains(q) == s.push(x).contains(q));
        assert(s.to_set().contains(q) == s.contains(q));
    }
    assert(s.push(x).to_set() =~= s.to_set().insert(x));
}

fn later_than(a: (i64, u32), b: (i64, u32)) -> (r: bool)
    ensures
        r == later(a, b),
{
    a.0 > b.0 || (a.0 == b.0 && a.1 > b.1)
}

/// The number of the first of the records `rs` whose path contains `text`.
pub open spec fn first_with_path(rs: Seq<DocumentRecordV>, text: Seq<char>) -> Option<u32>
    decreases rs.len(),
{
    if rs.len() == 0 {
        None
    } else if contains(rs[0].path, text) {
        Some(rs[0].metadata.number)
    } else {
        first_with_path(rs.drop_first(), text)
    }
}

impl DocumentState {
    /// The document a user names: the number the text reads as, else the number of the
    /// first record, in the order of `all`, whose path contains the text.
    pub fn find_document(&self, doc_id_or_path: &str) -> (r: Option<u32>)
        requires
            self.wf(),
        ensures
            r == match parse_u32_spec(doc_id_or_path@) {
                Some(n) => Some(n),
                None => first_with_path(
                    sort_by_number(self.record_seq()),
                    doc_id_or_path@,
                ),
            },
    {
        match parse_u32(doc_id_or_path) {
            Some(n) => Some(n),
            None => {
                let all = self.all();
                let ghost rs = record_views(all@);
                let mut i: usize = 0;
                assert(rs.skip(0) =~= rs);
                while i < all.len()
                    invariant
                        i <= all@.len(),
                        rs == record_views(all@),
                        rs == sort_by_number(self.record_seq()),
                        parse_u32_spec(doc_id_or_path@) is None,
                        first_with_path(rs, doc_id_or_path@) == first_with_path(
                            rs.skip(i as int),
                            doc_id_or_path@,
                        ),
                    decreases all@.len() - i,
                {
                    let rec = all[i];
                    proof {
                        assert(rs.skip(i as int)[0] == rec.deep_view());
                        assert(rs.skip(i as int).drop_first() =~= rs.skip(i + 1));
                    }
                    let chars = crate::text::chars_of(rec.path.as_str());
                    if contains_str(chars.as_slice(), doc_id_or_path) {
                        proof {
                            let t = rs.skip(i as int);
                            assert(t[0].path == rec.path@);
                            assert(t[0].metadata.number == rec.metadata.number);
                            assert(contains(t[0].path, doc_id_or_path@));
                            assert(first_with_path(t, doc_id_or_path@) == Some(t[0].metadata.number));
                        }
                        return Some(rec.metadata.number);
                    }
                    i = i + 1;
                }
                proof {
                    assert(rs.skip(i as int) =~= Seq::<DocumentRecordV>::empty());
                }
                None
            },
        }
    }
}

/// The first group of a UUID's text: everything before its first hyphen.
pub open spec fn uuid_head(u: Seq<char>) -> Seq<char>
    decreases u.len(),
{
    if u.len() == 0 || u[0] == '-' {
        Seq::empty()
    } else {
        seq![u[0]] + uuid_head(u.drop_first())
    }
}

/// `s` without every trailing `.md`.
pub open spec fn without_md(s: Seq<char>) -> Seq<char>
    decreases s.len(),
{
    if ".md"@.is_suffix_of(s) && s.len() >= 3 {
        without_md(s.take(s.len() - 3))
    } else {
        s
    }
}

pub(crate) fn uuid_head_of(uuid: &str) -> (r: Vec<char>)
    ensures
        r@ == uuid_head(uuid@),
{
    let u = crate::text::chars_of(uuid);
    let mut head: Vec<char> = Vec::new();
    let mut i: usize = 0;
    assert(u@.skip(0) =~= u@);
    while i < u.len() && u[i] != '-'
        invariant
            i <= u@.len(),
            uuid_head(u@) == head@ + uuid_head(u@.skip(i as int)),
        decreases u@.len() - i,
    {
        proof {
            let t = u@.skip(i as int);
            assert(t[0] == u@[i as int]);
            assert(t.drop_first() =~= u@.skip(i + 1));
            assert(head@ + (seq![u@[i as int]] + uuid_head(u@.skip(i + 1))) =~= head@.push(
                u@[i as int],
            ) + uuid_head(u@.skip(i + 1)));
        }
        head.push(u[i]);
        i = i + 1;
    }
    proof {
        if i < u@.len() {
            assert(u@.skip(i as int)[0] == '-');
        } else {
            assert(u@.skip(i as int) =~= Seq::<char>::empty());
        }
        assert(head@ =~= head@ + Seq::<char>::empty());
    }
    head
}

pub(crate) fn without_md_chars(name: &str) -> (r: Vec<char>)
    ensures
        r@ == without_md(name@),
{
    let nc = crate::text::chars_of(name);
    let mut end = nc.len();
    proof {
        assert(nc@.take(end as int) =~= nc@);
        reveal_strlit(".md");
    }
    while end >= 3 && nc[end - 3] == '.' && nc[end - 2] == 'm' && nc[end - 1] == 'd'
        invariant
            end <= nc@.len(),
            without_md(nc@) == without_md(nc@.take(end as int)),
            ".md"@ == seq!['.', 'm', 'd'],
        decreases end,
    {
        proof {
            let t = nc@.take(end as int);
            assert(t.subrange(t.len() - 3, t.len() as int) =~= ".md"@);
            assert(t.take(t.len() - 3) =~= nc@.take(end - 3));
        }
        end = end - 3;
    }
    proof {
        let t = nc@.take(end as int);
        if ".md"@.is_suffix_of(t) && t.len() >= 3 {
            assert(t.subrange(t.len() - 3, t.len() as int) == ".md"@);
            assert(t[t.len() - 3] == '.');
            assert(t[t.len() - 2] == 'm');
            assert(t[t.len() - 1] == 'd');
        }
    }
    crate::text::chars_range(nc.as_slice(), 0, end)
}

/// The name a removed file gets in the dustbin: its stem, a hyphen, the first group of a
/// fresh UUID, and `.md`; `None` when the path has no file name.
pub fn dustbin_file_name(path: &str, uuid: &str) -> (r: Option<String>)
    ensures
        match path_file_name(path@) {
            None => r is None,
            Some(name) => r matches Some(q) && q@ == match path_file_stem(path@) {
                Some(stem) => stem + "-"@ + uuid_head(uuid@) + ".md"@,
                None => without_md(name) + "-"@ + uuid_head(uuid@),
            },
        },
{
    let name = match file_name_of(path) {
        Some(n) => n,
        None => {
            return None;
        },
    };
    let head = uuid_head_of(uuid);
    let mut v: Vec<char> = Vec::new();
    match file_stem_of(path) {
        Some(stem) => {
            crate::text::push_str(&mut v, stem.as_str());
            crate::text::push_str(&mut v, "-");
            crate::text::push_all(&mut v, head.as_slice());
            crate::text::push_str(&mut v, ".md");
        },
        None => {
            let base = without_md_chars(name.as_str());
            crate::text::push_all(&mut v, base.as_slice());
            crate::text::push_str(&mut v, "-");
            crate::text::push_all(&mut v, head.as_slice());
        },
    }
    Some(crate::text::string_from_chars(v.as_slice()))
}

/// The number of a parsed file, if the observation is one.
pub open spec fn parsed_number(o: FileObservationV) -> Option<u32> {
    match o {
        FileObservationV::Parsed { metadata, .. } => Some(metadata.number),
        _ => None,
    }
}

/// Whether no two parsed files share a number.
pub open spec fn distinct_numbers(os: Seq<FileObservationV>) -> bool {
    forall|i: int, j: int|
        0 <= i < j < os.len() && parsed_number(os[i]) is Some ==> parsed_number(os[i])
            != parsed_number(os[j])
}

/// Whether the records hold, for every parsed file, a record whose checksum is that of
/// the file's contents.
pub open spec fn records_match(os: Seq<FileObservationV>, records: Map<u32, DocumentRecordV>) -> bool {
    forall|i: int|
        0 <= i < os.len() ==> (#[trigger] os[i] matches FileObservationV::Parsed {
            metadata,
            contents,
            ..
        } ==> records.dom().contains(metadata.number) && records[metadata.number].checksum
            == hex_of(sha256(contents)))
}

/// Whether `seen` holds exactly the numbers of the parsed files.
pub open spec fn seen_exactly(os: Seq<FileObservationV>, seen: Seq<u32>) -> bool {
    forall|k: u32|
        seen.contains(k) <==> exists|i: int|
            0 <= i < os.len() && #[trigger] parsed_number(os[i]) == Some(k)
}

/// A scan with no starting findings.
pub open spec fn fresh_scan(records: Map<u32, DocumentRecordV>, next: u32) -> ScanAcc {
    ScanAcc {
        new_files: Seq::empty(),
        changed: Seq::empty(),
        errors: Seq::empty(),
        seen: Seq::empty(),
        records,
        next_number: next,
    }
}

proof fn lemma_seen_step(os: Seq<FileObservationV>, seen: Seq<u32>, seen2: Seq<u32>)
    requires
        os.len() > 0,
        seen_exactly(os.drop_last(), seen),
        seen2 == match parsed_number(os.last()) {
            Some(n) => seen.push(n),
            None => seen,
        },
    ensures
        seen_exactly(os, seen2),
{
    let p = os.drop_last();
    assert forall|k: u32| seen2.contains(k) <==> exists|i: int|
        0 <= i < os.len() && #[trigger] parsed_number(os[i]) == Some(k) by {
        if seen2.contains(k) {
            if seen.contains(k) {
                let i = choose|i: int| 0 <= i < p.len() && #[trigger] parsed_number(p[i]) == Some(k);
                assert(os[i] == p[i]);
            } else {
                let j = choose|j: int| 0 <= j < seen2.len() && seen2[j] == k;
                assert(parsed_number(os[os.len() - 1]) == Some(k));
            }
        }
        if exists|i: int| 0 <= i < os.len() && #[trigger] parsed_number(os[i]) == Some(k) {
            let i = choose|i: int| 0 <= i < os.len() && #[trigger] parsed_number(os[i]) == Some(k);
            if i < os.len() - 1 {
                assert(p[i] == os[i]);
                assert(seen.contains(k));
                let j = choose|j: int| 0 <= j < seen.len() && seen[j] == k;
                if parsed_number(os.last()) is Some {
                    assert(seen2[j] == k);
                }
            } else {
                assert(seen2[seen2.len() - 1] == k);
            }
        }
    }
}

/// A full scan leaves a record matching every parsed file, when no two share a number,
/// and sees exactly their numbers.
proof fn lemma_full_scan_matches(
    os: Seq<FileObservationV>,
    records: Map<u32, DocumentRecordV>,
    next: u32,
    docs_dir: Seq<char>,
)
    requires
        distinct_numbers(os),
    ensures
        records_match(os, scan_files(os, fresh_scan(records, next), docs_dir, false).records),
        seen_exactly(os, scan_files(os, fresh_scan(records, next), docs_dir, false).seen),
    decreases os.len(),
{
    if os.len() == 0 {
        assert(scan_files(os, fresh_scan(records, next), docs_dir, false).seen =~= Seq::<u32>::empty());
    } else {
        let p = os.drop_last();
        assert(distinct_numbers(p)) by {
            assert forall|i: int, j: int|
                0 <= i < j < p.len() && parsed_number(p[i]) is Some implies parsed_number(p[i])
                != parsed_number(p[j]) by {
                assert(p[i] == os[i] && p[j] == os[j]);
            }
        }
        lemma_full_scan_matches(p, records, next, docs_dir);
        let a0 = scan_files(p, fresh_scan(records, next), docs_dir, false);
        let a1 = scan_files(os, fresh_scan(records, next), docs_dir, false);
        assert(a1 == scan_step(os.last(), a0, docs_dir, false));
        lemma_seen_step(os, a0.seen, a1.seen);
        assert forall|i: int| 0 <= i < os.len() implies (#[trigger] os[i] matches FileObservationV::Parsed {
            metadata,
            contents,
            ..
        } ==> a1.records.dom().contains(metadata.number) && a1.records[metadata.number].checksum
            == hex_of(sha256(contents))) by {
            if i < os.len() - 1 {
                assert(p[i] == os[i]);
                if let FileObservationV::Parsed { metadata, contents, .. } = os[i] {
                    if let FileObservationV::Parsed { metadata: m2, .. } = os.last() {
                        assert(parsed_number(os[i]) != parsed_number(os[os.len() - 1]));
                        assert(m2.number != metadata.number);
                    }
                }
            }
        }
    }
}

/// Scanning files whose records all match changes nothing: no file is new or changed, the
/// records and next number stay, and exactly the parsed numbers are seen.
proof fn lemma_matching_scan_is_quiet(
    os: Seq<FileObservationV>,
    records: Map<u32, DocumentRecordV>,
    next: u32,
    docs_dir: Seq<char>,
    quick: bool,
)
    requires
        records_match(os, records),
    ensures
        ({
            let a = scan_files(os, fresh_scan(records, next), docs_dir, quick);
            &&& a.new_files.len() == 0
            &&& a.changed.len() == 0
            &&& a.records == records
            &&& a.next_number == next
            &&& seen_exactly(os, a.seen)
        }),
    decreases os.len(),
{
    if os.len() == 0 {
        assert(scan_files(os, fresh_scan(records, next), docs_dir, quick).seen =~= Seq::<u32>::empty());
    } else {
        let p = os.drop_last();
        assert(records_match(p, records)) by {
            assert forall|i: int| 0 <= i < p.len() implies (#[trigger] p[i] matches FileObservationV::Parsed {
                metadata,
                contents,
                ..
            } ==> records.dom().contains(metadata.number) && records[metadata.number].checksum
                == hex_of(sha256(contents))) by {
                assert(p[i] == os[i]);
            }
        }
        lemma_matching_scan_is_quiet(p, records, next, docs_dir, quick);
        let a0 = scan_files(p, fresh_scan(records, next), docs_dir, quick);
        let a1 = scan_files(os, fresh_scan(records, next), docs_dir, quick);
        assert(a1 == scan_step(os.last(), a0, docs_dir, quick));
        assert(os[os.len() - 1] == os.last());
        lemma_seen_step(os, a0.seen, a1.seen);
    }
}

/// A second scan of the same files, right after a full scan, finds nothing new, changed
/// or deleted and leaves the records as they were, when no two files share a number.
pub proof fn lemma_rescan_finds_nothing(
    os: Seq<FileObservationV>,
    records: Map<u32, DocumentRecordV>,
    next: u32,
    docs_dir: Seq<char>,
    quick: bool,
)
    requires
        distinct_numbers(os),
    ensures
        ({
            let a1 = scan_files(os, fresh_scan(records, next), docs_dir, false);
            let gone = Set::new(|k: u32| a1.records.dom().contains(k) && !a1.seen.contains(k));
            let kept = a1.records.remove_keys(gone);
            let a2 = scan_files(os, fresh_scan(kept, a1.next_number), docs_dir, quick);
            &&& a2.new_files.len() == 0
            &&& a2.changed.len() == 0
            &&& a2.records == kept
            &&& forall|k: u32| kept.dom().contains(k) ==> a2.seen.contains(k)
        }),
{
    let a1 = scan_files(os, fresh_scan(records, next), docs_dir, false);
    lemma_full_scan_matches(os, records, next, docs_dir);
    let gone = Set::new(|k: u32| a1.records.dom().contains(k) && !a1.seen.contains(k));
    let kept = a1.records.remove_keys(gone);
    assert(records_match(os, kept)) by {
        assert forall|i: int| 0 <= i < os.len() implies (#[trigger] os[i] matches FileObservationV::Parsed {
            metadata,
            contents,
            ..
        } ==> kept.dom().contains(metadata.number) && kept[metadata.number].checksum
            == hex_of(sha256(contents))) by {
            if let FileObservationV::Parsed { metadata, .. } = os[i] {
                assert(parsed_number(os[i]) == Some(metadata.number));
                assert(a1.seen.contains(metadata.number));
            }
        }
    }
    lemma_matching_scan_is_quiet(os, kept, a1.next_number, docs_dir, quick);
    let a2 = scan_files(os, fresh_scan(kept, a1.next_number), docs_dir, quick);
    assert forall|k: u32| kept.dom().contains(k) implies a2.seen.contains(k) by {
        assert(a1.seen.contains(k));
        let i = choose|i: int| 0 <= i < os.len() && #[trigger] parsed_number(os[i]) == Some(k);
    }
}

} // verus!
