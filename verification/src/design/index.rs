//! The collection of design documents, by number.

use crate::design::doc::{all_states_seq, state_name, DocState};
use crate::design::index_sync::{listed_path, listed_path_of};
use crate::text::{push_all, push_str, string_from_chars, zero_padded, zero_padded_chars};
use crate::design::docmeta::{copy_metadata, DesignDoc, DesignDocV};
use crate::design::nummap::{increasing, NumMap};
use crate::design::state::{DocumentRecordV, DocumentState};
use crate::paths::{join, path_extension, path_file_name, path_join, extension_of, file_name_of};
use vstd::prelude::*;

verus! {

/// The documents of a documentation directory, by number.
pub struct DocumentIndex {
    pub docs: NumMap<DesignDoc>,
    pub docs_dir: String,
}

/// The documents of numbers `ns` whose state is `st`, in that order.
pub open spec fn docs_in_state_of(ns: Seq<u32>, docs: Map<u32, DesignDocV>, st: DocState) -> Seq<
    DesignDocV,
>
    decreases ns.len(),
{
    if ns.len() == 0 {
        Seq::empty()
    } else {
        let prev = docs_in_state_of(ns.drop_last(), docs, st);
        if docs[ns.last()].metadata.state == st {
            prev.push(docs[ns.last()])
        } else {
            prev
        }
    }
}

/// The documents `ds` by number, a later document replacing an earlier one.
pub open spec fn docs_by_number(ds: Seq<DesignDocV>) -> Map<u32, DesignDocV>
    decreases ds.len(),
{
    if ds.len() == 0 {
        Map::empty()
    } else {
        docs_by_number(ds.drop_last()).insert(ds.last().metadata.number, ds.last())
    }
}

/// Whether a file is one the index reads: a `.md` file other than the index file.
pub open spec fn is_document_file(path: Seq<char>) -> bool {
    path_extension(path) == Some("md"@) && path_file_name(path) != Some("00-index.md"@)
}

/// Whether the index reads the file at `path`: its extension is `md` and it is not the
/// index file `00-index.md`.
pub fn is_document_path(path: &str) -> (b: bool)
    ensures
        b == is_document_file(path@),
{
    let ext = extension_of(path);
    let name = file_name_of(path);
    let md = match &ext {
        Some(e) => crate::textops::str_equal(e.as_str(), "md"),
        None => false,
    };
    let is_index = match &name {
        Some(n) => crate::textops::str_equal(n.as_str(), "00-index.md"),
        None => false,
    };
    proof {
        reveal_strlit("md");
        reveal_strlit("00-index.md");
    }
    md && !is_index
}

impl DocumentIndex {
    /// The documents are well kept under their own numbers.
    pub closed spec fn wf(&self) -> bool {
        self.docs.wf()
    }

    /// The documents by number, as plain values.
    pub closed spec fn documents(&self) -> Map<u32, DesignDocV> {
        self.docs.map().map_values(|d: DesignDoc| d.deep_view())
    }

    /// The numbers that have documents, in increasing order.
    pub closed spec fn numbers(&self) -> Seq<u32> {
        self.docs.key_seq()
    }

    /// The numbers increase strictly and are exactly the document numbers.
    pub proof fn lemma_numbers(&self)
        requires
            self.wf(),
        ensures
            increasing(self.numbers()),
            forall|k: u32| self.documents().dom().contains(k) <==> self.numbers().contains(k),
    {
        self.docs.lemma_keys();
        assert(self.documents().dom() =~= self.docs.map().dom());
    }

    /// An index of the documents `docs`, each under its own number; of two documents with
    /// one number, the later one stays.
    pub fn from_docs(docs_dir: String, docs: Vec<DesignDoc>) -> (r: Self)
        ensures
            r.wf(),
            r.docs_dir@ == docs_dir@,
            r.documents() == docs_by_number(docs.deep_view()),
    {
        let mut map: NumMap<DesignDoc> = NumMap::new();
        let ghost dv = docs.deep_view();
        let n = docs.len();
        let mut rest = docs;
        let mut back: Vec<DesignDoc> = Vec::new();
        // Reverse, so that popping gives the documents in their order.
        while rest.len() > 0
            invariant
                rest@.len() + back@.len() == n,
                dv.len() == n,
                forall|i: int| 0 <= i < rest@.len() ==> #[trigger] rest@[i].deep_view() == dv[i],
                forall|i: int|
                    0 <= i < back@.len() ==> #[trigger] back@[i].deep_view() == dv[n - 1 - i],
            decreases rest@.len(),
        {
            let d = rest.pop().unwrap();
            back.push(d);
        }
        let mut i: usize = 0;
        assert(map.map().map_values(|d: DesignDoc| d.deep_view()) =~= docs_by_number(dv.take(0)));
        while back.len() > 0
            invariant
                map.wf(),
                back@.len() + i == n,
                dv.len() == n,
                forall|j: int|
                    0 <= j < back@.len() ==> #[trigger] back@[j].deep_view() == dv[n - 1 - j],
                map.map().map_values(|d: DesignDoc| d.deep_view()) == docs_by_number(dv.take(i as int)),
            decreases back@.len(),
        {
            let d = back.pop().unwrap();
            let ghost dd = d.deep_view();
            proof {
                assert(dd == dv[i as int]);
                assert(dv.take(i + 1).drop_last() =~= dv.take(i as int));
                assert(dv.take(i + 1).last() == dv[i as int]);
            }
            let ghost before = map.map();
            let num = d.metadata.number;
            map.insert(num, d);
            proof {
                assert(map.map().map_values(|d: DesignDoc| d.deep_view()) =~= before.map_values(
                    |d: DesignDoc| d.deep_view(),
                ).insert(num, dd));
            }
            i = i + 1;
        }
        assert(dv.take(n as int) =~= dv);
        DocumentIndex { docs: map, docs_dir }
    }

    /// The document of `number`.
    pub fn get(&self, number: u32) -> (r: Option<&DesignDoc>)
        requires
            self.wf(),
        ensures
            match r {
                Some(d) => self.documents().dom().contains(number) && self.documents()[number]
                    == d.deep_view(),
                None => !self.documents().dom().contains(number),
            },
    {
        self.docs.get(number)
    }

    /// Every document, in increasing order of number.
    pub fn all(&self) -> (r: Vec<&DesignDoc>)
        requires
            self.wf(),
        ensures
            r@.len() == self.numbers().len(),
            forall|i: int|
                0 <= i < r@.len() ==> #[trigger] r@[i].deep_view() == self.documents()[self.numbers()[i]],
    {
        proof {
            self.docs.lemma_keys();
        }
        let n = self.docs.len();
        let mut out: Vec<&DesignDoc> = Vec::new();
        let mut i: usize = 0;
        while i < n
            invariant
                self.wf(),
                n == self.numbers().len(),
                i <= n,
                out@.len() == i,
                forall|j: int|
                    0 <= j < i ==> #[trigger] out@[j].deep_view() == self.documents()[self.numbers()[j]],
            decreases n - i,
        {
            let d = self.docs.val_at(i);
            out.push(d);
            proof {
                self.docs.lemma_keys();
                assert(self.docs.key_seq().contains(self.docs.key_seq()[i as int]));
            }
            i = i + 1;
        }
        out
    }

    /// The documents in state `st`, in increasing order of number.
    pub fn by_state(&self, st: DocState) -> (r: Vec<&DesignDoc>)
        requires
            self.wf(),
        ensures
            r@.map_values(|d: &DesignDoc| d.deep_view()) == docs_in_state_of(
                self.numbers(),
                self.documents(),
                st,
            ),
    {
        proof {
            self.docs.lemma_keys();
        }
        let n = self.docs.len();
        let ghost ns = self.numbers();
        let mut out: Vec<&DesignDoc> = Vec::new();
        let mut i: usize = 0;
        assert(out@.map_values(|d: &DesignDoc| d.deep_view()) =~= docs_in_state_of(
            ns.take(0),
            self.documents(),
            st,
        ));
        while i < n
            invariant
                self.wf(),
                ns == self.numbers(),
                n == ns.len(),
                i <= n,
                out@.map_values(|d: &DesignDoc| d.deep_view()) == docs_in_state_of(
                    ns.take(i as int),
                    self.documents(),
                    st,
                ),
            decreases n - i,
        {
            let d = self.docs.val_at(i);
            proof {
                self.docs.lemma_keys();
                assert(self.docs.key_seq().contains(self.docs.key_seq()[i as int]));
                assert(ns.take(i + 1).drop_last() =~= ns.take(i as int));
                assert(ns.take(i + 1).last() == ns[i as int]);
            }
            let ghost before = out@;
            if d.metadata.state == st {
                out.push(d);
                assert(out@.map_values(|x: &DesignDoc| x.deep_view()) =~= before.map_values(
                    |x: &DesignDoc| x.deep_view(),
                ).push(d.deep_view()));
            }
            i = i + 1;
        }
        assert(ns.take(n as int) =~= ns);
        out
    }

    /// The next free number: one past the largest document number, or 1 when there are
    /// no documents.
    pub fn next_number(&self) -> (r: u32)
        requires
            self.wf(),
            self.numbers().len() > 0 ==> self.numbers().last() < u32::MAX,
        ensures
            r == if self.numbers().len() == 0 {
                1
            } else {
                (self.numbers().last() + 1) as u32
            },
            forall|k: u32| self.documents().dom().contains(k) ==> k < r,
    {
        proof {
            self.lemma_numbers();
        }
        let n = self.docs.len();
        if n == 0 {
            proof {
                assert forall|k: u32| self.documents().dom().contains(k) implies k < 1 by {
                    assert(self.numbers().contains(k));
                }
            }
            1
        } else {
            let last = self.docs.key_at(n - 1);
            proof {
                let ns = self.numbers();
                assert(increasing(ns));
                assert forall|k: u32| self.documents().dom().contains(k) implies k < last + 1 by {
                    assert(ns.contains(k));
                    let i = choose|i: int| 0 <= i < ns.len() && ns[i] == k;
                    if i < n - 1 {
                        assert(ns[i] < ns[n - 1]);
                    }
                }
            }
            last + 1
        }
    }

    /// The documents directory.
    pub fn docs_dir(&self) -> (r: &str)
        ensures
            r@ == self.docs_dir@,
    {
        self.docs_dir.as_str()
    }

    /// An index of a state's records, without their bodies, each at its path under
    /// `docs_dir`.
    pub fn from_state(state: &DocumentState, docs_dir: &str) -> (r: Self)
        requires
            state.wf(),
        ensures
            r.wf(),
            r.docs_dir@ == docs_dir@,
            r.documents() == docs_by_number(
                state.numbers().map_values(|k: u32| record_doc(state.records()[k], docs_dir@)),
            ),
    {
        let recs = state.in_key_order();
        let ghost f = |k: u32| record_doc(state.records()[k], docs_dir@);
        let mut docs: Vec<DesignDoc> = Vec::new();
        let mut i: usize = 0;
        while i < recs.len()
            invariant
                i <= recs@.len(),
                recs@.len() == state.numbers().len(),
                forall|j: int|
                    0 <= j < recs@.len() ==> #[trigger] recs@[j].deep_view() == state.records()[state.numbers()[j]],
                f == (|k: u32| record_doc(state.records()[k], docs_dir@)),
                docs.deep_view() == state.numbers().take(i as int).map_values(f),
            decreases recs@.len() - i,
        {
            let rec = recs[i];
            let d = DesignDoc {
                metadata: copy_metadata(&rec.metadata),
                content: String::new(),
                path: join(docs_dir, rec.path.as_str()),
            };
            let ghost before = docs.deep_view();
            proof {
                assert(recs@[i as int].deep_view() == state.records()[state.numbers()[i as int]]);
                assert(d.deep_view() =~~= f(state.numbers()[i as int]));
            }
            let ghost dd = d.deep_view();
            docs.push(d);
            proof {
                assert(docs.deep_view() =~= before.push(dd));
                assert(state.numbers().take(i + 1) =~= state.numbers().take(i as int).push(
                    state.numbers()[i as int],
                ));
                assert(state.numbers().take(i + 1).map_values(f) =~= state.numbers().take(
                    i as int,
                ).map_values(f).push(f(state.numbers()[i as int])));
            }
            i = i + 1;
            assert(docs.deep_view() =~= state.numbers().take(i as int).map_values(f));
        }
        assert(state.numbers().take(recs@.len() as int) =~= state.numbers());
        DocumentIndex::from_docs(docs_dir.to_string(), docs)
    }
}

/// The document a record stands for: its metadata, no body, and its path under `dir`.
pub open spec fn record_doc(rv: DocumentRecordV, dir: Seq<char>) -> DesignDocV {
    DesignDocV { metadata: rv.metadata, content: Seq::empty(), path: path_join(dir, rv.path) }
}

/// The table row of a document in a generated index.
pub open spec fn index_row(d: DesignDocV) -> Seq<char> {
    "| "@ + zero_padded(d.metadata.number as nat, 4) + " | "@ + d.metadata.title + " | "@
        + state_name(d.metadata.state) + " | "@ + d.metadata.updated.text + " |\n"@
}

/// The table rows of the documents of numbers `ns`, in that order.
pub open spec fn index_rows(ns: Seq<u32>, docs: Map<u32, DesignDocV>) -> Seq<char>
    decreases ns.len(),
{
    if ns.len() == 0 {
        Seq::empty()
    } else {
        index_rows(ns.drop_last(), docs) + index_row(docs[ns.last()])
    }
}

/// The section entry of a document in a generated index.
pub open spec fn index_entry(d: DesignDocV, docs_dir: Seq<char>) -> Seq<char> {
    "- ["@ + zero_padded(d.metadata.number as nat, 4) + " - "@ + d.metadata.title + "]("@
        + listed_path(d.path, docs_dir) + ")\n"@
}

/// The section entries of the documents `ds`, in that order.
pub open spec fn index_entries(ds: Seq<DesignDocV>, docs_dir: Seq<char>) -> Seq<char>
    decreases ds.len(),
{
    if ds.len() == 0 {
        Seq::empty()
    } else {
        index_entries(ds.drop_last(), docs_dir) + index_entry(ds.last(), docs_dir)
    }
}

/// The sections of the states `sts` that have documents, in that order.
pub open spec fn index_sections(
    sts: Seq<DocState>,
    ns: Seq<u32>,
    docs: Map<u32, DesignDocV>,
    docs_dir: Seq<char>,
) -> Seq<char>
    decreases sts.len(),
{
    if sts.len() == 0 {
        Seq::empty()
    } else {
        let ds = docs_in_state_of(ns, docs, sts.last());
        index_sections(sts.drop_last(), ns, docs, docs_dir) + if ds.len() > 0 {
            "\n### "@ + state_name(sts.last()) + "\n\n"@ + index_entries(ds, docs_dir)
        } else {
            Seq::empty()
        }
    }
}

/// The opening of a generated index, up to its table rows.
pub open spec fn index_heading() -> Seq<char> {
    "# Design Document Index\n\nThis index is automatically generated. Do not edit manually.\n\n## All Documents by Number\n\n| Number | Title | State | Updated |\n|--------|-------|-------|----------|\n"@
}

/// The index file for the documents of numbers `ns`: the table of all documents in that
/// order, then the sections of the states, with paths relative to `docs_dir`.
pub open spec fn index_text(ns: Seq<u32>, docs: Map<u32, DesignDocV>, docs_dir: Seq<char>) -> Seq<
    char,
> {
    index_heading() + index_rows(ns, docs) + "\n## Documents by State\n"@ + index_sections(
        all_states_seq(),
        ns,
        docs,
        docs_dir,
    )
}

fn push_zero_padded(v: &mut Vec<char>, n: u32)
    ensures
        final(v)@ == old(v)@ + zero_padded(n as nat, 4),
{
    let d = zero_padded_chars(n as u64, 4);
    push_all(v, d.as_slice());
}

impl DocumentIndex {
    /// The index file for the documents: a table of every document in number order, then a
    /// section for each state with documents, listing them with their paths relative to
    /// the documents directory.
    pub fn generate_markdown_index(&self) -> (r: String)
        requires
            self.wf(),
        ensures
            r@ == index_text(self.numbers(), self.documents(), self.docs_dir@),
    {
        let mut v: Vec<char> = Vec::new();
        push_str(&mut v, "# Design Document Index\n\nThis index is automatically generated. Do not edit manually.\n\n## All Documents by Number\n\n| Number | Title | State | Updated |\n|--------|-------|-------|----------|\n");
        let ghost ns = self.numbers();
        let ghost docs = self.documents();
        let all = self.all();
        let ghost head = v@;
        let mut i: usize = 0;
        assert(v@ =~= head + index_rows(ns.take(0), docs));
        while i < all.len()
            invariant
                i <= all@.len(),
                all@.len() == ns.len(),
                forall|j: int| 0 <= j < all@.len() ==> #[trigger] all@[j].deep_view() == docs[ns[j]],
                v@ == head + index_rows(ns.take(i as int), docs),
            decreases all@.len() - i,
        {
            let d = all[i];
            proof {
                assert(all@[i as int].deep_view() == docs[ns[i as int]]);
                assert(ns.take(i + 1).drop_last() =~= ns.take(i as int));
                assert(ns.take(i + 1).last() == ns[i as int]);
            }
            push_str(&mut v, "| ");
            push_zero_padded(&mut v, d.metadata.number);
            push_str(&mut v, " | ");
            push_str(&mut v, d.metadata.title.as_str());
            push_str(&mut v, " | ");
            push_str(&mut v, d.metadata.state.as_str());
            push_str(&mut v, " | ");
            push_str(&mut v, d.metadata.updated.text.as_str());
            push_str(&mut v, " |\n");
            i = i + 1;
            assert(v@ =~= head + index_rows(ns.take(i as int), docs));
        }
        assert(ns.take(all@.len() as int) =~= ns);
        push_str(&mut v, "\n## Documents by State\n");
        let ghost mid = v@;
        let states = DocState::all_states();
        let ghost sts = states@;
        let mut k: usize = 0;
        assert(v@ =~= mid + index_sections(sts.take(0), ns, docs, self.docs_dir@));
        while k < states.len()
            invariant
                self.wf(),
                ns == self.numbers(),
                docs == self.documents(),
                k <= states@.len(),
                sts == states@,
                v@ == mid + index_sections(sts.take(k as int), ns, docs, self.docs_dir@),
            decreases states@.len() - k,
        {
            let st = states[k];
            let in_state = self.by_state(st);
            let ghost ds = docs_in_state_of(ns, docs, st);
            proof {
                assert(sts.take(k + 1).drop_last() =~= sts.take(k as int));
                assert(sts.take(k + 1).last() == st);
                assert(in_state@.len() == ds.len()) by {
                    assert(in_state@.map_values(|d: &DesignDoc| d.deep_view()).len() == in_state@.len());
                }
            }
            let ghost before = v@;
            if in_state.len() > 0 {
                push_str(&mut v, "\n### ");
                push_str(&mut v, st.as_str());
                push_str(&mut v, "\n\n");
                let ghost sec = v@;
                let mut j: usize = 0;
                assert(v@ =~= sec + index_entries(ds.take(0), self.docs_dir@));
                while j < in_state.len()
                    invariant
                        j <= in_state@.len(),
                        in_state@.map_values(|d: &DesignDoc| d.deep_view()) == ds,
                        v@ == sec + index_entries(ds.take(j as int), self.docs_dir@),
                    decreases in_state@.len() - j,
                {
                    let d = in_state[j];
                    proof {
                        assert(ds[j as int] == in_state@[j as int].deep_view());
                        assert(ds.take(j + 1).drop_last() =~= ds.take(j as int));
                        assert(ds.take(j + 1).last() == ds[j as int]);
                    }
                    push_str(&mut v, "- [");
                    push_zero_padded(&mut v, d.metadata.number);
                    push_str(&mut v, " - ");
                    push_str(&mut v, d.metadata.title.as_str());
                    push_str(&mut v, "](");
                    let p = listed_path_of(d.path.as_str(), self.docs_dir.as_str());
                    push_str(&mut v, p.as_str());
                    push_str(&mut v, ")\n");
                    j = j + 1;
                    assert(v@ =~= sec + index_entries(ds.take(j as int), self.docs_dir@));
                }
                assert(ds.take(in_state@.len() as int) =~= ds);
            }
            k = k + 1;
            assert(v@ =~= mid + index_sections(sts.take(k as int), ns, docs, self.docs_dir@));
        }
        assert(sts.take(states@.len() as int) =~= sts);
        string_from_chars(v.as_slice())
    }
}

} // verus!
