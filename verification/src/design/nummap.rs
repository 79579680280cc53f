//! A map keyed by document numbers: a `HashMap`, with its keys also kept in a vector in
//! increasing order so that the records can be walked in number order.

use std::collections::HashMap;
use vstd::prelude::*;

verus! {

broadcast use vstd::std_specs::hash::group_hash_axioms;

/// Whether the keys increase strictly.
pub open spec fn increasing(ks: Seq<u32>) -> bool {
    forall|i: int, j: int| 0 <= i < j < ks.len() ==> ks[i] < ks[j]
}

/// A map from document numbers to values, with its keys in increasing order.
pub struct NumMap<V> {
    keys: Vec<u32>,
    entries: HashMap<u32, V>,
}

impl<V> NumMap<V> {
    /// The keys, in increasing order.
    pub closed spec fn key_seq(&self) -> Seq<u32> {
        self.keys@
    }

    /// The values, in the order of their keys.
    pub closed spec fn val_seq(&self) -> Seq<V> {
        self.keys@.map_values(|k: u32| self.entries@[k])
    }

    /// The keys increase strictly and are exactly the keys of the map.
    pub closed spec fn wf(&self) -> bool {
        &&& increasing(self.keys@)
        &&& forall|k: u32| self.entries@.dom().contains(k) <==> self.keys@.contains(k)
    }

    /// The contents.
    pub closed spec fn map(&self) -> Map<u32, V> {
        self.entries@
    }

    /// The keys increase, are exactly the map's keys, and each holds the value at its
    /// position.
    pub proof fn lemma_keys(&self)
        requires
            self.wf(),
        ensures
            self.key_seq().len() == self.val_seq().len(),
            increasing(self.key_seq()),
            forall|k: u32| self.map().dom().contains(k) <==> self.key_seq().contains(k),
            forall|i: int|
                0 <= i < self.key_seq().len() ==> #[trigger] self.map()[self.key_seq()[i]]
                    == self.val_seq()[i],
            self.map().dom().finite(),
            self.map().dom().len() == self.key_seq().len(),
    {
        let ks = self.keys@;
        assert(self.map().dom() =~= ks.to_set());
        assert(ks.no_duplicates()) by {
            assert forall|i: int, j: int| 0 <= i < ks.len() && 0 <= j < ks.len() && i != j implies ks[i]
                != ks[j] by {
                if i < j {
                    assert(ks[i] < ks[j]);
                } else {
                    assert(ks[j] < ks[i]);
                }
            }
        }
        ks.unique_seq_to_set();
    }

    pub fn new() -> (m: Self)
        ensures
            m.wf(),
            m.map() == Map::<u32, V>::empty(),
            m.key_seq() == Seq::<u32>::empty(),
    {
        NumMap { keys: Vec::new(), entries: HashMap::new() }
    }

    /// The number of keys.
    pub fn len(&self) -> (n: usize)
        requires
            self.wf(),
        ensures
            n == self.key_seq().len(),
            n == self.map().dom().len(),
    {
        proof {
            self.lemma_keys();
        }
        self.keys.len()
    }

    /// The first position whose key is at least `k`.
    fn lower_bound(&self, k: u32) -> (p: usize)
        requires
            self.wf(),
        ensures
            p <= self.keys@.len(),
            forall|i: int| 0 <= i < p ==> self.keys@[i] < k,
            p < self.keys@.len() ==> self.keys@[p as int] >= k,
    {
        let mut p: usize = 0;
        while p < self.keys.len() && self.keys[p] < k
            invariant
                p <= self.keys@.len(),
                forall|i: int| 0 <= i < p ==> self.keys@[i] < k,
            decreases self.keys@.len() - p,
        {
            p = p + 1;
        }
        p
    }

    /// The value stored under `k`.
    pub fn get(&self, k: u32) -> (r: Option<&V>)
        requires
            self.wf(),
        ensures
            match r {
                Some(v) => self.map().dom().contains(k) && self.map()[k] == *v,
                None => !self.map().dom().contains(k),
            },
    {
        self.entries.get(&k)
    }

    /// Stores `v` under `k`, replacing what was there.
    pub fn insert(&mut self, k: u32, v: V)
        requires
            old(self).wf(),
        ensures
            final(self).wf(),
            final(self).map() == old(self).map().insert(k, v),
    {
        let ghost ok = self.keys@;
        let p = self.lower_bound(k);
        let had = self.entries.insert(k, v);
        if had.is_none() {
            self.keys.insert(p, k);
            proof {
                let nk = self.keys@;
                assert(nk == ok.insert(p as int, k));
                assert(!ok.contains(k));
                assert(increasing(nk)) by {
                    assert forall|i: int, j: int| 0 <= i < j < nk.len() implies nk[i] < nk[j] by {
                        if i == p {
                            assert(nk[j] == ok[j - 1]);
                            assert(ok[j - 1] != k);
                            assert(ok[j - 1] >= k) by {
                                if j - 1 > p {
                                    assert(ok[p as int] < ok[j - 1]);
                                }
                            }
                        } else if j == p {
                            assert(nk[i] == ok[i]);
                        } else {
                            let oi = if i < p { i } else { i - 1 };
                            let oj = if j < p { j } else { j - 1 };
                            assert(nk[i] == ok[oi]);
                            assert(nk[j] == ok[oj]);
                        }
                    }
                }
                assert forall|q: u32| self.entries@.dom().contains(q) <==> nk.contains(q) by {
                    if nk.contains(q) {
                        let i = choose|i: int| 0 <= i < nk.len() && nk[i] == q;
                        if i < p {
                            assert(ok[i] == q);
                        } else if i > p {
                            assert(ok[i - 1] == q);
                        }
                    }
                    if ok.contains(q) {
                        let i = choose|i: int| 0 <= i < ok.len() && ok[i] == q;
                        if i < p {
                            assert(nk[i] == q);
                        } else {
                            assert(nk[i + 1] == q);
                        }
                    }
                    if q == k {
                        assert(nk[p as int] == k);
                    }
                }
            }
        }
    }

    /// Removes the key `k`, giving back its value.
    pub fn remove(&mut self, k: u32) -> (r: Option<V>)
        requires
            old(self).wf(),
        ensures
            final(self).wf(),
            final(self).map() == old(self).map().remove(k),
            match r {
                Some(v) => old(self).map().dom().contains(k) && old(self).map()[k] == v,
                None => !old(self).map().dom().contains(k),
            },
    {
        let ghost ok = self.keys@;
        let p = self.lower_bound(k);
        let r = self.entries.remove(&k);
        if r.is_some() {
            proof {
                assert(ok.contains(k));
                let i = choose|i: int| 0 <= i < ok.len() && ok[i] == k;
                assert(i == p) by {
                    if i < p {
                    } else if p < i {
                        assert(ok[p as int] < ok[i]);
                    }
                }
            }
            self.keys.remove(p);
            proof {
                let nk = self.keys@;
                assert(increasing(nk)) by {
                    assert forall|i: int, j: int| 0 <= i < j < nk.len() implies nk[i] < nk[j] by {
                        let oi = if i < p { i } else { i + 1 };
                        let oj = if j < p { j } else { j + 1 };
                        assert(nk[i] == ok[oi]);
                        assert(nk[j] == ok[oj]);
                    }
                }
                assert forall|q: u32| self.entries@.dom().contains(q) <==> nk.contains(q) by {
                    if nk.contains(q) {
                        let i = choose|i: int| 0 <= i < nk.len() && nk[i] == q;
                        let oi = if i < p { i } else { i + 1 };
                        assert(ok[oi] == q);
                        assert(q != k) by {
                            if oi < p {
                                assert(ok[oi] < ok[p as int]);
                            } else {
                                assert(ok[p as int] < ok[oi]);
                            }
                        }
                    }
                    if ok.contains(q) && q != k {
                        let i = choose|i: int| 0 <= i < ok.len() && ok[i] == q;
                        assert(i != p);
                        if i < p {
                            assert(nk[i] == q);
                        } else {
                            assert(nk[i - 1] == q);
                        }
                    }
                }
            }
        }
        r
    }

    /// The key at position `i`.
    pub fn key_at(&self, i: usize) -> (k: u32)
        requires
            self.wf(),
            i < self.key_seq().len(),
        ensures
            k == self.key_seq()[i as int],
    {
        self.keys[i]
    }

    /// The value at position `i`.
    pub fn val_at(&self, i: usize) -> (v: &V)
        requires
            self.wf(),
            i < self.key_seq().len(),
        ensures
            *v == self.val_seq()[i as int],
            *v == self.map()[self.key_seq()[i as int]],
    {
        proof {
            assert(self.keys@.contains(self.keys@[i as int]));
        }
        self.entries.get(&self.keys[i]).unwrap()
    }
}

} // verus!
