//! A map keyed by strings, kept as two parallel vectors with distinct keys.
//!
//! vstd specifies `std::collections::HashMap` only for key types that obey its hash-table
//! key model, which it establishes for integer keys and not for `String`; this map keeps
//! string keys with a contract of its own.

use crate::textops::str_equal;
use vstd::prelude::*;

verus! {

/// The map that results from inserting the pairs `(ks[i], vs[i])` in order.
pub open spec fn keyed_map<W>(ks: Seq<Seq<char>>, vs: Seq<W>) -> Map<Seq<char>, W>
    decreases ks.len(),
{
    if ks.len() == 0 || vs.len() == 0 {
        Map::empty()
    } else {
        keyed_map(ks.drop_last(), vs.drop_last()).insert(ks.last(), vs.last())
    }
}

/// Whether no key occurs twice.
pub open spec fn distinct_keys(ks: Seq<Seq<char>>) -> bool {
    forall|i: int, j: int| 0 <= i < j < ks.len() ==> ks[i] != ks[j]
}

proof fn lemma_keyed_map_facts<W>(ks: Seq<Seq<char>>, vs: Seq<W>)
    requires
        ks.len() == vs.len(),
        distinct_keys(ks),
    ensures
        keyed_map(ks, vs).dom().finite(),
        keyed_map(ks, vs).dom().len() == ks.len(),
        forall|k: Seq<char>| keyed_map(ks, vs).dom().contains(k) <==> ks.contains(k),
        forall|i: int| 0 <= i < ks.len() ==> #[trigger] keyed_map(ks, vs)[ks[i]] == vs[i],
    decreases ks.len(),
{
    if ks.len() > 0 {
        let ks0 = ks.drop_last();
        let vs0 = vs.drop_last();
        lemma_keyed_map_facts(ks0, vs0);
        let m0 = keyed_map(ks0, vs0);
        assert(!ks0.contains(ks.last())) by {
            if ks0.contains(ks.last()) {
                let i = choose|i: int| 0 <= i < ks0.len() && ks0[i] == ks.last();
                assert(ks[i] == ks[ks.len() - 1]);
            }
        }
        assert forall|k: Seq<char>| keyed_map(ks, vs).dom().contains(k) <==> ks.contains(k) by {
            if ks.contains(k) && k != ks.last() {
                let i = choose|i: int| 0 <= i < ks.len() && ks[i] == k;
                assert(ks0[i] == k);
            }
            if ks0.contains(k) {
                let i = choose|i: int| 0 <= i < ks0.len() && ks0[i] == k;
                assert(ks[i] == k);
            }
            if k == ks.last() {
                assert(ks[ks.len() - 1] == k);
            }
        }
        assert forall|i: int| 0 <= i < ks.len() implies #[trigger] keyed_map(ks, vs)[ks[i]]
            == vs[i] by {
            if i < ks.len() - 1 {
                assert(ks0[i] == ks[i]);
                assert(m0[ks0[i]] == vs0[i]);
            }
        }
    }
}

proof fn lemma_keyed_map_update<W>(ks: Seq<Seq<char>>, vs: Seq<W>, j: int, v: W)
    requires
        ks.len() == vs.len(),
        distinct_keys(ks),
        0 <= j < ks.len(),
    ensures
        keyed_map(ks, vs.update(j, v)) == keyed_map(ks, vs).insert(ks[j], v),
    decreases ks.len(),
{
    let vs2 = vs.update(j, v);
    assert(vs2.len() == vs.len());
    lemma_keyed_map_facts(ks, vs);
    lemma_keyed_map_facts(ks, vs2);
    let a = keyed_map(ks, vs2);
    let b = keyed_map(ks, vs).insert(ks[j], v);
    assert(ks.contains(ks[j])) by {
        assert(ks[j] == ks[j]);
    }
    assert forall|k: Seq<char>| a.dom().contains(k) <==> b.dom().contains(k) by {
        if a.dom().contains(k) {
            assert(ks.contains(k));
            assert(keyed_map(ks, vs).dom().contains(k));
        }
        if b.dom().contains(k) {
            if k != ks[j] {
                assert(keyed_map(ks, vs).dom().contains(k));
                assert(ks.contains(k));
            }
            assert(ks.contains(k));
            assert(a.dom().contains(k));
        }
    }
    assert forall|k: Seq<char>| a.dom().contains(k) implies a[k] == b[k] by {
        assert(ks.contains(k));
        let i = choose|i: int| 0 <= i < ks.len() && ks[i] == k;
        assert(a[ks[i]] == vs2[i]);
        if i != j {
            if i < j {
                assert(ks[i] != ks[j]);
            } else {
                assert(ks[j] != ks[i]);
            }
            assert(keyed_map(ks, vs)[ks[i]] == vs[i]);
        }
    }
    assert(a =~= b);
}

/// A map from strings to values, kept in insertion order with distinct keys.
pub struct StrMap<V> {
    keys: Vec<String>,
    vals: Vec<V>,
}

impl<V: DeepView> StrMap<V> {
    pub closed spec fn key_seq(&self) -> Seq<Seq<char>> {
        self.keys@.map_values(|k: String| k@)
    }

    pub closed spec fn val_seq(&self) -> Seq<V::V> {
        self.vals@.map_values(|v: V| v.deep_view())
    }

    /// Keys and values pair up, and no key occurs twice.
    pub closed spec fn wf(&self) -> bool {
        &&& self.keys@.len() == self.vals@.len()
        &&& distinct_keys(self.key_seq())
    }

    /// The contents, each value taken by its deep view.
    pub closed spec fn map(&self) -> Map<Seq<char>, V::V> {
        keyed_map(self.key_seq(), self.val_seq())
    }

    pub fn new() -> (m: Self)
        ensures
            m.wf(),
            m.map() == Map::<Seq<char>, V::V>::empty(),
    {
        let m = StrMap { keys: Vec::new(), vals: Vec::new() };
        assert(m.key_seq() =~= Seq::<Seq<char>>::empty());
        m
    }

    /// The number of keys.
    pub fn len(&self) -> (n: usize)
        requires
            self.wf(),
        ensures
            self.map().dom().finite(),
            n == self.map().dom().len(),
    {
        proof {
            lemma_keyed_map_facts(self.key_seq(), self.val_seq());
        }
        self.keys.len()
    }

    /// Whether the map holds no key.
    pub fn is_empty(&self) -> (b: bool)
        requires
            self.wf(),
        ensures
            b == (self.map().dom().len() == 0),
    {
        self.len() == 0
    }

    fn index_of(&self, key: &str) -> (r: Option<usize>)
        requires
            self.wf(),
        ensures
            match r {
                Some(i) => i < self.keys@.len() && self.key_seq()[i as int] == key@,
                None => !self.key_seq().contains(key@),
            },
    {
        let mut i: usize = 0;
        while i < self.keys.len()
            invariant
                self.wf(),
                i <= self.keys@.len(),
                forall|j: int| 0 <= j < i ==> self.key_seq()[j] != key@,
            decreases self.keys@.len() - i,
        {
            if str_equal(self.keys[i].as_str(), key) {
                return Some(i);
            }
            i = i + 1;
        }
        None
    }

    /// Whether `key` is in the map.
    pub fn contains_key(&self, key: &str) -> (b: bool)
        requires
            self.wf(),
        ensures
            b == self.map().dom().contains(key@),
    {
        proof {
            lemma_keyed_map_facts(self.key_seq(), self.val_seq());
        }
        match self.index_of(key) {
            Some(i) => {
                assert(self.key_seq().contains(key@)) by {
                    assert(self.key_seq()[i as int] == key@);
                }
                true
            },
            None => false,
        }
    }

    /// The value stored under `key`.
    pub fn get(&self, key: &str) -> (r: Option<&V>)
        requires
            self.wf(),
        ensures
            match r {
                Some(v) => self.map().dom().contains(key@) && self.map()[key@] == v.deep_view(),
                None => !self.map().dom().contains(key@),
            },
    {
        proof {
            lemma_keyed_map_facts(self.key_seq(), self.val_seq());
        }
        match self.index_of(key) {
            Some(i) => {
                assert(self.key_seq()[i as int] == key@);
                assert(self.key_seq().contains(key@));
                assert(self.val_seq()[i as int] == self.vals@[i as int].deep_view());
                Some(&self.vals[i])
            },
            None => None,
        }
    }

    /// Stores `val` under `key`, replacing what was there.
    pub fn insert(&mut self, key: String, val: V)
        requires
            old(self).wf(),
        ensures
            final(self).wf(),
            final(self).map() == old(self).map().insert(key@, val.deep_view()),
    {
        let ghost ks = self.key_seq();
        let ghost vs = self.val_seq();
        match self.index_of(key.as_str()) {
            Some(i) => {
                let ghost dv = val.deep_view();
                self.vals.set(i, val);
                proof {
                    assert(self.key_seq() == ks);
                    assert(self.val_seq() =~= vs.update(i as int, dv));
                    lemma_keyed_map_update(ks, vs, i as int, dv);
                }
            },
            None => {
                let ghost k = key@;
                let ghost dv = val.deep_view();
                self.keys.push(key);
                self.vals.push(val);
                proof {
                    assert(self.key_seq() =~= ks.push(k));
                    assert(self.val_seq() =~= vs.push(dv));
                    assert(self.key_seq().drop_last() =~= ks);
                    assert(self.val_seq().drop_last() =~= vs);
                    assert forall|a: int, b: int|
                        0 <= a < b < self.key_seq().len() implies self.key_seq()[a]
                        != self.key_seq()[b] by {
                        if b == ks.len() {
                            assert(ks[a] == self.key_seq()[a]);
                        }
                    }
                }
            },
        }
    }

    /// The key at position `i`, in insertion order.
    pub fn key_at(&self, i: usize) -> (k: &String)
        requires
            self.wf(),
            i < self.key_seq().len(),
        ensures
            k@ == self.key_seq()[i as int],
    {
        &self.keys[i]
    }

    /// The value stored under the key at position `i`.
    pub fn val_at(&self, i: usize) -> (v: &V)
        requires
            self.wf(),
            i < self.key_seq().len(),
        ensures
            self.map()[self.key_seq()[i as int]] == v.deep_view(),
    {
        proof {
            lemma_keyed_map_facts(self.key_seq(), self.val_seq());
        }
        &self.vals[i]
    }

    /// The keys, in insertion order, are exactly the keys of the map, each once.
    pub proof fn lemma_keys(&self)
        requires
            self.wf(),
        ensures
            self.key_seq().len() == self.map().dom().len(),
            forall|k: Seq<char>| self.map().dom().contains(k) <==> self.key_seq().contains(k),
            forall|i: int, j: int|
                0 <= i < j < self.key_seq().len() ==> self.key_seq()[i] != self.key_seq()[j],
    {
        lemma_keyed_map_facts(self.key_seq(), self.val_seq());
    }
}

} // verus!
