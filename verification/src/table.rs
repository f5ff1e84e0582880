//! A small string-keyed table, viewed as a finite map.
//!
//! Backs the connection registry, the directory cache and the watcher
//! registry. Order of entries is not part of the view.
use vstd::prelude::*;

use crate::text::{chars_eq, chars_vec};

verus! {

broadcast use vstd::string::group_string_axioms;

pub struct KeyedTable<V> {
    keys: Vec<String>,
    vals: Vec<V>,
}

impl<V> KeyedTable<V> {
    /// The keys, as character sequences, in storage order.
    pub closed spec fn key_views(&self) -> Seq<Seq<char>> {
        self.keys@.map_values(|s: String| s@)
    }

    /// Keys are pairwise distinct and each has its value.
    pub closed spec fn wf(&self) -> bool {
        &&& self.keys@.len() == self.vals@.len()
        &&& self.key_views().no_duplicates()
    }

    /// Storage index of key `k` (meaningful when present).
    pub closed spec fn index_of(&self, k: Seq<char>) -> int {
        choose|i: int| 0 <= i < self.keys@.len() && self.keys@[i]@ == k
    }

    pub closed spec fn has(&self, k: Seq<char>) -> bool {
        exists|i: int| 0 <= i < self.keys@.len() && self.keys@[i]@ == k
    }

    /// The table as a map from keys to values.
    pub closed spec fn view(&self) -> Map<Seq<char>, V> {
        Map::new(|k: Seq<char>| self.has(k), |k: Seq<char>| self.vals@[self.index_of(k)])
    }

    /// Number of entries.
    pub closed spec fn size(&self) -> nat {
        self.keys@.len()
    }

    /// Key at storage index `i`.
    pub closed spec fn key_at_spec(&self, i: int) -> Seq<char> {
        self.keys@[i]@
    }

    /// Value at storage index `i`.
    pub closed spec fn value_at_spec(&self, i: int) -> V {
        self.vals@[i]
    }

    proof fn lemma_index(&self, i: int)
        requires
            self.wf(),
            0 <= i < self.keys@.len(),
        ensures
            self.has(self.keys@[i]@),
            self.index_of(self.keys@[i]@) == i,
            self.view().contains_key(self.keys@[i]@),
            self.view()[self.keys@[i]@] == self.vals@[i],
    {
        let k = self.keys@[i]@;
        assert(self.has(k));
        let j = self.index_of(k);
        assert(0 <= j < self.keys@.len() && self.keys@[j]@ == k);
        assert(self.key_views()[i] == k);
        assert(self.key_views()[j] == k);
    }

    /// Facts about the entry at a storage index.
    pub proof fn lemma_entry_at(&self, i: int)
        requires
            self.wf(),
            0 <= i < self.size(),
        ensures
            self.view().contains_key(self.key_at_spec(i)),
            self.view()[self.key_at_spec(i)] == self.value_at_spec(i),
            forall|j: int| 0 <= j < self.size() && j != i ==> self.key_at_spec(j) != self.key_at_spec(i),
    {
        self.lemma_index(i);
        assert forall|j: int| 0 <= j < self.size() && j != i implies self.key_at_spec(j)
            != self.key_at_spec(i) by {
            assert(self.key_views()[i] == self.key_at_spec(i));
            assert(self.key_views()[j] == self.key_at_spec(j));
        }
    }

    /// Every key of the view sits at some storage index.
    pub proof fn lemma_key_has_index(&self, k: Seq<char>)
        requires
            self.wf(),
            self.view().contains_key(k),
        ensures
            0 <= self.index_of(k) < self.size(),
            self.key_at_spec(self.index_of(k)) == k,
    {
    }

    /// The number of keys equals the number of entries.
    pub proof fn lemma_size(&self)
        requires
            self.wf(),
        ensures
            self.view().dom().len() == self.size(),
            self.view().dom().finite(),
    {
        let ks = self.key_views();
        assert(self.view().dom() =~= ks.to_set()) by {
            assert forall|k: Seq<char>| self.view().dom().contains(k) implies ks.to_set().contains(
                k,
            ) by {
                let i = self.index_of(k);
                assert(ks[i] == k);
            }
            assert forall|k: Seq<char>| ks.to_set().contains(k) implies self.view().dom().contains(
                k,
            ) by {
                let i = choose|i: int| 0 <= i < ks.len() && ks[i] == k;
                assert(self.keys@[i]@ == k);
            }
        }
        ks.unique_seq_to_set();
    }

    pub fn new() -> (r: Self)
        ensures
            r.wf(),
            r.view() == Map::<Seq<char>, V>::empty(),
            r.size() == 0,
    {
        let r = KeyedTable { keys: Vec::new(), vals: Vec::new() };
        assert(r.view() =~= Map::<Seq<char>, V>::empty());
        assert(r.key_views() =~= Seq::<Seq<char>>::empty());
        r
    }

    pub fn len(&self) -> (r: usize)
        requires
            self.wf(),
        ensures
            r == self.size(),
            r == self.view().dom().len(),
    {
        proof {
            self.lemma_size();
        }
        self.keys.len()
    }

    /// Storage index of `k`, if present.
    pub fn find(&self, k: &str) -> (r: Option<usize>)
        requires
            self.wf(),
        ensures
            r is Some <==> self.view().contains_key(k@),
            r matches Some(i) ==> i < self.size() && self.key_at_spec(i as int) == k@
                && self.index_of(k@) == i,
    {
        let kv = chars_vec(k);
        let mut i: usize = 0;
        while i < self.keys.len()
            invariant
                self.wf(),
                kv@ == k@,
                i <= self.keys@.len(),
                forall|j: int| 0 <= j < i ==> self.keys@[j]@ != k@,
            decreases self.keys@.len() - i,
        {
            let c = chars_vec(self.keys[i].as_str());
            if chars_eq(c.as_slice(), kv.as_slice()) {
                proof {
                    self.lemma_index(i as int);
                }
                return Some(i);
            }
            i = i + 1;
        }
        None
    }

    pub fn key_at(&self, i: usize) -> (r: &String)
        requires
            self.wf(),
            i < self.size(),
        ensures
            r@ == self.key_at_spec(i as int),
    {
        &self.keys[i]
    }

    pub fn value_at(&self, i: usize) -> (r: &V)
        requires
            self.wf(),
            i < self.size(),
        ensures
            *r == self.value_at_spec(i as int),
    {
        &self.vals[i]
    }

    pub fn get(&self, k: &str) -> (r: Option<&V>)
        requires
            self.wf(),
        ensures
            r is Some <==> self.view().contains_key(k@),
            r matches Some(v) ==> *v == self.view()[k@],
    {
        match self.find(k) {
            None => None,
            Some(i) => {
                proof {
                    self.lemma_index(i as int);
                }
                Some(&self.vals[i])
            },
        }
    }

    /// Inserts or replaces the value of `k`.
    pub fn insert(&mut self, k: String, v: V)
        requires
            old(self).wf(),
        ensures
            final(self).wf(),
            final(self).view() == old(self).view().insert(k@, v),
    {
        match self.find(k.as_str()) {
            Some(i) => {
                let ghost pre = *self;
                self.vals.set(i, v);
                proof {
                    assert(self.keys@ == pre.keys@);
                    assert(self.key_views() =~= pre.key_views());
                    assert forall|q: Seq<char>| self.has(q) == pre.has(q) by {}
                    assert forall|q: Seq<char>| #[trigger] self.has(q) && q != k@ implies self.index_of(q) == pre.index_of(q) by {
                        let a = self.index_of(q);
                        let b = pre.index_of(q);
                        assert(self.key_views()[a] == q);
                        assert(self.key_views()[b] == q);
                    }
                    self.lemma_index(i as int);
                    assert(self.view() =~= pre.view().insert(k@, v));
                }
            },
            None => {
                let ghost pre = *self;
                let ghost kv = k@;
                self.keys.push(k);
                self.vals.push(v);
                proof {
                    assert(self.key_views() =~= pre.key_views().push(kv));
                    assert forall|p: int, q: int| 0 <= p < q < self.key_views().len() implies self.key_views()[p] != self.key_views()[q] by {
                        if q == pre.keys@.len() {
                            assert(!pre.has(kv));
                            assert(pre.keys@[p]@ != kv);
                        } else {
                            assert(pre.key_views()[p] != pre.key_views()[q]);
                        }
                    }
                    let n = pre.keys@.len() as int;
                    self.lemma_index(n);
                    assert forall|q: Seq<char>| #[trigger] self.has(q) && q != kv implies pre.has(q) && self.index_of(q) == pre.index_of(q) by {
                        let a = self.index_of(q);
                        assert(a < n);
                        assert(pre.keys@[a]@ == q);
                        let b = pre.index_of(q);
                        assert(self.key_views()[a] == q);
                        assert(self.key_views()[b] == q);
                    }
                    assert forall|q: Seq<char>| pre.has(q) implies #[trigger] self.has(q) by {
                        let b = pre.index_of(q);
                        assert(self.keys@[b]@ == q);
                    }
                    assert(self.view() =~= pre.view().insert(kv, v));
                }
            },
        }
    }

    /// Removes `k`, handing back its value.
    pub fn remove(&mut self, k: &str) -> (r: Option<V>)
        requires
            old(self).wf(),
        ensures
            final(self).wf(),
            final(self).view() == old(self).view().remove(k@),
            r is Some <==> old(self).view().contains_key(k@),
            r matches Some(v) ==> v == old(self).view()[k@],
    {
        match self.find(k) {
            None => {
                assert(self.view() =~= self.view().remove(k@));
                None
            },
            Some(i) => {
                let ghost pre = *self;
                proof {
                    pre.lemma_index(i as int);
                }
                self.keys.remove(i);
                let v = self.vals.remove(i);
                proof {
                    assert(self.key_views() =~= pre.key_views().remove(i as int));
                    assert forall|p: int, q: int| 0 <= p < q < self.key_views().len() implies self.key_views()[p] != self.key_views()[q] by {
                        let pp = if p < i { p } else { p + 1 };
                        let qq = if q < i { q } else { q + 1 };
                        assert(pre.key_views()[pp] != pre.key_views()[qq]);
                    }
                    assert forall|q: Seq<char>| #[trigger] self.has(q) implies pre.has(q) && q != k@ && self.vals@[self.index_of(q)] == pre.vals@[pre.index_of(q)] by {
                        let a = self.index_of(q);
                        let aa = if a < i { a } else { a + 1 };
                        assert(pre.keys@[aa]@ == q);
                        assert(pre.key_views()[aa] != pre.key_views()[i as int]);
                        pre.lemma_index(aa);
                    }
                    assert forall|q: Seq<char>| pre.has(q) && q != k@ implies #[trigger] self.has(q) by {
                        let b = pre.index_of(q);
                        assert(b != i);
                        let bb = if b < i { b } else { b - 1 };
                        assert(self.keys@[bb]@ == q);
                    }
                    assert(self.view() =~= pre.view().remove(k@));
                }
                Some(v)
            },
        }
    }
}

} // verus!
