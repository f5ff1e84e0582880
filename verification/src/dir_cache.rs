//! TTL cache for directory listings keyed by absolute path.
//!
//! Times are milliseconds on the caller's clock; the cache never reads a
//! clock itself.
use vstd::prelude::*;

use crate::reader::DirListing;
use crate::table::KeyedTable;
use crate::text::{chars_vec, has_prefix_at, starts_with};

verus! {

broadcast use vstd::string::group_string_axioms;

pub struct CachedEntry {
    pub listing: DirListing,
    pub created_ms: u64,
}

/// A cached listing and how old it is.
pub struct DirListingSnapshot {
    pub listing: DirListing,
    pub age_ms: u64,
}

/// `k` names `p` or a path below it (component-wise, for normalised
/// absolute paths).
pub open spec fn path_starts_with(k: Seq<char>, p: Seq<char>) -> bool {
    starts_with(k, p) && (k.len() == p.len() || p.len() == 0 || p.last() == '/' || k[p.len() as int]
        == '/')
}

/// Age of an entry created at `created` when read at `now` (0 if the clock
/// went backwards).
pub open spec fn age_of(created: u64, now: u64) -> u64 {
    if now >= created {
        (now - created) as u64
    } else {
        0
    }
}

pub struct DirCache {
    entries: KeyedTable<CachedEntry>,
}

impl DirCache {
    pub closed spec fn view(&self) -> Map<Seq<char>, CachedEntry> {
        self.entries.view()
    }

    pub closed spec fn wf(&self) -> bool {
        self.entries.wf()
    }

    pub fn new() -> (r: Self)
        ensures
            r.wf(),
            r.view() == Map::<Seq<char>, CachedEntry>::empty(),
    {
        DirCache { entries: KeyedTable::new() }
    }

    /// The cached listing for `key` if it is at most `ttl_ms` old at `now_ms`.
    pub fn get(&self, key: &str, ttl_ms: u64, now_ms: u64) -> (r: Option<DirListingSnapshot>)
        requires
            self.wf(),
        ensures
            r is Some <==> (self.view().contains_key(key@) && age_of(
                self.view()[key@].created_ms,
                now_ms,
            ) <= ttl_ms),
            r matches Some(s) ==> {
                let e = self.view()[key@];
                &&& s.age_ms == age_of(e.created_ms, now_ms)
                &&& s.listing.path == e.listing.path
                &&& s.listing.parent == e.listing.parent
                &&& s.listing.entries@ == e.listing.entries@
                &&& s.listing.total == e.listing.total
            },
    {
        match self.entries.get(key) {
            None => None,
            Some(e) => {
                let age = now_ms.saturating_sub(e.created_ms);
                if age > ttl_ms {
                    None
                } else {
                    Some(DirListingSnapshot { listing: e.listing.duplicate(), age_ms: age })
                }
            },
        }
    }

    /// Caches `listing` under `key`, created at `now_ms`.
    pub fn put(&mut self, key: String, listing: DirListing, now_ms: u64)
        requires
            old(self).wf(),
        ensures
            final(self).wf(),
            final(self).view() == old(self).view().insert(
                key@,
                CachedEntry { listing, created_ms: now_ms },
            ),
    {
        self.entries.insert(key, CachedEntry { listing, created_ms: now_ms });
    }

    pub fn invalidate(&mut self, key: &str)
        requires
            old(self).wf(),
        ensures
            final(self).wf(),
            final(self).view() == old(self).view().remove(key@),
    {
        let _ = self.entries.remove(key);
    }

    /// Drops every entry whose key is `prefix` or lies below it.
    pub fn invalidate_prefix(&mut self, prefix: &str)
        requires
            old(self).wf(),
        ensures
            final(self).wf(),
            final(self).view() == old(self).view().restrict(
                old(self).view().dom().filter(|k: Seq<char>| !path_starts_with(k, prefix@)),
            ),
    {
        let p = chars_vec(prefix);
        let ghost orig = self.view();
        let mut doomed: Vec<String> = Vec::new();
        let n = self.entries.len();
        let mut i: usize = 0;
        while i < n
            invariant
                self.wf(),
                self.view() == orig,
                p@ == prefix@,
                n == self.entries.size(),
                i <= n,
                forall|t: int|
                    0 <= t < doomed@.len() ==> orig.contains_key(#[trigger] doomed@[t]@)
                        && path_starts_with(doomed@[t]@, prefix@),
                forall|t: int|
                    0 <= t < i && path_starts_with(#[trigger] self.entries.key_at_spec(t), prefix@)
                        ==> exists|u: int| 0 <= u < doomed@.len() && doomed@[u]@ == self.entries.key_at_spec(t),
            decreases n - i,
        {
            proof {
                self.entries.lemma_entry_at(i as int);
            }
            let k = self.entries.key_at(i);
            let kv = chars_vec(k.as_str());
            let ghost prev = doomed@;
            if key_under(kv.as_slice(), p.as_slice()) {
                doomed.push(k.clone());
            }
            proof {
                assert forall|t: int|
                    0 <= t < i + 1 && path_starts_with(#[trigger] self.entries.key_at_spec(t), prefix@)
                        implies exists|u: int| 0 <= u < doomed@.len() && doomed@[u]@ == self.entries.key_at_spec(t) by {
                    if t < i {
                        let u = choose|u: int| 0 <= u < prev.len() && prev[u]@ == self.entries.key_at_spec(t);
                        assert(doomed@[u] == prev[u]);
                    } else {
                        assert(doomed@[doomed@.len() - 1]@ == self.entries.key_at_spec(t));
                    }
                }
                assert forall|t: int| 0 <= t < doomed@.len() implies orig.contains_key(#[trigger] doomed@[t]@)
                        && path_starts_with(doomed@[t]@, prefix@) by {
                    if t < prev.len() {
                        assert(doomed@[t] == prev[t]);
                    }
                }
            }
            i = i + 1;
        }
        proof {
            assert forall|k: Seq<char>| #[trigger] orig.contains_key(k) && path_starts_with(k, prefix@)
                implies exists|u: int| 0 <= u < doomed@.len() && doomed@[u]@ == k by {
                self.entries.lemma_key_has_index(k);
            }
        }
        let mut j: usize = 0;
        while j < doomed.len()
            invariant
                self.wf(),
                j <= doomed@.len(),
                forall|t: int|
                    0 <= t < doomed@.len() ==> orig.contains_key(#[trigger] doomed@[t]@)
                        && path_starts_with(doomed@[t]@, prefix@),
                forall|k: Seq<char>| #[trigger] orig.contains_key(k) && path_starts_with(k, prefix@)
                    ==> exists|u: int| 0 <= u < doomed@.len() && doomed@[u]@ == k,
                forall|k: Seq<char>| #[trigger] self.view().contains_key(k) ==> orig.contains_key(k) && self.view()[k] == orig[k],
                forall|k: Seq<char>| orig.contains_key(k) && !path_starts_with(k, prefix@) ==> #[trigger] self.view().contains_key(k),
                forall|t: int| 0 <= t < j ==> !self.view().contains_key(#[trigger] doomed@[t]@),
            decreases doomed@.len() - j,
        {
            let ghost pre = self.view();
            let _ = self.entries.remove(doomed[j].as_str());
            proof {
                assert(self.view() == pre.remove(doomed@[j as int]@));
                assert forall|k: Seq<char>| #[trigger] self.view().contains_key(k) implies orig.contains_key(k) && self.view()[k] == orig[k] by {
                    assert(pre.contains_key(k));
                }
                assert forall|k: Seq<char>| orig.contains_key(k) && !path_starts_with(k, prefix@) implies #[trigger] self.view().contains_key(k) by {
                    assert(pre.contains_key(k));
                    assert(path_starts_with(doomed@[j as int]@, prefix@));
                }
            }
            j = j + 1;
        }
        proof {
            let keep = orig.dom().filter(|k: Seq<char>| !path_starts_with(k, prefix@));
            assert forall|k: Seq<char>| self.view().contains_key(k) <==> orig.restrict(keep).contains_key(k) by {
                if orig.contains_key(k) && path_starts_with(k, prefix@) {
                    let u = choose|u: int| 0 <= u < doomed@.len() && doomed@[u]@ == k;
                    assert(!self.view().contains_key(doomed@[u]@));
                }
            }
            assert(self.view() =~= orig.restrict(keep));
        }
    }

    pub fn clear(&mut self)
        ensures
            final(self).wf(),
            final(self).view() == Map::<Seq<char>, CachedEntry>::empty(),
    {
        self.entries = KeyedTable::new();
    }

    pub fn len(&self) -> (r: usize)
        requires
            self.wf(),
        ensures
            r == self.view().dom().len(),
    {
        self.entries.len()
    }

    pub fn is_empty(&self) -> (r: bool)
        requires
            self.wf(),
        ensures
            r == (self.view().dom().len() == 0),
    {
        self.entries.len() == 0
    }
}

/// Component-wise prefix test on path text.
pub fn key_under(k: &[char], p: &[char]) -> (r: bool)
    ensures
        r == path_starts_with(k@, p@),
{
    assert(k@.skip(0) =~= k@);
    if !has_prefix_at(k, 0, p) {
        return false;
    }
    k.len() == p.len() || p.len() == 0 || p[p.len() - 1] == '/' || k[p.len()] == '/'
}

/// Reading back a listing right after caching it gives that listing.
pub proof fn put_then_get(before: Map<Seq<char>, CachedEntry>, key: Seq<char>, e: CachedEntry, ttl_ms: u64)
    ensures
        before.insert(key, e).contains_key(key),
        before.insert(key, e)[key] == e,
        age_of(e.created_ms, e.created_ms) == 0,
        age_of(e.created_ms, e.created_ms) <= ttl_ms,
{
}

/// Once a key is invalidated, reading it misses until it is cached again.
pub proof fn invalidate_then_miss(before: Map<Seq<char>, CachedEntry>, key: Seq<char>)
    ensures
        !before.remove(key).contains_key(key),
        forall|k: Seq<char>| k != key ==> before.remove(key).contains_key(k) == before.contains_key(k),
{
}

/// Invalidating a prefix drops exactly the entries at or below it.
pub proof fn invalidate_prefix_scope(before: Map<Seq<char>, CachedEntry>, prefix: Seq<char>, k: Seq<char>)
    ensures
        before.restrict(before.dom().filter(|q: Seq<char>| !path_starts_with(q, prefix))).contains_key(k)
            <==> (before.contains_key(k) && !path_starts_with(k, prefix)),
{
}

} // verus!
