use vstd::prelude::*;
use vstd::rwlock::{RwLock, RwLockPredicate};

use crate::edit_distance::{distance, edit_dist, lemma_edit_dist_symmetric};

verus! {

/// One memoized result: the distance between an ordered pair of words.
pub struct CacheEntry {
    pub a: String,
    pub b: String,
    pub d: usize,
}

/// What the cache's lock protects: every stored value is the edit distance of
/// its key, and no ordered key pair is stored twice.
pub open spec fn cache_wf(entries: Seq<CacheEntry>) -> bool {
    &&& forall|k: int|
        0 <= k < entries.len() ==> (#[trigger] entries[k]).d == edit_dist(
            entries[k].a@,
            entries[k].b@,
        )
    &&& forall|k: int, l: int|
        0 <= k < l < entries.len() ==> !((#[trigger] entries[k]).a@ == (
        #[trigger] entries[l]).a@ && entries[k].b@ == entries[l].b@)
}

/// The lock invariant of a distance cache.
pub struct CachePred {}

impl RwLockPredicate<Vec<CacheEntry>> for CachePred {
    open spec fn inv(self, entries: Vec<CacheEntry>) -> bool {
        cache_wf(entries@)
    }
}

/// A memo table for edit distances, keyed by ordered word pairs. One lock
/// guards the table, so concurrent workers may share a cache: whoever holds
/// the lock sees only correct entries and leaves only correct entries behind.
/// Entries accumulate for the cache's lifetime; nothing is evicted.
pub struct DistanceCache {
    table: RwLock<Vec<CacheEntry>, CachePred>,
}

impl DistanceCache {
    /// An empty cache.
    pub fn new() -> (c: DistanceCache)
    {
        let entries: Vec<CacheEntry> = Vec::new();
        DistanceCache { table: RwLock::new(entries, Ghost(CachePred {})) }
    }

    /// The memoized edit distance between `a` and `b`: answered from the
    /// table when the ordered pair is present, computed and stored while the
    /// lock is held otherwise. Whatever other callers did to the cache
    /// before or in between, the result is the edit distance itself.
    pub fn get_or_compute(&self, a: &str, b: &str) -> (d: usize)
        ensures
            d == edit_dist(a@, b@),
    {
        let ka = a.to_owned();
        let kb = b.to_owned();
        let (mut entries, handle) = self.table.acquire_write();
        let mut i: usize = 0;
        while i < entries.len()
            invariant
                cache_wf(entries@),
                ka@ == a@,
                kb@ == b@,
                i <= entries@.len(),
                forall|k: int|
                    0 <= k < i ==> !((#[trigger] entries@[k]).a@ == a@ && entries@[k].b@ == b@),
            decreases entries@.len() - i,
        {
            let e = &entries[i];
            if e.a == ka && e.b == kb {
                let d = e.d;
                handle.release_write(entries);
                return d;
            }
            i += 1;
        }
        let d = distance(a, b);
        let ghost prev = entries@;
        entries.push(CacheEntry { a: ka, b: kb, d });
        proof {
            assert forall|k: int, l: int| 0 <= k < l < entries@.len() implies !((
            #[trigger] entries@[k]).a@ == (#[trigger] entries@[l]).a@ && entries@[k].b@
                == entries@[l].b@) by {
                if l < prev.len() {
                    assert(entries@[k] == prev[k] && entries@[l] == prev[l]);
                } else {
                    assert(entries@[k] == prev[k]);
                    assert(entries@[l].a@ == a@ && entries@[l].b@ == b@);
                }
            }
        }
        handle.release_write(entries);
        d
    }
}

/// One unordered word pair can never be cached under two diverging values:
/// any two entries that key the same pair, in either order, store the same
/// distance, because the distance itself is symmetric.
pub proof fn lemma_cache_no_divergence(entries: Seq<CacheEntry>, k: int, l: int)
    requires
        cache_wf(entries),
        0 <= k < entries.len(),
        0 <= l < entries.len(),
        (entries[k].a@ == entries[l].a@ && entries[k].b@ == entries[l].b@) || (entries[k].a@
            == entries[l].b@ && entries[k].b@ == entries[l].a@),
    ensures
        entries[k].d == entries[l].d,
{
    lemma_edit_dist_symmetric(entries[k].a@, entries[k].b@);
}

} // verus!
