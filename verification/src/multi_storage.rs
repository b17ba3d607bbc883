//! Federated statistics over several stores: a writable local store plus
//! read-only caches.

use vstd::prelude::*;

use crate::storage::StorageStats;

verus! {

/// Where a store's rows come from.
#[derive(Debug, Clone, PartialEq, Eq)]
pub enum StorageSource {
    /// The local writable store.
    Local,
    /// A named read-only cache of remote data.
    Cache(String),
}

/// Statistics over the local store and every cache.
pub struct MultiStorageStats {
    /// The local store's counts.
    pub local: StorageStats,
    /// Each cache's name and counts.
    pub caches: Vec<(String, StorageStats)>,
}

/// Total rows over the local store and the first `k` caches.
pub open spec fn spec_total_facts(stats: MultiStorageStats, k: int) -> int
    decreases k,
{
    if k <= 0 {
        stats.local.total as int
    } else {
        spec_total_facts(stats, k - 1) + stats.caches@[k - 1].1.total
    }
}

impl MultiStorageStats {
    /// Total rows across every store. The caller keeps the total within
    /// range; an overflowing configuration is out of scope.
    #[verifier::loop_isolation(false)]
    pub fn total_facts(&self) -> (r: i64)
        requires
            forall|k: int|
                0 <= k <= self.caches@.len() ==> i64::MIN <= #[trigger] spec_total_facts(
                    *self,
                    k,
                ) <= i64::MAX,
        ensures
            r == spec_total_facts(*self, self.caches@.len() as int),
    {
        let mut total: i64 = self.local.total;
        let n = self.caches.len();
        let mut i: usize = 0;
        while i < n
            invariant
                0 <= i <= n,
                n == self.caches@.len(),
                total == spec_total_facts(*self, i as int),
            decreases n - i,
        {
            let entry: &(String, StorageStats) = &self.caches[i];
            proof {
                assert(spec_total_facts(*self, i + 1) == spec_total_facts(*self, i as int)
                    + self.caches@[i as int].1.total);
            }
            total = total + entry.1.total;
            i = i + 1;
        }
        total
    }
}

} // verus!
