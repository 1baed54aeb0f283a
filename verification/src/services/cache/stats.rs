//! Health metrics of the cache.

use vstd::prelude::*;

verus! {

/// Time a retrieval from the memory tier is taken to cost, in microseconds.
pub const MEMORY_RETRIEVAL_MICROS: u64 = 500;

/// Aggregate metrics over both tiers at one moment.
#[derive(Debug, Clone, Copy, PartialEq, Eq)]
pub struct CacheStats {
    /// Entries in the memory tier plus rows in the persistent tier.  A key
    /// held by both tiers counts twice.
    pub total_keys: usize,
    /// Rows of the persistent tier that have expired.
    pub expired_keys: usize,
    /// Footprint of the memory tier, reckoned at one kibibyte per entry.
    pub memory_usage_kib: usize,
    /// Sum of the hit counters of the memory tier.
    pub total_hits: u128,
    /// Time a retrieval is taken to cost, in microseconds.
    pub average_retrieval_micros: u64,
}

impl CacheStats {
    /// The hit ratio as a fraction: lifetime hits of the memory tier over the
    /// present number of keys, and zero over one where there is no key.
    pub open spec fn spec_hit_ratio(self) -> (nat, nat) {
        if self.total_keys > 0 {
            (self.total_hits as nat, self.total_keys as nat)
        } else {
            (0, 1)
        }
    }

    /// Numerator and denominator of the hit ratio; the denominator is never
    /// zero.
    pub fn hit_ratio(&self) -> (r: (u128, u128))
        ensures
            (r.0 as nat, r.1 as nat) == self.spec_hit_ratio(),
            r.1 > 0,
    {
        if self.total_keys > 0 {
            (self.total_hits, self.total_keys as u128)
        } else {
            (0, 1)
        }
    }
}

} // verus!
