//! The cache as a mathematical value, and what each operation makes of it.

use vstd::prelude::*;
use crate::services::cache::entry::{
    after_insert, after_lookup, after_remove, lookup_value, tier_wf, total_hits, without_expired,
    without_matching, EntryView,
};
use crate::services::cache::error::CacheErrorView;
use crate::services::cache::persistent::{
    after_delete, after_upsert, live_records, stored_value, unavailable_message, unique_keys,
    without_like, RecordView,
};
use crate::services::cache::stats::{CacheStats, MEMORY_RETRIEVAL_MICROS};

verus! {

/// Lifetime, in milliseconds, of a copy promoted from the persistent tier
/// into the memory tier: thirty minutes, whatever the record's own expiry.
pub const PROMOTION_TTL_MS: u64 = 1_800_000;

/// Longest lifetime an entry can be given, in milliseconds.
pub const MAX_TTL_MS: u64 = 9_223_372_036_854_775_807;

/// Key under which the analytics summary is kept warm.
pub open spec fn analytics_key() -> Seq<char> {
    "analytics_summary"@
}

/// Key under which the activity patterns are kept warm.
pub open spec fn activity_key() -> Seq<char> {
    "activity_patterns"@
}

/// Payload that warming stores for the analytics summary when none is cached.
pub open spec fn analytics_seed() -> Seq<char> {
    "{\"cached\":true,\"total_applications\":0,\"total_students\":0}"@
}

/// Payload that warming stores for the activity patterns when none is cached.
pub open spec fn activity_seed() -> Seq<char> {
    "{\"cached\":true,\"patterns\":[]}"@
}

/// Lifetime of the warmed analytics summary: thirty minutes.
pub const ANALYTICS_TTL_MS: u64 = 1_800_000;

/// Lifetime of the warmed activity patterns: fifteen minutes.
pub const ACTIVITY_TTL_MS: u64 = 900_000;

/// A key that is kept warm, with the lifetime its value is stored for.
pub struct HotKeyView {
    pub key: Seq<char>,
    pub ttl: nat,
}

/// Both tiers at one moment.
pub struct CacheView {
    pub memory: Seq<EntryView>,
    pub capacity: nat,
    pub store: Seq<RecordView>,
    pub store_available: bool,
}

impl CacheView {
    /// Both tiers are well formed.
    pub open spec fn wf(self) -> bool {
        tier_wf(self.memory, self.capacity) && unique_keys(self.store)
    }

    /// What a read of the persistent tier hands to the cache: a failed read
    /// counts as a miss.
    pub open spec fn store_read(self, key: Seq<char>, now: nat) -> Option<Seq<char>> {
        if self.store_available {
            stored_value(self.store, key, now)
        } else {
            None
        }
    }

    /// What a write to the persistent tier reports.
    pub open spec fn write_result(self) -> Result<(), CacheErrorView> {
        if self.store_available {
            Ok(())
        } else {
            Err(CacheErrorView::DatabaseError(unavailable_message()))
        }
    }

    /// The value `get` returns: the memory tier's if it has a live one, else
    /// the persistent tier's.
    pub open spec fn get_result(self, key: Seq<char>, now: nat) -> Option<Seq<char>> {
        match lookup_value(self.memory, key, now) {
            Some(v) => Some(v),
            None => self.store_read(key, now),
        }
    }

    /// What `get` returns: the value, or a miss where neither tier has one.
    pub open spec fn get_outcome(self, key: Seq<char>, now: nat) -> Result<
        Seq<char>,
        CacheErrorView,
    > {
        match self.get_result(key, now) {
            Some(v) => Ok(v),
            None => Err(CacheErrorView::NotFound),
        }
    }

    /// The cache after `get`: the memory tier has seen the lookup, and a value
    /// found only in the persistent tier has been promoted with the default
    /// lifetime.
    pub open spec fn after_get(self, key: Seq<char>, now: nat) -> CacheView {
        let looked = after_lookup(self.memory, key, now);
        if lookup_value(self.memory, key, now) is Some {
            CacheView { memory: looked, ..self }
        } else {
            match self.store_read(key, now) {
                Some(v) => CacheView {
                    memory: after_insert(
                        looked,
                        self.capacity,
                        EntryView::fresh(key, v, PROMOTION_TTL_MS as nat, now),
                    ),
                    ..self
                },
                None => CacheView { memory: looked, ..self },
            }
        }
    }

    /// The cache after `set`: the memory tier holds the entry in any case,
    /// the persistent tier only if it took the write.
    pub open spec fn after_set(self, key: Seq<char>, value: Seq<char>, ttl: nat, now: nat) -> CacheView {
        CacheView {
            memory: after_insert(self.memory, self.capacity, EntryView::fresh(key, value, ttl, now)),
            store: if self.store_available {
                after_upsert(self.store, RecordView { key, value, expires_at: now + ttl })
            } else {
                self.store
            },
            ..self
        }
    }

    /// The cache after a computation on a miss has ended with `outcome`.
    pub open spec fn after_compute(
        self,
        key: Seq<char>,
        ttl: nat,
        outcome: Result<Seq<char>, CacheErrorView>,
        now: nat,
    ) -> CacheView {
        match outcome {
            Ok(v) => self.after_set(key, v, ttl, now),
            Err(_) => self,
        }
    }

    /// What the caller of a computation on a miss receives.
    pub open spec fn compute_result(self, outcome: Result<Seq<char>, CacheErrorView>) -> Result<
        Seq<char>,
        CacheErrorView,
    > {
        match outcome {
            Ok(v) => match self.write_result() {
                Ok(_) => Ok(v),
                Err(e) => Err(e),
            },
            Err(e) => Err(e),
        }
    }

    /// The cache after `get_or_compute` whose read took place at `looked_at`
    /// and whose computation, if one ran, ended with `outcome` at `stored_at`.
    pub open spec fn after_get_or_compute(
        self,
        key: Seq<char>,
        ttl: nat,
        outcome: Result<Seq<char>, CacheErrorView>,
        looked_at: nat,
        stored_at: nat,
    ) -> CacheView {
        if self.get_result(key, looked_at) is Some {
            self.after_get(key, looked_at)
        } else {
            self.after_get(key, looked_at).after_compute(key, ttl, outcome, stored_at)
        }
    }

    /// What `get_or_compute` returns: the cached value on a hit, and on a
    /// miss what the computation yielded, unless the write-back failed.
    pub open spec fn get_or_compute_result(
        self,
        key: Seq<char>,
        outcome: Result<Seq<char>, CacheErrorView>,
        looked_at: nat,
    ) -> Result<Seq<char>, CacheErrorView> {
        match self.get_result(key, looked_at) {
            Some(v) => Ok(v),
            None => self.compute_result(outcome),
        }
    }

    /// The cache after the keys of `hot` have been warmed in their order at
    /// `now`, where `outcomes` holds for each key what its computation
    /// yielded, if one ran.
    pub open spec fn after_warming(
        self,
        hot: Seq<HotKeyView>,
        outcomes: Seq<Result<Seq<char>, CacheErrorView>>,
        now: nat,
    ) -> CacheView
        decreases hot.len(),
    {
        if hot.len() == 0 || outcomes.len() != hot.len() {
            self
        } else {
            self.after_warming(hot.drop_last(), outcomes.drop_last(), now).after_get_or_compute(
                hot.last().key,
                hot.last().ttl,
                outcomes.last(),
                now,
                now,
            )
        }
    }

    /// The cache after warming at `now`: each of the two hot keys has been
    /// read and, where it was missing, seeded.
    pub open spec fn after_warm(self, now: nat) -> CacheView {
        self.after_get_or_compute(
            analytics_key(),
            ANALYTICS_TTL_MS as nat,
            Ok(analytics_seed()),
            now,
            now,
        ).after_get_or_compute(
            activity_key(),
            ACTIVITY_TTL_MS as nat,
            Ok(activity_seed()),
            now,
            now,
        )
    }

    /// The cache after `invalidate`.
    pub open spec fn after_invalidate(self, key: Seq<char>) -> CacheView {
        CacheView {
            memory: after_remove(self.memory, key),
            store: if self.store_available {
                after_delete(self.store, key)
            } else {
                self.store
            },
            ..self
        }
    }

    /// The cache after `invalidate_pattern`.
    pub open spec fn after_invalidate_pattern(self, pattern: Seq<char>) -> CacheView {
        CacheView {
            memory: without_matching(self.memory, pattern),
            store: if self.store_available {
                without_like(self.store, pattern)
            } else {
                self.store
            },
            ..self
        }
    }

    /// What `invalidate_pattern` returns: the entries that left the memory
    /// tier plus the rows that left the persistent tier.
    pub open spec fn invalidated(self, pattern: Seq<char>) -> Result<int, CacheErrorView> {
        if self.store_available {
            Ok(
                (self.memory.len() - without_matching(self.memory, pattern).len()) + (
                self.store.len() - without_like(self.store, pattern).len()),
            )
        } else {
            Err(CacheErrorView::DatabaseError(unavailable_message()))
        }
    }

    /// The cache after `cleanup_expired`.
    pub open spec fn after_cleanup(self, now: nat) -> CacheView {
        CacheView {
            memory: without_expired(self.memory, now),
            store: if self.store_available {
                live_records(self.store, now)
            } else {
                self.store
            },
            ..self
        }
    }

    /// What `cleanup_expired` returns: the total removed from both tiers.
    pub open spec fn cleaned(self, now: nat) -> Result<int, CacheErrorView> {
        if self.store_available {
            Ok(
                (self.memory.len() - without_expired(self.memory, now).len()) + (self.store.len()
                    - live_records(self.store, now).len()),
            )
        } else {
            Err(CacheErrorView::DatabaseError(unavailable_message()))
        }
    }

    /// The metrics of the cache at `now`.
    pub open spec fn stats(self, now: nat) -> Result<CacheStats, CacheErrorView> {
        if self.store_available {
            Ok(
                CacheStats {
                    total_keys: (self.memory.len() + self.store.len()) as usize,
                    expired_keys: (self.store.len() - live_records(self.store, now).len()) as usize,
                    memory_usage_kib: self.memory.len() as usize,
                    total_hits: total_hits(self.memory) as u128,
                    average_retrieval_micros: MEMORY_RETRIEVAL_MICROS,
                },
            )
        } else {
            Err(CacheErrorView::DatabaseError(unavailable_message()))
        }
    }
}

} // verus!
