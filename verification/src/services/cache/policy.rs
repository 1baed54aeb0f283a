//! The decisions of the cache that follow an answer of the persistent tier.
//! They perform no I/O: whoever talks to the store hands the answer in.

use vstd::prelude::*;
use crate::services::cache::entry::{after_insert, after_remove, EntryView};
use crate::services::cache::error::{plain_view, CacheError, CacheErrorView};
use crate::services::cache::memory::MemoryTier;
use crate::services::cache::model::PROMOTION_TTL_MS;
use crate::services::cache::persistent::StoreError;
use crate::services::cache::stats::{CacheStats, MEMORY_RETRIEVAL_MICROS};
use crate::utils::clock::MAX_TIMESTAMP_MS;

verus! {

/// The answer of a read as the cache takes it: a record that is missing and a
/// read that failed are both a miss.
pub fn found(fetched: Result<Option<String>, StoreError>) -> (r: Result<String, CacheError>)
    ensures
        match fetched {
            Ok(Some(v)) => r == Ok::<String, CacheError>(v),
            _ => r == Err::<String, CacheError>(CacheError::NotFound),
        },
{
    match fetched {
        Ok(Some(v)) => Ok(v),
        _ => Err(CacheError::NotFound),
    }
}

/// Finishes a read that missed the memory tier: a value that the persistent
/// tier returned is copied into the memory tier with the default lifetime
/// and handed on; otherwise the read is a miss.
pub fn promote(
    memory: &mut MemoryTier,
    key: &str,
    fetched: Result<Option<String>, StoreError>,
    now: u64,
) -> (r: Result<String, CacheError>)
    requires
        old(memory).wf(),
        now <= MAX_TIMESTAMP_MS,
    ensures
        final(memory).wf(),
        final(memory).spec_capacity() == old(memory).spec_capacity(),
        match fetched {
            Ok(Some(v)) => r == Ok::<String, CacheError>(v) && final(memory)@ == after_insert(
                old(memory)@,
                old(memory).spec_capacity(),
                EntryView::fresh(key@, v@, PROMOTION_TTL_MS as nat, now as nat),
            ),
            _ => r == Err::<String, CacheError>(CacheError::NotFound) && final(memory)@ == old(
                memory,
            )@,
        },
{
    match found(fetched) {
        Ok(v) => {
            memory.insert(key, v.as_str(), PROMOTION_TTL_MS, now);
            Ok(v)
        },
        Err(e) => Err(e),
    }
}

/// The time at which a write made at `now` for `ttl_ms` milliseconds expires.
/// A lifetime that is not positive gives a time that has passed; no time lies
/// before the epoch.
pub open spec fn spec_deadline(now: u64, ttl_ms: i64) -> int {
    if now + ttl_ms < 0 {
        0
    } else {
        now + ttl_ms
    }
}

/// The time at which a write made at `now` for `ttl_ms` milliseconds expires.
pub fn deadline(now: u64, ttl_ms: i64) -> (expires_at: u64)
    requires
        now <= MAX_TIMESTAMP_MS,
    ensures
        expires_at == spec_deadline(now, ttl_ms),
{
    if ttl_ms >= 0 {
        now + (ttl_ms as u64)
    } else {
        let back: u64 = ((-(ttl_ms + 1)) as u64) + 1;
        if back >= now {
            0
        } else {
            now - back
        }
    }
}

/// Writes to the memory tier what a write for `ttl_ms` milliseconds asks
/// for.  With a positive lifetime the entry is stored.  With any other the
/// entry would have expired at once, so whatever stood under the key leaves
/// and nothing takes its place.
pub fn remember(memory: &mut MemoryTier, key: &str, value: &str, ttl_ms: i64, now: u64)
    requires
        old(memory).wf(),
        now <= MAX_TIMESTAMP_MS,
    ensures
        final(memory).wf(),
        final(memory).spec_capacity() == old(memory).spec_capacity(),
        ttl_ms > 0 ==> final(memory)@ == after_insert(
            old(memory)@,
            old(memory).spec_capacity(),
            EntryView::fresh(key@, value@, ttl_ms as nat, now as nat),
        ),
        ttl_ms <= 0 ==> final(memory)@ == after_remove(old(memory)@, key@),
{
    if ttl_ms > 0 {
        memory.insert(key, value, ttl_ms as u64, now);
    } else {
        memory.remove(key);
    }
}

/// What the caller that ran a computation receives: the computed value if it
/// was written back, the failure of the write if it was not, and the failure
/// of the computation where there was nothing to write.
pub fn settled(outcome: Result<String, CacheError>, write: Result<(), CacheError>) -> (r: Result<
    String,
    CacheError,
>)
    ensures
        r == match outcome {
            Ok(v) => match write {
                Ok(_) => Ok::<String, CacheError>(v),
                Err(e) => Err::<String, CacheError>(e),
            },
            Err(e) => Err::<String, CacheError>(e),
        },
{
    match outcome {
        Ok(v) => match write {
            Ok(_) => Ok(v),
            Err(e) => Err(e),
        },
        Err(e) => Err(e),
    }
}

/// The answer of a write as the cache reports it: a failure surfaces with the
/// store's message.
pub fn written(reply: Result<(), StoreError>) -> (r: Result<(), CacheError>)
    ensures
        match reply {
            Ok(_) => r is Ok,
            Err(e) => plain_view(r) == Err::<(), CacheErrorView>(
                CacheErrorView::DatabaseError(e.message@),
            ),
        },
{
    match reply {
        Ok(_) => Ok(()),
        Err(e) => Err(CacheError::DatabaseError(e.message)),
    }
}

/// Adds what left the memory tier to what the persistent tier says it
/// removed; a failure of the store surfaces with its message.
pub fn counted(memory_removed: usize, reply: Result<usize, StoreError>) -> (r: Result<
    usize,
    CacheError,
>)
    requires
        reply matches Ok(n) ==> memory_removed + n <= usize::MAX,
    ensures
        match reply {
            Ok(n) => plain_view(r) == Ok::<usize, CacheErrorView>((memory_removed + n) as usize),
            Err(e) => plain_view(r) == Err::<usize, CacheErrorView>(
                CacheErrorView::DatabaseError(e.message@),
            ),
        },
{
    match reply {
        Ok(n) => Ok(memory_removed + n),
        Err(e) => Err(CacheError::DatabaseError(e.message)),
    }
}

/// Puts the metrics together from the size and hits of the memory tier and
/// the row counts `(total, expired)` of the persistent tier.
pub fn collected(memory_keys: usize, memory_hits: u128, reply: Result<(usize, usize), StoreError>) -> (r:
    Result<CacheStats, CacheError>)
    requires
        reply matches Ok(counts) ==> memory_keys + counts.0 <= usize::MAX,
    ensures
        match reply {
            Ok(counts) => plain_view(r) == Ok::<CacheStats, CacheErrorView>(
                CacheStats {
                    total_keys: (memory_keys + counts.0) as usize,
                    expired_keys: counts.1,
                    memory_usage_kib: memory_keys,
                    total_hits: memory_hits,
                    average_retrieval_micros: MEMORY_RETRIEVAL_MICROS,
                },
            ),
            Err(e) => plain_view(r) == Err::<CacheStats, CacheErrorView>(
                CacheErrorView::DatabaseError(e.message@),
            ),
        },
{
    match reply {
        Ok(counts) => Ok(
            CacheStats {
                total_keys: memory_keys + counts.0,
                expired_keys: counts.1,
                memory_usage_kib: memory_keys,
                total_hits: memory_hits,
                average_retrieval_micros: MEMORY_RETRIEVAL_MICROS,
            },
        ),
        Err(e) => Err(CacheError::DatabaseError(e.message)),
    }
}

} // verus!
