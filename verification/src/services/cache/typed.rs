//! A view of the cache for one kind of value: every key carries the kind's
//! prefix and every write the kind's lifetime.

use vstd::prelude::*;
use vstd::string::StringExecFns;
use crate::services::cache::error::{payload_view, plain_view, CacheError, CacheErrorView};
use crate::services::cache::model::MAX_TTL_MS;
use crate::services::cache::service::CacheService;
use crate::utils::clock::MAX_TIMESTAMP_MS;

verus! {

/// How entries of a kind are meant to leave the cache.  Lifetimes and delays
/// are in milliseconds.
#[derive(Debug, Clone, Copy, PartialEq, Eq)]
pub enum InvalidationStrategy {
    TimeToLive(u64),
    WriteThrough,
    WriteBehind(u64),
    Manual,
}

/// The cache key of the value with identifier `id` among those that carry
/// `prefix`: prefix, colon, identifier.
pub open spec fn prefixed(prefix: Seq<char>, id: Seq<char>) -> Seq<char> {
    prefix + ":"@ + id
}

/// Builds the cache key of the value with identifier `id` among those that
/// carry `prefix`.
pub fn prefixed_key(prefix: &str, id: &str) -> (key: String)
    ensures
        key@ == prefixed(prefix@, id@),
{
    let mut key = prefix.to_owned();
    key.append(":");
    key.append(id);
    key
}

/// Prefix and lifetime of one kind of cached value.
pub struct TypedCache {
    key_prefix: String,
    default_ttl: u64,
}

impl TypedCache {
    #[verifier::type_invariant]
    spec fn valid(self) -> bool {
        0 < self.default_ttl <= MAX_TTL_MS
    }

    /// The prefix of every key of this kind.
    pub closed spec fn spec_prefix(&self) -> Seq<char> {
        self.key_prefix@
    }

    /// The lifetime of every write of this kind, in milliseconds.
    pub closed spec fn spec_ttl(&self) -> nat {
        self.default_ttl as nat
    }

    /// The cache key of the value with identifier `id`.
    pub open spec fn key_of(&self, id: Seq<char>) -> Seq<char> {
        prefixed(self.spec_prefix(), id)
    }

    /// A kind with the given prefix whose values live `default_ttl`
    /// milliseconds.
    pub fn new(key_prefix: String, default_ttl: u64) -> (kind: TypedCache)
        requires
            0 < default_ttl <= MAX_TTL_MS,
        ensures
            kind.spec_prefix() == key_prefix@,
            kind.spec_ttl() == default_ttl,
    {
        TypedCache { key_prefix, default_ttl }
    }

    /// The cache key of the value with identifier `id`.
    pub fn key_for(&self, id: &str) -> (key: String)
        ensures
            key@ == self.key_of(id@),
    {
        prefixed_key(self.key_prefix.as_str(), id)
    }

    /// Reads the value with identifier `id`.
    pub fn get(&self, cache: &mut CacheService, id: &str) -> (r: Result<String, CacheError>)
        requires
            old(cache).wf(),
        ensures
            final(cache).wf(),
            exists|now: nat|
                now <= MAX_TIMESTAMP_MS && final(cache)@ == #[trigger] old(cache)@.after_get(
                    self.key_of(id@),
                    now,
                ) && payload_view(r) == old(cache)@.get_outcome(self.key_of(id@), now),
    {
        let key = self.key_for(id);
        cache.get(key.as_str())
    }

    /// Writes the value with identifier `id` for the kind's lifetime.
    pub fn set(&self, cache: &mut CacheService, id: &str, value: &str) -> (r: Result<
        (),
        CacheError,
    >)
        requires
            old(cache).wf(),
        ensures
            final(cache).wf(),
            plain_view(r) == old(cache)@.write_result(),
            exists|now: nat|
                now <= MAX_TIMESTAMP_MS && final(cache)@ == #[trigger] old(cache)@.after_set(
                    self.key_of(id@),
                    value@,
                    self.spec_ttl(),
                    now,
                ),
    {
        proof {
            use_type_invariant(self);
            assert(self.spec_ttl() == self.default_ttl as nat);
        }
        let key = self.key_for(id);
        cache.set(key.as_str(), value, self.default_ttl)
    }

    /// Reads the value with identifier `id` and, on a miss in both tiers,
    /// runs `compute` once and stores what it yields for the kind's lifetime.
    pub fn get_or_compute<F: FnOnce() -> Result<String, CacheError>>(
        &self,
        cache: &mut CacheService,
        id: &str,
        compute: F,
    ) -> (r: Result<String, CacheError>)
        requires
            old(cache).wf(),
            compute.requires(()),
        ensures
            final(cache).wf(),
            exists|looked_at: nat, stored_at: nat, outcome: Result<String, CacheError>|
                looked_at <= MAX_TIMESTAMP_MS && stored_at <= MAX_TIMESTAMP_MS && (old(
                    cache,
                )@.get_result(self.key_of(id@), looked_at) is None ==> compute.ensures(
                    (),
                    outcome,
                )) && final(cache)@ == #[trigger] old(cache)@.after_get_or_compute(
                    self.key_of(id@),
                    self.spec_ttl(),
                    payload_view(outcome),
                    looked_at,
                    stored_at,
                ) && payload_view(r) == old(cache)@.get_or_compute_result(
                    self.key_of(id@),
                    payload_view(outcome),
                    looked_at,
                ),
    {
        proof {
            use_type_invariant(self);
            assert(self.spec_ttl() == self.default_ttl as nat);
        }
        let key = self.key_for(id);
        cache.get_or_compute(key.as_str(), self.default_ttl, compute)
    }

    /// Removes the value with identifier `id` from both tiers.
    pub fn invalidate(&self, cache: &mut CacheService, id: &str) -> (r: Result<(), CacheError>)
        requires
            old(cache).wf(),
        ensures
            final(cache).wf(),
            final(cache)@ == old(cache)@.after_invalidate(self.key_of(id@)),
            plain_view(r) == old(cache)@.write_result(),
    {
        let key = self.key_for(id);
        cache.invalidate(key.as_str())
    }

    /// Removes every key that carries the prefix anywhere in it, as
    /// `invalidate_pattern` does for the prefix.
    pub fn invalidate_all(&self, cache: &mut CacheService) -> (r: Result<usize, CacheError>)
        requires
            old(cache).wf(),
            old(cache)@.memory.len() + old(cache)@.store.len() <= usize::MAX,
        ensures
            final(cache).wf(),
            final(cache)@ == old(cache)@.after_invalidate_pattern(self.spec_prefix()),
            match old(cache)@.invalidated(self.spec_prefix()) {
                Ok(n) => plain_view(r) == Ok::<usize, CacheErrorView>(n as usize),
                Err(e) => plain_view(r) == Err::<usize, CacheErrorView>(e),
            },
    {
        cache.invalidate_pattern(self.key_prefix.as_str())
    }
}

} // verus!
