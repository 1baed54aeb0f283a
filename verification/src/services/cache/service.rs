//! The cache manager: read-through, write-through, promotion, invalidation,
//! cleanup and compute-on-miss over both tiers.

use vstd::prelude::*;
use crate::services::cache::entry::{
    after_insert, after_lookup, has_key, index_of, is_oldest, lookup_value, must_evict,
    oldest_index, EntryView,
};
use crate::utils::text::is_substring;
use crate::services::cache::error::{payload_view, plain_view, CacheError, CacheErrorView};
use crate::services::cache::memory::MemoryTier;
use crate::services::cache::model::{
    activity_seed, analytics_seed, CacheView, HotKeyView, ACTIVITY_TTL_MS, ANALYTICS_TTL_MS,
    MAX_TTL_MS,
};
use crate::services::cache::persistent::{after_upsert, PersistentTier, RecordView};
use crate::services::cache::policy::{collected, counted, found, promote, settled, written};
use crate::services::cache::stats::CacheStats;
use crate::utils::clock::{now_millis, MAX_TIMESTAMP_MS};

verus! {

/// A key that is kept warm, with the lifetime its value is stored for, in
/// milliseconds.
#[derive(Debug, PartialEq, Eq)]
pub struct HotKey {
    pub key: String,
    pub ttl: u64,
}

impl View for HotKey {
    type V = HotKeyView;

    open spec fn view(&self) -> HotKeyView {
        HotKeyView { key: self.key@, ttl: self.ttl as nat }
    }
}

/// The keys of `hot` with their lifetimes, by their views.
pub open spec fn hot_views(hot: Seq<HotKey>) -> Seq<HotKeyView> {
    hot.map_values(|h: HotKey| h@)
}

/// The outcomes of computations, by their views.
pub open spec fn outcome_views(outcomes: Seq<Result<String, CacheError>>) -> Seq<
    Result<Seq<char>, CacheErrorView>,
> {
    outcomes.map_values(|o: Result<String, CacheError>| payload_view(o))
}

/// `outcome` is something that `compute` can yield for `key`.
pub open spec fn computed_by<F: Fn(&str) -> Result<String, CacheError>>(
    compute: F,
    key: Seq<char>,
    outcome: Result<String, CacheError>,
) -> bool {
    exists|k: &str| k@ == key && #[trigger] compute.ensures((k,), outcome)
}

/// A warming that went from state to state, key by key, ends where
/// `after_warming` says.
proof fn lemma_warming_trace(
    start: CacheView,
    keys: Seq<HotKeyView>,
    outcomes: Seq<Result<Seq<char>, CacheErrorView>>,
    states: Seq<CacheView>,
    now: nat,
    upto: int,
)
    requires
        outcomes.len() == keys.len(),
        states.len() == keys.len() + 1,
        states[0] == start,
        forall|j: int|
            1 <= j <= keys.len() ==> #[trigger] states[j] == states[j - 1].after_get_or_compute(
                keys[j - 1].key,
                keys[j - 1].ttl,
                outcomes[j - 1],
                now,
                now,
            ),
        0 <= upto <= keys.len(),
    ensures
        states[upto] == start.after_warming(keys.take(upto), outcomes.take(upto), now),
    decreases upto,
{
    if upto > 0 {
        lemma_warming_trace(start, keys, outcomes, states, now, upto - 1);
        assert(keys.take(upto).drop_last() =~= keys.take(upto - 1));
        assert(outcomes.take(upto).drop_last() =~= outcomes.take(upto - 1));
        assert(keys.take(upto).last() == keys[upto - 1]);
        assert(outcomes.take(upto).last() == outcomes[upto - 1]);
    }
}

/// A warming that went from state to state, key by key, with each
/// computation accounted for, is the warming that `warm_at` promises.
proof fn lemma_warmed<F: Fn(&str) -> Result<String, CacheError>>(
    start: CacheView,
    hot: Seq<HotKey>,
    compute: F,
    outcomes: Seq<Result<String, CacheError>>,
    states: Seq<CacheView>,
    now: nat,
)
    requires
        outcomes.len() == hot.len(),
        states.len() == hot.len() + 1,
        states[0] == start,
        forall|j: int|
            1 <= j <= hot.len() ==> #[trigger] states[j] == states[j - 1].after_get_or_compute(
                hot_views(hot)[j - 1].key,
                hot_views(hot)[j - 1].ttl,
                payload_view(outcomes[j - 1]),
                now,
                now,
            ),
        forall|j: int|
            0 <= j < hot.len() && (#[trigger] states[j]).get_result(hot_views(hot)[j].key, now)
                is None ==> computed_by(compute, hot_views(hot)[j].key, outcomes[j]),
    ensures
        states[hot.len() as int] == start.after_warming(
            hot_views(hot),
            outcome_views(outcomes),
            now,
        ),
        forall|i: int|
            0 <= i < hot.len() && start.after_warming(
                hot_views(hot).take(i),
                outcome_views(outcomes).take(i),
                now,
            ).get_result(hot[i].key@, now) is None ==> computed_by(
                compute,
                hot[i].key@,
                #[trigger] outcomes[i],
            ),
{
    let keys = hot_views(hot);
    let views = outcome_views(outcomes);
    assert forall|j: int| 1 <= j <= keys.len() implies #[trigger] states[j] == states[j
        - 1].after_get_or_compute(keys[j - 1].key, keys[j - 1].ttl, views[j - 1], now, now) by {
        assert(views[j - 1] == payload_view(outcomes[j - 1]));
    }
    assert forall|j: int| 0 <= j <= hot.len() implies #[trigger] states[j] == start.after_warming(
        keys.take(j),
        views.take(j),
        now,
    ) by {
        lemma_warming_trace(start, keys, views, states, now, j);
    }
    assert(keys.take(hot.len() as int) =~= keys);
    assert(views.take(hot.len() as int) =~= views);
    assert forall|i: int|
        0 <= i < hot.len() && start.after_warming(keys.take(i), views.take(i), now).get_result(
            hot[i].key@,
            now,
        ) is None implies computed_by(compute, hot[i].key@, #[trigger] outcomes[i]) by {
        assert(states[i] == start.after_warming(keys.take(i), views.take(i), now));
        assert(keys[i].key == hot[i].key@);
    }
}

/// The two tiers under one roof.  The tiers are not coupled: each can be
/// reached on its own, and a write that one tier refuses stays in the other.
pub struct CacheService {
    pub memory: MemoryTier,
    pub store: PersistentTier,
}

impl View for CacheService {
    type V = CacheView;

    open spec fn view(&self) -> CacheView {
        CacheView {
            memory: self.memory@,
            capacity: self.memory.spec_capacity(),
            store: self.store@,
            store_available: self.store.spec_available(),
        }
    }
}

impl CacheService {
    /// Both tiers are well formed.
    pub open spec fn wf(&self) -> bool {
        self.memory.wf() && self.store.wf()
    }

    /// A cache with two empty tiers whose memory tier holds at most
    /// `max_memory_entries` entries.
    pub fn new(max_memory_entries: usize) -> (cache: CacheService)
        ensures
            cache.wf(),
            cache@ == (CacheView {
                memory: Seq::empty(),
                capacity: max_memory_entries as nat,
                store: Seq::empty(),
                store_available: true,
            }),
    {
        CacheService { memory: MemoryTier::new(max_memory_entries), store: PersistentTier::new() }
    }

    /// Reads `key` from the memory tier alone.
    pub fn get_from_memory(&mut self, key: &str, now: u64) -> (r: Result<String, CacheError>)
        requires
            old(self).wf(),
        ensures
            final(self).wf(),
            final(self)@ == (CacheView {
                memory: after_lookup(old(self)@.memory, key@, now as nat),
                ..old(self)@
            }),
            payload_view(r) == match lookup_value(old(self)@.memory, key@, now as nat) {
                Some(v) => Ok::<Seq<char>, CacheErrorView>(v),
                None => Err::<Seq<char>, CacheErrorView>(CacheErrorView::NotFound),
            },
    {
        match self.memory.lookup(key, now) {
            Some(v) => Ok(v),
            None => Err(CacheError::NotFound),
        }
    }

    /// Writes `key` to the memory tier alone.
    pub fn store_in_memory(&mut self, key: &str, value: &str, ttl: u64, now: u64)
        requires
            old(self).wf(),
            0 < ttl <= MAX_TTL_MS,
            now <= MAX_TIMESTAMP_MS,
        ensures
            final(self).wf(),
            final(self)@ == (CacheView {
                memory: after_insert(
                    old(self)@.memory,
                    old(self)@.capacity,
                    EntryView::fresh(key@, value@, ttl as nat, now as nat),
                ),
                ..old(self)@
            }),
            final(self)@.memory.len() <= final(self)@.capacity,
            final(self)@.capacity >= 1 ==> lookup_value(final(self)@.memory, key@, now as nat)
                == Some(value@),
            must_evict(old(self)@.memory, old(self)@.capacity, key@) ==> is_oldest(
                old(self)@.memory,
                oldest_index(old(self)@.memory),
            ) && final(self)@.memory == old(self)@.memory.remove(
                oldest_index(old(self)@.memory),
            ).push(EntryView::fresh(key@, value@, ttl as nat, now as nat)),
    {
        self.memory.insert(key, value, ttl, now);
    }

    /// Reads `key` from the persistent tier alone.  A failed read is a miss.
    pub fn get_from_database(&self, key: &str, now: u64) -> (r: Result<String, CacheError>)
        requires
            self.wf(),
        ensures
            payload_view(r) == match self@.store_read(key@, now as nat) {
                Some(v) => Ok::<Seq<char>, CacheErrorView>(v),
                None => Err::<Seq<char>, CacheErrorView>(CacheErrorView::NotFound),
            },
    {
        found(self.store.get(key, now))
    }

    /// Writes `key` to the persistent tier alone, to expire `ttl` after `now`.
    pub fn store_in_database(&mut self, key: &str, value: &str, ttl: u64, now: u64) -> (r: Result<
        (),
        CacheError,
    >)
        requires
            old(self).wf(),
            0 < ttl <= MAX_TTL_MS,
            now <= MAX_TIMESTAMP_MS,
        ensures
            final(self).wf(),
            final(self)@ == (CacheView {
                store: if old(self)@.store_available {
                    after_upsert(
                        old(self)@.store,
                        RecordView { key: key@, value: value@, expires_at: (now + ttl) as nat },
                    )
                } else {
                    old(self)@.store
                },
                ..old(self)@
            }),
            plain_view(r) == old(self)@.write_result(),
    {
        written(self.store.upsert(key, value, now + ttl))
    }

    /// Reads `key` at time `now`: from the memory tier if it has a live entry,
    /// else from the persistent tier, whose value is then promoted into the
    /// memory tier for `PROMOTION_TTL_MS`.
    pub fn get_at(&mut self, key: &str, now: u64) -> (r: Result<String, CacheError>)
        requires
            old(self).wf(),
            now <= MAX_TIMESTAMP_MS,
        ensures
            final(self).wf(),
            final(self)@ == old(self)@.after_get(key@, now as nat),
            payload_view(r) == old(self)@.get_outcome(key@, now as nat),
    {
        match self.get_from_memory(key, now) {
            Ok(v) => Ok(v),
            Err(_) => {
                let fetched = self.store.get(key, now);
                promote(&mut self.memory, key, fetched, now)
            },
        }
    }

    /// Writes `value` under `key` to both tiers at time `now`, to expire
    /// `ttl` milliseconds later.  The memory tier is written first and keeps
    /// the entry even if the persistent tier then fails.
    pub fn set_at(&mut self, key: &str, value: &str, ttl: u64, now: u64) -> (r: Result<
        (),
        CacheError,
    >)
        requires
            old(self).wf(),
            0 < ttl <= MAX_TTL_MS,
            now <= MAX_TIMESTAMP_MS,
        ensures
            final(self).wf(),
            final(self)@ == old(self)@.after_set(key@, value@, ttl as nat, now as nat),
            plain_view(r) == old(self)@.write_result(),
    {
        self.store_in_memory(key, value, ttl, now);
        self.store_in_database(key, value, ttl, now)
    }

    /// Ends a computation that a miss had started: a computed value is
    /// written to both tiers and handed on, unless the write fails; a failed
    /// computation changes nothing and its error is handed on.
    pub fn complete_compute(
        &mut self,
        key: &str,
        ttl: u64,
        outcome: Result<String, CacheError>,
        now: u64,
    ) -> (r: Result<String, CacheError>)
        requires
            old(self).wf(),
            0 < ttl <= MAX_TTL_MS,
            now <= MAX_TIMESTAMP_MS,
        ensures
            final(self).wf(),
            final(self)@ == old(self)@.after_compute(
                key@,
                ttl as nat,
                payload_view(outcome),
                now as nat,
            ),
            payload_view(r) == old(self)@.compute_result(payload_view(outcome)),
    {
        match outcome {
            Ok(v) => {
                let write = self.set_at(key, v.as_str(), ttl, now);
                settled(Ok(v), write)
            },
            Err(e) => Err(e),
        }
    }

    /// Reads `key` at time `now` and, on a miss in both tiers, runs `compute`
    /// once and stores what it yields for `ttl` milliseconds.
    pub fn get_or_compute_at<F: FnOnce() -> Result<String, CacheError>>(
        &mut self,
        key: &str,
        ttl: u64,
        compute: F,
        now: u64,
    ) -> (r: Result<String, CacheError>)
        requires
            old(self).wf(),
            0 < ttl <= MAX_TTL_MS,
            now <= MAX_TIMESTAMP_MS,
            compute.requires(()),
        ensures
            final(self).wf(),
            old(self)@.get_result(key@, now as nat) matches Some(v) ==> final(self)@ == old(
                self,
            )@.after_get(key@, now as nat) && payload_view(r) == Ok::<Seq<char>, CacheErrorView>(v),
            old(self)@.get_result(key@, now as nat) is None ==> exists|
                outcome: Result<String, CacheError>,
            |
                #[trigger] compute.ensures((), outcome) && final(self)@ == old(
                    self,
                )@.after_get_or_compute(
                    key@,
                    ttl as nat,
                    payload_view(outcome),
                    now as nat,
                    now as nat,
                ) && payload_view(r) == old(self)@.get_or_compute_result(
                    key@,
                    payload_view(outcome),
                    now as nat,
                ),
    {
        match self.get_at(key, now) {
            Ok(v) => Ok(v),
            Err(_) => {
                let outcome = compute();
                let ghost witness = outcome;
                let r = self.complete_compute(key, ttl, outcome, now);
                assert(compute.ensures((), witness));
                r
            },
        }
    }

    /// Removes `key` from both tiers.
    pub fn invalidate(&mut self, key: &str) -> (r: Result<(), CacheError>)
        requires
            old(self).wf(),
        ensures
            final(self).wf(),
            final(self)@ == old(self)@.after_invalidate(key@),
            plain_view(r) == old(self)@.write_result(),
    {
        self.memory.remove(key);
        written(self.store.delete(key))
    }

    /// Removes from the memory tier every key that contains `pattern`, and
    /// from the persistent tier every key that its wildcard search for
    /// `pattern` matches.  Returns how many left, a key held by both tiers
    /// counted twice.
    pub fn invalidate_pattern(&mut self, pattern: &str) -> (r: Result<usize, CacheError>)
        requires
            old(self).wf(),
            old(self)@.memory.len() + old(self)@.store.len() <= usize::MAX,
        ensures
            final(self).wf(),
            final(self)@ == old(self)@.after_invalidate_pattern(pattern@),
            match old(self)@.invalidated(pattern@) {
                Ok(n) => plain_view(r) == Ok::<usize, CacheErrorView>(n as usize),
                Err(e) => plain_view(r) == Err::<usize, CacheErrorView>(e),
            },
            forall|k: Seq<char>|
                has_key(final(self)@.memory, k) <==> #[trigger] has_key(old(self)@.memory, k)
                    && !is_substring(k, pattern@),
            forall|k: Seq<char>| #[trigger]
                has_key(final(self)@.memory, k) ==> final(self)@.memory[index_of(
                    final(self)@.memory,
                    k,
                )] == old(self)@.memory[index_of(old(self)@.memory, k)],
    {
        let from_memory = self.memory.remove_matching(pattern);
        let reply = self.store.delete_matching(pattern);
        counted(from_memory, reply)
    }

    /// Removes from both tiers what has expired by `now` and returns how many
    /// entries and rows that were.
    pub fn cleanup_expired_at(&mut self, now: u64) -> (r: Result<usize, CacheError>)
        requires
            old(self).wf(),
            old(self)@.memory.len() + old(self)@.store.len() <= usize::MAX,
        ensures
            final(self).wf(),
            final(self)@ == old(self)@.after_cleanup(now as nat),
            match old(self)@.cleaned(now as nat) {
                Ok(n) => plain_view(r) == Ok::<usize, CacheErrorView>(n as usize),
                Err(e) => plain_view(r) == Err::<usize, CacheErrorView>(e),
            },
    {
        let from_memory = self.memory.sweep_expired(now);
        let reply = self.store.sweep_expired(now);
        counted(from_memory, reply)
    }

    /// The metrics of the cache at `now`.
    pub fn get_stats_at(&self, now: u64) -> (r: Result<CacheStats, CacheError>)
        requires
            self.wf(),
            self@.memory.len() + self@.store.len() <= usize::MAX,
        ensures
            plain_view(r) == self@.stats(now as nat),
    {
        let memory_keys = self.memory.len();
        let memory_hits = self.memory.total_hits();
        let reply = self.store.stats(now);
        collected(memory_keys, memory_hits, reply)
    }

    /// Warms the keys of `hot` in their order at time `now`: each is read
    /// and, where both tiers miss it, computed by `compute` and stored for its
    /// lifetime.  A key whose computation or write-back fails is passed over.
    pub fn warm_at<F: Fn(&str) -> Result<String, CacheError>>(
        &mut self,
        hot: &Vec<HotKey>,
        compute: F,
        now: u64,
    ) -> (r: Result<(), CacheError>)
        requires
            old(self).wf(),
            now <= MAX_TIMESTAMP_MS,
            forall|i: int| 0 <= i < hot@.len() ==> 0 < (#[trigger] hot@[i]).ttl <= MAX_TTL_MS,
            forall|key: &str| #[trigger] compute.requires((key,)),
        ensures
            final(self).wf(),
            r is Ok,
            exists|outcomes: Seq<Result<String, CacheError>>|
                outcomes.len() == hot@.len() && final(self)@ == #[trigger] old(
                    self,
                )@.after_warming(hot_views(hot@), outcome_views(outcomes), now as nat) && forall|
                    i: int,
                |
                    0 <= i < hot@.len() && old(self)@.after_warming(
                        hot_views(hot@).take(i),
                        outcome_views(outcomes).take(i),
                        now as nat,
                    ).get_result(hot@[i].key@, now as nat) is None ==> computed_by(
                        compute,
                        hot@[i].key@,
                        #[trigger] outcomes[i],
                    ),
    {
        let ghost keys = hot_views(hot@);
        let ghost mut outcomes: Seq<Result<String, CacheError>> = Seq::empty();
        let ghost mut states: Seq<CacheView> = seq![self@];
        let mut i: usize = 0;
        while i < hot.len()
            invariant
                self.wf(),
                now <= MAX_TIMESTAMP_MS,
                i <= hot@.len(),
                keys == hot_views(hot@),
                forall|j: int| 0 <= j < hot@.len() ==> 0 < (#[trigger] hot@[j]).ttl <= MAX_TTL_MS,
                forall|key: &str| #[trigger] compute.requires((key,)),
                outcomes.len() == i,
                states.len() == i + 1,
                states[0] == old(self)@,
                states[i as int] == self@,
                forall|j: int|
                    1 <= j <= i ==> #[trigger] states[j] == states[j - 1].after_get_or_compute(
                        keys[j - 1].key,
                        keys[j - 1].ttl,
                        payload_view(outcomes[j - 1]),
                        now as nat,
                        now as nat,
                    ),
                forall|j: int|
                    0 <= j < i && (#[trigger] states[j]).get_result(keys[j].key, now as nat)
                        is None ==> computed_by(compute, keys[j].key, outcomes[j]),
            decreases hot@.len() - i,
        {
            let key = hot[i].key.as_str();
            let ttl = hot[i].ttl;
            assert(keys[i as int] == hot@[i as int]@);
            match self.get_at(key, now) {
                Ok(_) => {
                    proof {
                        outcomes = outcomes.push(Err(CacheError::NotFound));
                    }
                },
                Err(_) => {
                    let outcome = compute(key);
                    proof {
                        outcomes = outcomes.push(outcome);
                        assert(computed_by(compute, keys[i as int].key, outcome));
                    }
                    let _ = self.complete_compute(key, ttl, outcome, now);
                },
            }
            proof {
                states = states.push(self@);
            }
            i += 1;
        }
        proof {
            lemma_warmed(old(self)@, hot@, compute, outcomes, states, now as nat);
        }
        Ok(())
    }

    /// Seeds the two hot keys at time `now`: each is read and, where both
    /// tiers miss it, stored with its placeholder payload.  A failure of the
    /// persistent tier does not stop the warming.
    pub fn warm_cache_at(&mut self, now: u64) -> (r: Result<(), CacheError>)
        requires
            old(self).wf(),
            now <= MAX_TIMESTAMP_MS,
        ensures
            final(self).wf(),
            final(self)@ == old(self)@.after_warm(now as nat),
            r is Ok,
    {
        let _ = self.get_or_compute_at(
            "analytics_summary",
            ANALYTICS_TTL_MS,
            analytics_placeholder,
            now,
        );
        let _ = self.get_or_compute_at(
            "activity_patterns",
            ACTIVITY_TTL_MS,
            activity_placeholder,
            now,
        );
        Ok(())
    }

    /// `get_at` at the present time.
    pub fn get(&mut self, key: &str) -> (r: Result<String, CacheError>)
        requires
            old(self).wf(),
        ensures
            final(self).wf(),
            exists|now: nat|
                now <= MAX_TIMESTAMP_MS && final(self)@ == #[trigger] old(self)@.after_get(
                    key@,
                    now,
                ) && payload_view(r) == old(self)@.get_outcome(key@, now),
    {
        let now = now_millis();
        let r = self.get_at(key, now);
        assert(self@ == old(self)@.after_get(key@, now as nat));
        r
    }

    /// `set_at` at the present time.
    pub fn set(&mut self, key: &str, value: &str, ttl: u64) -> (r: Result<(), CacheError>)
        requires
            old(self).wf(),
            0 < ttl <= MAX_TTL_MS,
        ensures
            final(self).wf(),
            plain_view(r) == old(self)@.write_result(),
            exists|now: nat|
                now <= MAX_TIMESTAMP_MS && final(self)@ == #[trigger] old(self)@.after_set(
                    key@,
                    value@,
                    ttl as nat,
                    now,
                ),
    {
        let now = now_millis();
        let r = self.set_at(key, value, ttl, now);
        assert(self@ == old(self)@.after_set(key@, value@, ttl as nat, now as nat));
        r
    }

    /// Reads `key` at the present time and, on a miss in both tiers, runs
    /// `compute` once and stores what it yields for `ttl` milliseconds from
    /// the time at which it ended.
    pub fn get_or_compute<F: FnOnce() -> Result<String, CacheError>>(
        &mut self,
        key: &str,
        ttl: u64,
        compute: F,
    ) -> (r: Result<String, CacheError>)
        requires
            old(self).wf(),
            0 < ttl <= MAX_TTL_MS,
            compute.requires(()),
        ensures
            final(self).wf(),
            exists|looked_at: nat, stored_at: nat, outcome: Result<String, CacheError>|
                looked_at <= MAX_TIMESTAMP_MS && stored_at <= MAX_TIMESTAMP_MS && (old(
                    self,
                )@.get_result(key@, looked_at) is None ==> compute.ensures((), outcome))
                    && final(self)@ == #[trigger] old(self)@.after_get_or_compute(
                    key@,
                    ttl as nat,
                    payload_view(outcome),
                    looked_at,
                    stored_at,
                ) && payload_view(r) == old(self)@.get_or_compute_result(
                    key@,
                    payload_view(outcome),
                    looked_at,
                ),
    {
        let looked_at = now_millis();
        match self.get_at(key, looked_at) {
            Ok(v) => {
                let ghost unused = Err::<String, CacheError>(CacheError::NotFound);
                assert(self@ == old(self)@.after_get_or_compute(
                    key@,
                    ttl as nat,
                    payload_view(unused),
                    looked_at as nat,
                    looked_at as nat,
                ));
                Ok(v)
            },
            Err(_) => {
                let outcome = compute();
                let ghost witness = outcome;
                let stored_at = now_millis();
                let r = self.complete_compute(key, ttl, outcome, stored_at);
                assert(self@ == old(self)@.after_get_or_compute(
                    key@,
                    ttl as nat,
                    payload_view(witness),
                    looked_at as nat,
                    stored_at as nat,
                ));
                r
            },
        }
    }

    /// `warm_at` at the present time.
    pub fn warm<F: Fn(&str) -> Result<String, CacheError>>(
        &mut self,
        hot: &Vec<HotKey>,
        compute: F,
    ) -> (r: Result<(), CacheError>)
        requires
            old(self).wf(),
            forall|i: int| 0 <= i < hot@.len() ==> 0 < (#[trigger] hot@[i]).ttl <= MAX_TTL_MS,
            forall|key: &str| #[trigger] compute.requires((key,)),
        ensures
            final(self).wf(),
            r is Ok,
            exists|now: nat, outcomes: Seq<Result<String, CacheError>>|
                now <= MAX_TIMESTAMP_MS && outcomes.len() == hot@.len() && final(self)@
                    == #[trigger] old(self)@.after_warming(
                    hot_views(hot@),
                    outcome_views(outcomes),
                    now,
                ) && forall|i: int|
                    0 <= i < hot@.len() && old(self)@.after_warming(
                        hot_views(hot@).take(i),
                        outcome_views(outcomes).take(i),
                        now,
                    ).get_result(hot@[i].key@, now) is None ==> computed_by(
                        compute,
                        hot@[i].key@,
                        #[trigger] outcomes[i],
                    ),
    {
        let now = now_millis();
        self.warm_at(hot, compute, now)
    }

    /// `cleanup_expired_at` at the present time.
    pub fn cleanup_expired(&mut self) -> (r: Result<usize, CacheError>)
        requires
            old(self).wf(),
            old(self)@.memory.len() + old(self)@.store.len() <= usize::MAX,
        ensures
            final(self).wf(),
            exists|now: nat|
                now <= MAX_TIMESTAMP_MS && final(self)@ == #[trigger] old(self)@.after_cleanup(now)
                    && match old(self)@.cleaned(now) {
                    Ok(n) => plain_view(r) == Ok::<usize, CacheErrorView>(n as usize),
                    Err(e) => plain_view(r) == Err::<usize, CacheErrorView>(e),
                },
    {
        let now = now_millis();
        let r = self.cleanup_expired_at(now);
        assert(self@ == old(self)@.after_cleanup(now as nat));
        r
    }

    /// `get_stats_at` at the present time.
    pub fn get_stats(&self) -> (r: Result<CacheStats, CacheError>)
        requires
            self.wf(),
            self@.memory.len() + self@.store.len() <= usize::MAX,
        ensures
            exists|now: nat| now <= MAX_TIMESTAMP_MS && plain_view(r) == #[trigger] self@.stats(now),
    {
        let now = now_millis();
        let r = self.get_stats_at(now);
        assert(plain_view(r) == self@.stats(now as nat));
        r
    }

    /// `warm_cache_at` at the present time.
    pub fn warm_cache(&mut self) -> (r: Result<(), CacheError>)
        requires
            old(self).wf(),
        ensures
            final(self).wf(),
            r is Ok,
            exists|now: nat|
                now <= MAX_TIMESTAMP_MS && final(self)@ == #[trigger] old(self)@.after_warm(now),
    {
        let now = now_millis();
        let r = self.warm_cache_at(now);
        assert(self@ == old(self)@.after_warm(now as nat));
        r
    }
}

/// The payload that stands in for the analytics summary until one is computed.
pub fn analytics_placeholder() -> (r: Result<String, CacheError>)
    ensures
        payload_view(r) == Ok::<Seq<char>, CacheErrorView>(analytics_seed()),
{
    Ok("{\"cached\":true,\"total_applications\":0,\"total_students\":0}".to_owned())
}

/// The payload that stands in for the activity patterns until they are computed.
pub fn activity_placeholder() -> (r: Result<String, CacheError>)
    ensures
        payload_view(r) == Ok::<Seq<char>, CacheErrorView>(activity_seed()),
{
    Ok("{\"cached\":true,\"patterns\":[]}".to_owned())
}

} // verus!
