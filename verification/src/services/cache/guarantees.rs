//! What the cache guarantees, stated over its mathematical model and proved.

use vstd::prelude::*;
use crate::services::cache::entry::{
    after_insert, distinct_keys, has_key, index_of, is_oldest, lemma_index_of, lookup_value,
    must_evict, oldest_index, tier_wf, without_expired, without_matching, EntryView,
};
use crate::services::cache::error::CacheErrorView;
use crate::services::cache::model::CacheView;
use crate::services::cache::persistent::{
    after_upsert, has_record, lemma_record_index, live_records, record_index, stored_value,
    unique_keys, without_like, RecordView,
};
use crate::utils::sequences::{
    lemma_filter_keeps, lemma_filter_origin, lemma_filter_partition, lemma_filter_same,
};
use crate::utils::text::is_substring;
use crate::utils::wildcard::{is_plain, lemma_plain_like_is_substring, like_contains};

verus! {

/// A tier that holds anything has an oldest entry.
pub proof fn lemma_oldest_exists(s: Seq<EntryView>)
    requires
        s.len() > 0,
    ensures
        is_oldest(s, oldest_index(s)),
    decreases s.len(),
{
    if s.len() == 1 {
        assert(is_oldest(s, 0));
    } else {
        let front = s.drop_last();
        lemma_oldest_exists(front);
        let i = oldest_index(front);
        let n = s.len() - 1;
        assert(forall|j: int| 0 <= j < n ==> front[j] == s[j]);
        if s[n].created_at < s[i].created_at {
            assert forall|j: int| 0 <= j < n implies s[n].created_at < (#[trigger] s[j]).created_at by {
                assert(front[i].created_at <= front[j].created_at);
            }
            assert(is_oldest(s, n));
        } else {
            assert forall|j: int| 0 <= j < s.len() implies s[i].created_at <= (
            #[trigger] s[j]).created_at by {
                if j < n {
                    assert(front[i].created_at <= front[j].created_at);
                }
            }
            assert forall|j: int| 0 <= j < i implies s[i].created_at < (#[trigger] s[j]).created_at by {
                assert(front[i].created_at < front[j].created_at);
            }
            assert(is_oldest(s, i));
        }
    }
}

/// An insert leaves the tier well formed and, where the tier has room for
/// anything, with the new entry under its key.  A tier of capacity zero is
/// left empty.
pub proof fn lemma_insert(s: Seq<EntryView>, capacity: nat, entry: EntryView)
    requires
        tier_wf(s, capacity),
        entry.well_formed(),
    ensures
        tier_wf(after_insert(s, capacity, entry), capacity),
        capacity >= 1 ==> has_key(after_insert(s, capacity, entry), entry.key) && after_insert(
            s,
            capacity,
            entry,
        )[index_of(after_insert(s, capacity, entry), entry.key)] == entry,
        capacity == 0 ==> after_insert(s, capacity, entry) == s && s.len() == 0,
{
    let a = after_insert(s, capacity, entry);
    if has_key(s, entry.key) {
        let i = index_of(s, entry.key);
        assert(a[i] == entry);
        assert(distinct_keys(a));
        lemma_index_of(a, entry.key, i);
    } else if must_evict(s, capacity, entry.key) {
        lemma_oldest_exists(s);
        let v = oldest_index(s);
        let rest = s.remove(v);
        assert forall|i: int| 0 <= i < rest.len() implies (#[trigger] rest[i]).key != entry.key
            && rest[i].well_formed() by {
            if i < v {
                assert(rest[i] == s[i]);
            } else {
                assert(rest[i] == s[i + 1]);
            }
        }
        assert forall|i: int, j: int|
            0 <= i < rest.len() && 0 <= j < rest.len() && i != j implies (#[trigger] rest[i]).key
            != (#[trigger] rest[j]).key by {
            let oi = if i < v {
                i
            } else {
                i + 1
            };
            let oj = if j < v {
                j
            } else {
                j + 1
            };
            assert(rest[i] == s[oi]);
            assert(rest[j] == s[oj]);
        }
        assert(a[rest.len() as int] == entry);
        assert(distinct_keys(a));
        lemma_index_of(a, entry.key, rest.len() as int);
    } else if capacity >= 1 {
        assert(a[s.len() as int] == entry);
        assert(distinct_keys(a));
        lemma_index_of(a, entry.key, s.len() as int);
    }
}

/// An insert-or-replace leaves the key column unique, with the new record
/// under its key.
pub proof fn lemma_upsert(s: Seq<RecordView>, record: RecordView)
    requires
        unique_keys(s),
    ensures
        unique_keys(after_upsert(s, record)),
        has_record(after_upsert(s, record), record.key),
        after_upsert(s, record)[record_index(after_upsert(s, record), record.key)] == record,
{
    let a = after_upsert(s, record);
    if has_record(s, record.key) {
        let i = record_index(s, record.key);
        assert(a[i] == record);
        assert(unique_keys(a));
        lemma_record_index(a, record.key, i);
    } else {
        assert(a[s.len() as int] == record);
        assert(unique_keys(a));
        lemma_record_index(a, record.key, s.len() as int);
    }
}

/// Round trip: a value that was set is what a read returns, at any time
/// before the lifetime given to it has passed.  It is read from the memory
/// tier where that has room for anything, whether or not the persistent tier
/// took the write, and from the persistent tier otherwise.
pub proof fn lemma_round_trip(
    cache: CacheView,
    key: Seq<char>,
    value: Seq<char>,
    ttl: nat,
    now: nat,
    read_at: nat,
)
    requires
        cache.wf(),
        ttl > 0,
        now <= read_at < now + ttl,
        cache.capacity >= 1 || cache.store_available,
    ensures
        cache.after_set(key, value, ttl, now).get_result(key, read_at) == Some(value),
{
    lemma_insert(cache.memory, cache.capacity, EntryView::fresh(key, value, ttl, now));
    if cache.store_available {
        lemma_upsert(cache.store, RecordView { key, value, expires_at: now + ttl });
    }
}

/// Expiry: once the lifetime given to a value has passed, a read of its key
/// misses; and after the sweep that follows neither tier holds the key, so
/// that it adds nothing to the number of keys.  The persistent tier is taken
/// to serve requests throughout.
pub proof fn lemma_expiry(
    cache: CacheView,
    key: Seq<char>,
    value: Seq<char>,
    ttl: nat,
    now: nat,
    later: nat,
)
    requires
        cache.wf(),
        cache.store_available,
        ttl > 0,
        later >= now + ttl,
    ensures
        ({
            let written = cache.after_set(key, value, ttl, now);
            let read = written.after_get(key, later);
            let swept = read.after_cleanup(later);
            &&& written.get_result(key, later) is None
            &&& read.store == written.store
            &&& !has_key(read.memory, key)
            &&& !has_key(swept.memory, key)
            &&& !has_record(swept.store, key)
            &&& swept.memory.len() + swept.store.len() <= usize::MAX ==> (swept.stats(later)
                matches Ok(stats) && stats.total_keys == swept.memory.len() + swept.store.len())
        }),
{
    let entry = EntryView::fresh(key, value, ttl, now);
    let record = RecordView { key, value, expires_at: now + ttl };
    lemma_insert(cache.memory, cache.capacity, entry);
    lemma_upsert(cache.store, record);
    let written = cache.after_set(key, value, ttl, now);
    assert(stored_value(written.store, key, later) is None);
    let read = written.after_get(key, later);
    if cache.capacity >= 1 {
        let i = index_of(written.memory, key);
        assert(!written.memory[i].is_live(later));
        assert(lookup_value(written.memory, key, later) is None);
        assert(read.memory == written.memory.remove(i));
        assert(!has_key(read.memory, key)) by {
            assert forall|j: int| 0 <= j < read.memory.len() implies (
            #[trigger] read.memory[j]).key != key by {
                if j < i {
                    assert(read.memory[j] == written.memory[j]);
                } else {
                    assert(read.memory[j] == written.memory[j + 1]);
                }
            }
        }
    } else {
        assert(written.memory.len() == 0);
        assert(!has_key(written.memory, key));
    }
    lemma_sweep_memory(read.memory, later, key);
    lemma_sweep_store(written.store, later, key);
}

/// After a sweep at `now` the memory tier holds a key exactly if it held it
/// before under an entry that is still live, and that entry is unchanged.
pub proof fn lemma_sweep_memory(s: Seq<EntryView>, now: nat, key: Seq<char>)
    requires
        distinct_keys(s),
    ensures
        has_key(without_expired(s, now), key) <==> has_key(s, key) && s[index_of(s, key)].is_live(
            now,
        ),
        has_key(without_expired(s, now), key) ==> without_expired(s, now)[index_of(
            without_expired(s, now),
            key,
        )] == s[index_of(s, key)],
{
    let keep = |e: EntryView| e.is_live(now);
    let out = s.filter(keep);
    if has_key(out, key) {
        let i = index_of(out, key);
        lemma_filter_origin(s, keep, i);
        let j = choose|j: int| 0 <= j < s.len() && #[trigger] s[j] == out[i];
        lemma_index_of(s, key, j);
    }
    if has_key(s, key) && s[index_of(s, key)].is_live(now) {
        let j = index_of(s, key);
        lemma_filter_keeps(s, keep, j);
        let i = choose|i: int| 0 <= i < out.len() && #[trigger] out[i] == s[j];
        assert(out[i].key == key);
    }
}

/// After a sweep at `now` the persistent tier holds a key exactly if it held
/// it before under a record that is still live.
pub proof fn lemma_sweep_store(s: Seq<RecordView>, now: nat, key: Seq<char>)
    requires
        unique_keys(s),
    ensures
        has_record(live_records(s, now), key) <==> has_record(s, key) && s[record_index(
            s,
            key,
        )].is_live(now),
{
    let keep = |r: RecordView| r.is_live(now);
    let out = s.filter(keep);
    if has_record(out, key) {
        let i = record_index(out, key);
        lemma_filter_origin(s, keep, i);
        let j = choose|j: int| 0 <= j < s.len() && #[trigger] s[j] == out[i];
        lemma_record_index(s, key, j);
    }
    if has_record(s, key) && s[record_index(s, key)].is_live(now) {
        let j = record_index(s, key);
        lemma_filter_keeps(s, keep, j);
        let i = choose|i: int| 0 <= i < out.len() && #[trigger] out[i] == s[j];
        assert(out[i].key == key);
    }
}

/// The tier after a run of inserts, one after the other.
pub open spec fn after_inserts(s: Seq<EntryView>, capacity: nat, entries: Seq<EntryView>) -> Seq<
    EntryView,
>
    decreases entries.len(),
{
    if entries.len() == 0 {
        s
    } else {
        after_insert(after_inserts(s, capacity, entries.drop_last()), capacity, entries.last())
    }
}

/// Capacity bound: whatever is inserted, and in whatever order, the tier
/// never holds more entries than its capacity.
pub proof fn lemma_capacity_bound(s: Seq<EntryView>, capacity: nat, entries: Seq<EntryView>)
    requires
        tier_wf(s, capacity),
        forall|i: int| 0 <= i < entries.len() ==> (#[trigger] entries[i]).well_formed(),
    ensures
        tier_wf(after_inserts(s, capacity, entries), capacity),
        after_inserts(s, capacity, entries).len() <= capacity,
    decreases entries.len(),
{
    if entries.len() > 0 {
        let front = entries.drop_last();
        assert forall|i: int| 0 <= i < front.len() implies (#[trigger] front[i]).well_formed() by {
            assert(front[i] == entries[i]);
        }
        lemma_capacity_bound(s, capacity, front);
        lemma_insert(after_inserts(s, capacity, front), capacity, entries.last());
    }
}

/// Eviction: an insert that has to make room removes exactly one entry, the
/// one whose `created_at` is earliest among the residents, and puts the new
/// entry at the end.
pub proof fn lemma_eviction_takes_oldest(s: Seq<EntryView>, capacity: nat, entry: EntryView)
    requires
        tier_wf(s, capacity),
        must_evict(s, capacity, entry.key),
    ensures
        0 <= oldest_index(s) < s.len(),
        forall|j: int|
            0 <= j < s.len() ==> s[oldest_index(s)].created_at <= (#[trigger] s[j]).created_at,
        after_insert(s, capacity, entry) == s.remove(oldest_index(s)).push(entry),
        after_insert(s, capacity, entry).len() == s.len(),
        !has_key(after_insert(s, capacity, entry), s[oldest_index(s)].key),
{
    lemma_oldest_exists(s);
    let v = oldest_index(s);
    let a = after_insert(s, capacity, entry);
    assert(s[v].key != entry.key);
    assert forall|i: int| 0 <= i < a.len() implies (#[trigger] a[i]).key != s[v].key by {
        if i < v {
            assert(a[i] == s[i]);
        } else if i < a.len() - 1 {
            assert(a[i] == s[i + 1]);
        }
    }
}

/// The entries whose key contains `pattern`.
pub open spec fn matching_entries(s: Seq<EntryView>, pattern: Seq<char>) -> Seq<EntryView> {
    s.filter(|e: EntryView| is_substring(e.key, pattern))
}

/// The records whose key the wildcard search for `pattern` matches.
pub open spec fn matching_records(s: Seq<RecordView>, pattern: Seq<char>) -> Seq<RecordView> {
    s.filter(|r: RecordView| like_contains(r.key, pattern))
}

/// The records whose key contains `pattern`.
pub open spec fn records_containing(s: Seq<RecordView>, pattern: Seq<char>) -> Seq<RecordView> {
    s.filter(|r: RecordView| is_substring(r.key, pattern))
}

/// After the removal by pattern the memory tier holds a key exactly if it
/// held it before and the key does not contain the pattern; what stays is
/// unchanged, and what left is as many entries as contained the pattern.
pub proof fn lemma_remove_matching(s: Seq<EntryView>, pattern: Seq<char>, key: Seq<char>)
    requires
        distinct_keys(s),
    ensures
        has_key(without_matching(s, pattern), key) <==> has_key(s, key) && !is_substring(
            key,
            pattern,
        ),
        has_key(without_matching(s, pattern), key) ==> without_matching(s, pattern)[index_of(
            without_matching(s, pattern),
            key,
        )] == s[index_of(s, key)],
        s.len() - without_matching(s, pattern).len() == matching_entries(s, pattern).len(),
{
    let keep = |e: EntryView| !is_substring(e.key, pattern);
    let hit = |e: EntryView| is_substring(e.key, pattern);
    let out = s.filter(keep);
    lemma_filter_partition(s, hit, keep);
    if has_key(out, key) {
        let i = index_of(out, key);
        lemma_filter_origin(s, keep, i);
        let j = choose|j: int| 0 <= j < s.len() && #[trigger] s[j] == out[i];
        lemma_index_of(s, key, j);
    }
    if has_key(s, key) && !is_substring(key, pattern) {
        let j = index_of(s, key);
        lemma_filter_keeps(s, keep, j);
        let i = choose|i: int| 0 <= i < out.len() && #[trigger] out[i] == s[j];
        assert(out[i].key == key);
    }
}

/// After the deletion by pattern the persistent tier holds a key exactly if
/// it held it before and its wildcard search for the pattern does not match
/// the key; what left is as many rows as matched.
pub proof fn lemma_delete_matching(s: Seq<RecordView>, pattern: Seq<char>, key: Seq<char>)
    requires
        unique_keys(s),
    ensures
        has_record(without_like(s, pattern), key) <==> has_record(s, key) && !like_contains(
            key,
            pattern,
        ),
        s.len() - without_like(s, pattern).len() == matching_records(s, pattern).len(),
{
    let keep = |r: RecordView| !like_contains(r.key, pattern);
    let hit = |r: RecordView| like_contains(r.key, pattern);
    let out = s.filter(keep);
    lemma_filter_partition(s, hit, keep);
    if has_record(out, key) {
        let i = record_index(out, key);
        lemma_filter_origin(s, keep, i);
        let j = choose|j: int| 0 <= j < s.len() && #[trigger] s[j] == out[i];
        lemma_record_index(s, key, j);
    }
    if has_record(s, key) && !like_contains(key, pattern) {
        let j = record_index(s, key);
        lemma_filter_keeps(s, keep, j);
        let i = choose|i: int| 0 <= i < out.len() && #[trigger] out[i] == s[j];
        assert(out[i].key == key);
    }
}

/// Pattern invalidation: for a plain pattern (no wildcard, no escape), and a
/// persistent tier that serves the request, each tier afterwards holds
/// exactly the keys it held before that do not contain the pattern, and the
/// number returned is the number of entries and rows that left.
pub proof fn lemma_pattern_invalidation(cache: CacheView, pattern: Seq<char>, key: Seq<char>)
    requires
        cache.wf(),
        cache.store_available,
        is_plain(pattern),
    ensures
        ({
            let after = cache.after_invalidate_pattern(pattern);
            &&& has_key(after.memory, key) <==> has_key(cache.memory, key) && !is_substring(
                key,
                pattern,
            )
            &&& has_record(after.store, key) <==> has_record(cache.store, key) && !is_substring(
                key,
                pattern,
            )
            &&& cache.invalidated(pattern) == Ok::<int, CacheErrorView>(
                (matching_entries(cache.memory, pattern).len() + records_containing(
                    cache.store,
                    pattern,
                ).len()) as int,
            )
        }),
{
    lemma_remove_matching(cache.memory, pattern, key);
    lemma_delete_matching(cache.store, pattern, key);
    lemma_plain_like_is_substring(key, pattern);
    let by_wildcard = |r: RecordView| like_contains(r.key, pattern);
    let by_substring = |r: RecordView| is_substring(r.key, pattern);
    assert forall|i: int| 0 <= i < cache.store.len() implies by_wildcard(
        #[trigger] cache.store[i],
    ) == by_substring(cache.store[i]) by {
        lemma_plain_like_is_substring(cache.store[i].key, pattern);
    }
    lemma_filter_same(cache.store, by_wildcard, by_substring);
}

} // verus!
