//! The memory tier: a bounded in-process store, fastest and lossy.

use vstd::prelude::*;
use crate::services::cache::entry::{
    after_insert, after_lookup, after_remove, has_key, index_of, is_oldest, lemma_index_of,
    lemma_no_key, lemma_oldest_index, lookup_value, must_evict, oldest_index, tier_wf, total_hits,
    without_expired, without_matching, CacheEntry, EntryView,
};
use crate::services::cache::guarantees::{
    lemma_insert, lemma_oldest_exists, lemma_remove_matching, lemma_sweep_memory,
};
use crate::utils::sequences::{
    filtering, lemma_filtering_end, lemma_filtering_start, lemma_filtering_step,
};
use crate::utils::text::{chars_of, contains_chars, is_substring};

verus! {

/// Bounded store of key to entry.  Entries stand in the order in which their
/// keys first arrived.
pub struct MemoryTier {
    entries: Vec<CacheEntry>,
    capacity: usize,
}

impl View for MemoryTier {
    type V = Seq<EntryView>;

    closed spec fn view(&self) -> Seq<EntryView> {
        self.entries@.map_values(|e: CacheEntry| e@)
    }
}

impl MemoryTier {
    /// The capacity fixed at construction.
    pub closed spec fn spec_capacity(&self) -> nat {
        self.capacity as nat
    }

    /// Keys are distinct, entries outlive their creation, and the tier holds
    /// at most as many entries as its capacity.
    pub open spec fn wf(&self) -> bool {
        tier_wf(self@, self.spec_capacity())
    }

    /// An empty tier that will hold at most `capacity` entries.
    pub fn new(capacity: usize) -> (tier: MemoryTier)
        ensures
            tier@ == Seq::<EntryView>::empty(),
            tier.spec_capacity() == capacity,
            tier.wf(),
    {
        let tier = MemoryTier { entries: Vec::new(), capacity };
        assert(tier@ =~= Seq::<EntryView>::empty());
        tier
    }

    /// Number of resident entries, expired ones included.
    pub fn len(&self) -> (n: usize)
        ensures
            n == self@.len(),
    {
        self.entries.len()
    }

    /// The capacity fixed at construction.
    pub fn capacity(&self) -> (c: usize)
        ensures
            c == self.spec_capacity(),
    {
        self.capacity
    }

    fn find(&self, key: &String) -> (r: Option<usize>)
        requires
            self.wf(),
        ensures
            match r {
                Some(i) => i < self@.len() && has_key(self@, key@) && index_of(self@, key@) == i,
                None => !has_key(self@, key@),
            },
    {
        let mut i: usize = 0;
        while i < self.entries.len()
            invariant
                i <= self.entries.len(),
                self.wf(),
                forall|j: int| 0 <= j < i ==> (#[trigger] self@[j]).key != key@,
            decreases self.entries.len() - i,
        {
            if self.entries[i].key == *key {
                proof {
                    lemma_index_of(self@, key@, i as int);
                }
                return Some(i);
            }
            i += 1;
        }
        proof {
            lemma_no_key(self@, key@);
        }
        None
    }

    /// Returns the value stored under `key` if it is still live at `now`, and
    /// counts the hit.  An entry found expired is removed.
    pub fn lookup(&mut self, key: &str, now: u64) -> (r: Option<String>)
        requires
            old(self).wf(),
        ensures
            final(self).wf(),
            final(self).spec_capacity() == old(self).spec_capacity(),
            final(self)@ == after_lookup(old(self)@, key@, now as nat),
            match r {
                Some(v) => lookup_value(old(self)@, key@, now as nat) == Some(v@),
                None => lookup_value(old(self)@, key@, now as nat) is None,
            },
    {
        let owned = key.to_owned();
        match self.find(&owned) {
            None => None,
            Some(i) => {
                if now < self.entries[i].expires_at {
                    let hits: u64 = self.entries[i].hit_count;
                    if hits < u64::MAX {
                        self.entries[i].hit_count = hits + 1;
                    }
                    let value = self.entries[i].value.clone();
                    assert(self@ =~= old(self)@.update(i as int, old(self)@[i as int].touched()));
                    Some(value)
                } else {
                    self.entries.remove(i);
                    assert(self@ =~= old(self)@.remove(i as int));
                    None
                }
            },
        }
    }

    fn oldest(&self) -> (r: usize)
        requires
            self@.len() > 0,
        ensures
            is_oldest(self@, r as int),
    {
        let mut best: usize = 0;
        let mut i: usize = 1;
        while i < self.entries.len()
            invariant
                best < i <= self.entries.len(),
                forall|j: int|
                    0 <= j < i ==> self@[best as int].created_at <= (#[trigger] self@[j]).created_at,
                forall|j: int|
                    0 <= j < best ==> self@[best as int].created_at < (
                    #[trigger] self@[j]).created_at,
            decreases self.entries.len() - i,
        {
            if self.entries[i].created_at < self.entries[best].created_at {
                best = i;
            }
            i += 1;
        }
        best
    }

    /// Stores `value` under `key` for `ttl` milliseconds from `now`.  An entry
    /// already under `key` is replaced; otherwise a full tier first gives up
    /// its oldest entry.  A tier of capacity zero stores nothing.
    pub fn insert(&mut self, key: &str, value: &str, ttl: u64, now: u64)
        requires
            old(self).wf(),
            ttl > 0,
            now + ttl <= u64::MAX,
        ensures
            final(self).wf(),
            final(self).spec_capacity() == old(self).spec_capacity(),
            final(self)@ == after_insert(
                old(self)@,
                old(self).spec_capacity(),
                EntryView::fresh(key@, value@, ttl as nat, now as nat),
            ),
            final(self)@.len() <= final(self).spec_capacity(),
            final(self).spec_capacity() >= 1 ==> has_key(final(self)@, key@) && final(self)@[index_of(
                final(self)@,
                key@,
            )] == EntryView::fresh(key@, value@, ttl as nat, now as nat),
            must_evict(old(self)@, old(self).spec_capacity(), key@) ==> is_oldest(
                old(self)@,
                oldest_index(old(self)@),
            ) && final(self)@ == old(self)@.remove(oldest_index(old(self)@)).push(
                EntryView::fresh(key@, value@, ttl as nat, now as nat),
            ),
    {
        proof {
            if self@.len() > 0 {
                lemma_oldest_exists(self@);
            }
            lemma_insert(
                self@,
                self.spec_capacity(),
                EntryView::fresh(key@, value@, ttl as nat, now as nat),
            );
        }
        let entry = CacheEntry {
            key: key.to_owned(),
            value: value.to_owned(),
            created_at: now,
            expires_at: now + ttl,
            hit_count: 0,
        };
        assert(entry@ == EntryView::fresh(key@, value@, ttl as nat, now as nat));
        match self.find(&entry.key) {
            Some(i) => {
                self.entries[i] = entry;
                assert(self@ =~= old(self)@.update(i as int, entry@));
            },
            None => {
                if self.capacity == 0 {
                    return ;
                }
                if self.entries.len() >= self.capacity {
                    let victim = self.oldest();
                    proof {
                        lemma_oldest_index(self@, victim as int);
                    }
                    self.entries.remove(victim);
                    assert(self@ =~= old(self)@.remove(victim as int));
                }
                let ghost before = self@;
                self.entries.push(entry);
                assert(self@ =~= before.push(entry@));
            },
        }
    }

    /// Removes the entry under `key`, if there is one.
    pub fn remove(&mut self, key: &str)
        requires
            old(self).wf(),
        ensures
            final(self).wf(),
            final(self).spec_capacity() == old(self).spec_capacity(),
            final(self)@ == after_remove(old(self)@, key@),
    {
        let owned = key.to_owned();
        match self.find(&owned) {
            Some(i) => {
                self.entries.remove(i);
                assert(self@ =~= old(self)@.remove(i as int));
            },
            None => {},
        }
    }

    /// Removes every entry whose key contains `pattern` and returns how many
    /// left.
    pub fn remove_matching(&mut self, pattern: &str) -> (removed: usize)
        requires
            old(self).wf(),
        ensures
            final(self).wf(),
            final(self).spec_capacity() == old(self).spec_capacity(),
            final(self)@ == without_matching(old(self)@, pattern@),
            removed == old(self)@.len() - final(self)@.len(),
            forall|k: Seq<char>|
                has_key(final(self)@, k) <==> #[trigger] has_key(old(self)@, k) && !is_substring(
                    k,
                    pattern@,
                ),
            forall|k: Seq<char>| #[trigger]
                has_key(final(self)@, k) ==> final(self)@[index_of(final(self)@, k)] == old(
                    self,
                )@[index_of(old(self)@, k)],
    {
        proof {
            let kept = without_matching(self@, pattern@);
            assert forall|k: Seq<char>|
                has_key(kept, k) <==> #[trigger] has_key(self@, k) && !is_substring(
                    k,
                    pattern@,
                ) by {
                lemma_remove_matching(self@, pattern@, k);
            }
            assert forall|k: Seq<char>| #[trigger] has_key(kept, k) implies kept[index_of(kept, k)]
                == self@[index_of(self@, k)] by {
                lemma_remove_matching(self@, pattern@, k);
            }
        }
        let needle = chars_of(pattern);
        let ghost orig = self@;
        let ghost keep = |e: EntryView| !is_substring(e.key, pattern@);
        let mut i: usize = 0;
        let mut removed: usize = 0;
        proof {
            lemma_filtering_start(orig, keep);
        }
        while i < self.entries.len()
            invariant
                self.wf(),
                self.spec_capacity() == old(self).spec_capacity(),
                orig == old(self)@,
                needle@ == pattern@,
                keep == (|e: EntryView| !is_substring(e.key, pattern@)),
                orig.len() <= usize::MAX,
                filtering(orig, self@, keep, i as int, removed as int),
            decreases self@.len() - i,
        {
            let ghost cur = self@;
            proof {
                lemma_filtering_step(orig, cur, keep, i as int, removed as int);
            }
            let hay = chars_of(self.entries[i].key.as_str());
            if contains_chars(&hay, &needle) {
                self.entries.remove(i);
                removed += 1;
                assert(self@ =~= cur.remove(i as int));
            } else {
                i += 1;
            }
        }
        proof {
            lemma_filtering_end(orig, self@, keep, i as int, removed as int);
        }
        removed
    }

    /// Removes every entry with `expires_at <= now` and returns how many left.
    pub fn sweep_expired(&mut self, now: u64) -> (removed: usize)
        requires
            old(self).wf(),
        ensures
            final(self).wf(),
            final(self).spec_capacity() == old(self).spec_capacity(),
            final(self)@ == without_expired(old(self)@, now as nat),
            removed == old(self)@.len() - final(self)@.len(),
            forall|k: Seq<char>|
                has_key(final(self)@, k) <==> #[trigger] has_key(old(self)@, k) && old(
                    self,
                )@[index_of(old(self)@, k)].is_live(now as nat),
    {
        proof {
            assert forall|k: Seq<char>|
                has_key(without_expired(self@, now as nat), k) <==> #[trigger] has_key(self@, k)
                    && self@[index_of(self@, k)].is_live(now as nat) by {
                lemma_sweep_memory(self@, now as nat, k);
            }
        }
        let ghost orig = self@;
        let ghost keep = |e: EntryView| e.is_live(now as nat);
        let mut i: usize = 0;
        let mut removed: usize = 0;
        proof {
            lemma_filtering_start(orig, keep);
        }
        while i < self.entries.len()
            invariant
                self.wf(),
                self.spec_capacity() == old(self).spec_capacity(),
                orig == old(self)@,
                keep == (|e: EntryView| e.is_live(now as nat)),
                orig.len() <= usize::MAX,
                filtering(orig, self@, keep, i as int, removed as int),
            decreases self@.len() - i,
        {
            let ghost cur = self@;
            proof {
                lemma_filtering_step(orig, cur, keep, i as int, removed as int);
            }
            if self.entries[i].expires_at <= now {
                self.entries.remove(i);
                removed += 1;
                assert(self@ =~= cur.remove(i as int));
            } else {
                i += 1;
            }
        }
        proof {
            lemma_filtering_end(orig, self@, keep, i as int, removed as int);
        }
        removed
    }

    /// Whether an entry stands under `key`, live or expired.
    pub fn contains_key(&self, key: &str) -> (r: bool)
        requires
            self.wf(),
        ensures
            r == has_key(self@, key@),
    {
        let owned = key.to_owned();
        self.find(&owned).is_some()
    }

    /// Sum of the hit counters of all resident entries.
    pub fn total_hits(&self) -> (sum: u128)
        ensures
            sum == total_hits(self@),
    {
        let mut sum: u128 = 0;
        let mut i: usize = 0;
        assert(self@.take(0) =~= Seq::<EntryView>::empty());
        while i < self.entries.len()
            invariant
                i <= self.entries.len(),
                sum == total_hits(self@.take(i as int)),
                sum <= i * u64::MAX,
            decreases self.entries.len() - i,
        {
            let hits: u64 = self.entries[i].hit_count;
            assert(self@.take(i + 1).drop_last() =~= self@.take(i as int));
            assert(self@.take(i + 1).last() == self@[i as int]);
            assert((i + 1) * u64::MAX <= 0xffff_ffff_ffff_ffff * 0xffff_ffff_ffff_ffff
                && sum + hits <= (i + 1) * u64::MAX) by (nonlinear_arith)
                requires
                    i < usize::MAX,
                    usize::MAX <= 0xffff_ffff_ffff_ffff,
                    u64::MAX == 0xffff_ffff_ffff_ffff,
                    sum <= i * u64::MAX,
                    hits <= u64::MAX,
            ;
            sum = sum + hits as u128;
            i += 1;
        }
        assert(self@.take(i as int) =~= self@);
        sum
    }
}

} // verus!
