//! Entries of the memory tier and their mathematical model.

use vstd::prelude::*;

verus! {

/// One resident of the memory tier.
#[derive(Debug, PartialEq, Eq)]
pub struct CacheEntry {
    pub key: String,
    pub value: String,
    pub created_at: u64,
    pub expires_at: u64,
    pub hit_count: u64,
}

/// What an entry stands for: its key and payload as character sequences and
/// its times and hit counter as natural numbers.
pub struct EntryView {
    pub key: Seq<char>,
    pub value: Seq<char>,
    pub created_at: nat,
    pub expires_at: nat,
    pub hit_count: nat,
}

impl View for CacheEntry {
    type V = EntryView;

    open spec fn view(&self) -> EntryView {
        EntryView {
            key: self.key@,
            value: self.value@,
            created_at: self.created_at as nat,
            expires_at: self.expires_at as nat,
            hit_count: self.hit_count as nat,
        }
    }
}

impl EntryView {
    /// An entry is present only while `now < expires_at`.
    pub open spec fn is_live(self, now: nat) -> bool {
        now < self.expires_at
    }

    /// An entry outlives the moment it was created.
    pub open spec fn well_formed(self) -> bool {
        self.created_at < self.expires_at
    }

    /// The entry after one more hit; the counter stops at the largest `u64`.
    pub open spec fn touched(self) -> EntryView {
        EntryView {
            hit_count: if self.hit_count < u64::MAX {
                self.hit_count + 1
            } else {
                self.hit_count
            },
            ..self
        }
    }

    /// The entry written by an insert at time `now` with lifetime `ttl`.
    pub open spec fn fresh(key: Seq<char>, value: Seq<char>, ttl: nat, now: nat) -> EntryView {
        EntryView { key, value, created_at: now, expires_at: now + ttl, hit_count: 0 }
    }
}

/// Some entry of `s` is stored under `key`.
pub open spec fn has_key(s: Seq<EntryView>, key: Seq<char>) -> bool {
    exists|i: int| 0 <= i < s.len() && (#[trigger] s[i]).key == key
}

/// Where `key` is stored in `s`, when it is.
pub open spec fn index_of(s: Seq<EntryView>, key: Seq<char>) -> int {
    choose|i: int| 0 <= i < s.len() && (#[trigger] s[i]).key == key
}

/// No key is stored twice.
pub open spec fn distinct_keys(s: Seq<EntryView>) -> bool {
    forall|i: int, j: int|
        0 <= i < s.len() && 0 <= j < s.len() && i != j ==> (#[trigger] s[i]).key != (
        #[trigger] s[j]).key
}

/// `i` is the first position that holds the earliest `created_at` of `s`.
pub open spec fn is_oldest(s: Seq<EntryView>, i: int) -> bool {
    &&& 0 <= i < s.len()
    &&& forall|j: int| 0 <= j < s.len() ==> s[i].created_at <= (#[trigger] s[j]).created_at
    &&& forall|j: int| 0 <= j < i ==> s[i].created_at < (#[trigger] s[j]).created_at
}

/// The position that eviction frees: the earliest `created_at`, and among
/// equals the one that stands first.
pub open spec fn oldest_index(s: Seq<EntryView>) -> int {
    choose|i: int| is_oldest(s, i)
}

/// Sum of the hit counters of `s`.
pub open spec fn total_hits(s: Seq<EntryView>) -> nat
    decreases s.len(),
{
    if s.len() == 0 {
        0
    } else {
        total_hits(s.drop_last()) + s.last().hit_count
    }
}

/// The value a lookup of `key` at time `now` returns, if any.
pub open spec fn lookup_value(s: Seq<EntryView>, key: Seq<char>, now: nat) -> Option<Seq<char>> {
    if has_key(s, key) && s[index_of(s, key)].is_live(now) {
        Some(s[index_of(s, key)].value)
    } else {
        None
    }
}

/// The tier after a lookup of `key` at time `now`: a hit counts, an expired
/// entry leaves, anything else stays as it was.
pub open spec fn after_lookup(s: Seq<EntryView>, key: Seq<char>, now: nat) -> Seq<EntryView> {
    if !has_key(s, key) {
        s
    } else if s[index_of(s, key)].is_live(now) {
        s.update(index_of(s, key), s[index_of(s, key)].touched())
    } else {
        s.remove(index_of(s, key))
    }
}

/// An insert of a key that is not resident has to make room first: the tier
/// has room for something and is full.
pub open spec fn must_evict(s: Seq<EntryView>, capacity: nat, key: Seq<char>) -> bool {
    !has_key(s, key) && capacity > 0 && s.len() >= capacity
}

/// The tier after an insert of `entry`: an entry under the same key is
/// replaced where it stands; otherwise, if the tier is full, the oldest entry
/// leaves, and the new entry goes to the end.  A tier of capacity zero holds
/// nothing and stays as it is.
pub open spec fn after_insert(s: Seq<EntryView>, capacity: nat, entry: EntryView) -> Seq<
    EntryView,
> {
    if has_key(s, entry.key) {
        s.update(index_of(s, entry.key), entry)
    } else if capacity == 0 {
        s
    } else if must_evict(s, capacity, entry.key) {
        s.remove(oldest_index(s)).push(entry)
    } else {
        s.push(entry)
    }
}

/// The tier without the entry under `key`.
pub open spec fn after_remove(s: Seq<EntryView>, key: Seq<char>) -> Seq<EntryView> {
    if has_key(s, key) {
        s.remove(index_of(s, key))
    } else {
        s
    }
}

/// The entries whose key does not contain `pattern`, in their order.
pub open spec fn without_matching(s: Seq<EntryView>, pattern: Seq<char>) -> Seq<EntryView> {
    s.filter(|e: EntryView| !crate::utils::text::is_substring(e.key, pattern))
}

/// The entries still live at `now`, in their order.
pub open spec fn without_expired(s: Seq<EntryView>, now: nat) -> Seq<EntryView> {
    s.filter(|e: EntryView| e.is_live(now))
}

/// A tier of the given capacity is well formed: keys are distinct, every
/// entry outlives its creation, and the tier holds at most `capacity`
/// entries.
pub open spec fn tier_wf(s: Seq<EntryView>, capacity: nat) -> bool {
    &&& distinct_keys(s)
    &&& forall|i: int| 0 <= i < s.len() ==> (#[trigger] s[i]).well_formed()
    &&& s.len() <= capacity
}

/// The position found for a key is the one `index_of` names.
pub proof fn lemma_index_of(s: Seq<EntryView>, key: Seq<char>, i: int)
    requires
        distinct_keys(s),
        0 <= i < s.len(),
        s[i].key == key,
    ensures
        has_key(s, key),
        index_of(s, key) == i,
{
}

/// A key that no position holds is not stored.
pub proof fn lemma_no_key(s: Seq<EntryView>, key: Seq<char>)
    requires
        forall|i: int| 0 <= i < s.len() ==> (#[trigger] s[i]).key != key,
    ensures
        !has_key(s, key),
{
}

/// The first position with the earliest `created_at` is the one
/// `oldest_index` names.
pub proof fn lemma_oldest_index(s: Seq<EntryView>, i: int)
    requires
        is_oldest(s, i),
    ensures
        oldest_index(s) == i,
{
    let c = oldest_index(s);
    assert(is_oldest(s, c));
    if c < i {
        assert(s[i].created_at < s[c].created_at);
        assert(s[c].created_at <= s[i].created_at);
    } else if i < c {
        assert(s[c].created_at < s[i].created_at);
        assert(s[i].created_at <= s[c].created_at);
    }
}

} // verus!
