//! The persistent tier: the durable table of records, one per key, each with
//! its own expiry.  It is the reference for what a backing store does with
//! the requests of the cache, outages included.

use vstd::prelude::*;
use crate::utils::sequences::{
    filtering, lemma_filter_push, lemma_filtering_end, lemma_filtering_start, lemma_filtering_step,
};
use crate::utils::text::chars_of;
use crate::utils::wildcard::{like_contains, like_contains_chars};

verus! {

/// One row of the durable table.
#[derive(Debug, PartialEq, Eq)]
pub struct PersistentRecord {
    pub key: String,
    pub value: String,
    pub expires_at: u64,
}

/// What a record stands for.
pub struct RecordView {
    pub key: Seq<char>,
    pub value: Seq<char>,
    pub expires_at: nat,
}

impl View for PersistentRecord {
    type V = RecordView;

    open spec fn view(&self) -> RecordView {
        RecordView { key: self.key@, value: self.value@, expires_at: self.expires_at as nat }
    }
}

impl RecordView {
    /// A record is served only while `expires_at > now`.
    pub open spec fn is_live(self, now: nat) -> bool {
        now < self.expires_at
    }
}

/// Why the backing store did not serve a request.
#[derive(Debug, Clone, PartialEq, Eq)]
pub struct StoreError {
    pub message: String,
}

/// The message of the failure that an unavailable tier reports.
pub open spec fn unavailable_message() -> Seq<char> {
    "persistent tier unavailable"@
}

/// `r` is the failure that an unavailable tier reports.
pub open spec fn is_outage<T>(r: Result<T, StoreError>) -> bool {
    r matches Err(e) && e.message@ == unavailable_message()
}

/// Some record of `s` is stored under `key`.
pub open spec fn has_record(s: Seq<RecordView>, key: Seq<char>) -> bool {
    exists|i: int| 0 <= i < s.len() && (#[trigger] s[i]).key == key
}

/// Where `key` is stored in `s`, when it is.
pub open spec fn record_index(s: Seq<RecordView>, key: Seq<char>) -> int {
    choose|i: int| 0 <= i < s.len() && (#[trigger] s[i]).key == key
}

/// The key column is unique.
pub open spec fn unique_keys(s: Seq<RecordView>) -> bool {
    forall|i: int, j: int|
        0 <= i < s.len() && 0 <= j < s.len() && i != j ==> (#[trigger] s[i]).key != (
        #[trigger] s[j]).key
}

/// The value a read of `key` at time `now` returns, if any.  An expired
/// record is passed over.
pub open spec fn stored_value(s: Seq<RecordView>, key: Seq<char>, now: nat) -> Option<Seq<char>> {
    if has_record(s, key) && s[record_index(s, key)].is_live(now) {
        Some(s[record_index(s, key)].value)
    } else {
        None
    }
}

/// The table after an insert-or-replace of `record`.
pub open spec fn after_upsert(s: Seq<RecordView>, record: RecordView) -> Seq<RecordView> {
    if has_record(s, record.key) {
        s.update(record_index(s, record.key), record)
    } else {
        s.push(record)
    }
}

/// The table without the record under `key`.
pub open spec fn after_delete(s: Seq<RecordView>, key: Seq<char>) -> Seq<RecordView> {
    if has_record(s, key) {
        s.remove(record_index(s, key))
    } else {
        s
    }
}

/// The records whose key the wildcard search for `pattern` does not match.
pub open spec fn without_like(s: Seq<RecordView>, pattern: Seq<char>) -> Seq<RecordView> {
    s.filter(|r: RecordView| !like_contains(r.key, pattern))
}

/// The records still live at `now`.
pub open spec fn live_records(s: Seq<RecordView>, now: nat) -> Seq<RecordView> {
    s.filter(|r: RecordView| r.is_live(now))
}

/// The position found for a key is the one `record_index` names.
pub proof fn lemma_record_index(s: Seq<RecordView>, key: Seq<char>, i: int)
    requires
        unique_keys(s),
        0 <= i < s.len(),
        s[i].key == key,
    ensures
        has_record(s, key),
        record_index(s, key) == i,
{
}

/// A key that no position holds is not stored.
pub proof fn lemma_no_record(s: Seq<RecordView>, key: Seq<char>)
    requires
        forall|i: int| 0 <= i < s.len() ==> (#[trigger] s[i]).key != key,
    ensures
        !has_record(s, key),
{
}

/// The durable table together with its availability.  While the tier is
/// unavailable every request fails and changes nothing.
pub struct PersistentTier {
    records: Vec<PersistentRecord>,
    available: bool,
}

impl View for PersistentTier {
    type V = Seq<RecordView>;

    closed spec fn view(&self) -> Seq<RecordView> {
        self.records@.map_values(|r: PersistentRecord| r@)
    }
}

impl PersistentTier {
    /// Whether requests are served.
    pub closed spec fn spec_available(&self) -> bool {
        self.available
    }

    /// The key column is unique.
    pub open spec fn wf(&self) -> bool {
        unique_keys(self@)
    }

    fn outage<T>() -> (r: Result<T, StoreError>)
        ensures
            is_outage(r),
    {
        Err(StoreError { message: "persistent tier unavailable".to_owned() })
    }

    /// An empty table that serves requests.
    pub fn new() -> (tier: PersistentTier)
        ensures
            tier@ == Seq::<RecordView>::empty(),
            tier.spec_available(),
            tier.wf(),
    {
        let tier = PersistentTier { records: Vec::new(), available: true };
        assert(tier@ =~= Seq::<RecordView>::empty());
        tier
    }

    /// Whether requests are served.
    pub fn is_available(&self) -> (a: bool)
        ensures
            a == self.spec_available(),
    {
        self.available
    }

    /// Starts or ends an outage; the table is left as it is.
    pub fn set_available(&mut self, available: bool)
        ensures
            final(self)@ == old(self)@,
            final(self).spec_available() == available,
    {
        self.available = available;
    }

    /// Number of rows, expired ones included, whether or not the tier serves
    /// requests.
    pub fn len(&self) -> (n: usize)
        ensures
            n == self@.len(),
    {
        self.records.len()
    }

    fn find(&self, key: &String) -> (r: Option<usize>)
        requires
            self.wf(),
        ensures
            match r {
                Some(i) => i < self@.len() && has_record(self@, key@) && record_index(self@, key@)
                    == i,
                None => !has_record(self@, key@),
            },
    {
        let mut i: usize = 0;
        while i < self.records.len()
            invariant
                i <= self.records.len(),
                self.wf(),
                forall|j: int| 0 <= j < i ==> (#[trigger] self@[j]).key != key@,
            decreases self.records.len() - i,
        {
            if self.records[i].key == *key {
                proof {
                    lemma_record_index(self@, key@, i as int);
                }
                return Some(i);
            }
            i += 1;
        }
        proof {
            lemma_no_record(self@, key@);
        }
        None
    }

    /// Inserts the record, or replaces the one stored under the same key.
    pub fn upsert(&mut self, key: &str, value: &str, expires_at: u64) -> (r: Result<(), StoreError>)
        requires
            old(self).wf(),
        ensures
            final(self).wf(),
            final(self).spec_available() == old(self).spec_available(),
            old(self).spec_available() ==> r is Ok && final(self)@ == after_upsert(
                old(self)@,
                RecordView { key: key@, value: value@, expires_at: expires_at as nat },
            ),
            !old(self).spec_available() ==> is_outage(r) && final(self)@ == old(self)@,
    {
        if !self.available {
            return Self::outage();
        }
        let record = PersistentRecord { key: key.to_owned(), value: value.to_owned(), expires_at };
        match self.find(&record.key) {
            Some(i) => {
                self.records[i] = record;
                assert(self@ =~= old(self)@.update(i as int, record@));
            },
            None => {
                self.records.push(record);
                assert(self@ =~= old(self)@.push(record@));
            },
        }
        Ok(())
    }

    /// Reads the value under `key`.  A record with `expires_at <= now` counts
    /// as missing and is left in place.
    pub fn get(&self, key: &str, now: u64) -> (r: Result<Option<String>, StoreError>)
        requires
            self.wf(),
        ensures
            self.spec_available() ==> match r {
                Ok(Some(v)) => stored_value(self@, key@, now as nat) == Some(v@),
                Ok(None) => stored_value(self@, key@, now as nat) is None,
                Err(_) => false,
            },
            !self.spec_available() ==> is_outage(r),
    {
        if !self.available {
            return Self::outage();
        }
        let owned = key.to_owned();
        match self.find(&owned) {
            Some(i) => {
                if now < self.records[i].expires_at {
                    Ok(Some(self.records[i].value.clone()))
                } else {
                    Ok(None)
                }
            },
            None => Ok(None),
        }
    }

    /// Deletes the record under `key`, if there is one.
    pub fn delete(&mut self, key: &str) -> (r: Result<(), StoreError>)
        requires
            old(self).wf(),
        ensures
            final(self).wf(),
            final(self).spec_available() == old(self).spec_available(),
            old(self).spec_available() ==> r is Ok && final(self)@ == after_delete(
                old(self)@,
                key@,
            ),
            !old(self).spec_available() ==> is_outage(r) && final(self)@ == old(self)@,
    {
        if !self.available {
            return Self::outage();
        }
        let owned = key.to_owned();
        match self.find(&owned) {
            Some(i) => {
                self.records.remove(i);
                assert(self@ =~= old(self)@.remove(i as int));
            },
            None => {},
        }
        Ok(())
    }

    /// Deletes every record whose key matches the wildcard search for
    /// `pattern` anywhere in it, and returns how many rows that were.  The
    /// pattern is wrapped in `%` as it stands: a `%` or `_` inside it acts as
    /// a wildcard.  A backslash is matched as itself; the escaping that a
    /// store may attach to it is not modelled.
    pub fn delete_matching(&mut self, pattern: &str) -> (r: Result<usize, StoreError>)
        requires
            old(self).wf(),
        ensures
            final(self).wf(),
            final(self).spec_available() == old(self).spec_available(),
            old(self).spec_available() ==> final(self)@ == without_like(old(self)@, pattern@) && r
                == Ok::<usize, StoreError>((old(self)@.len() - final(self)@.len()) as usize),
            !old(self).spec_available() ==> is_outage(r) && final(self)@ == old(self)@,
    {
        if !self.available {
            return Self::outage();
        }
        let needle = chars_of(pattern);
        let ghost orig = self@;
        let ghost keep = |r: RecordView| !like_contains(r.key, pattern@);
        let mut i: usize = 0;
        let mut removed: usize = 0;
        assert(orig.len() == self.records.len());
        proof {
            lemma_filtering_start(orig, keep);
        }
        while i < self.records.len()
            invariant
                self.wf(),
                self.spec_available(),
                orig == old(self)@,
                needle@ == pattern@,
                keep == (|r: RecordView| !like_contains(r.key, pattern@)),
                orig.len() <= usize::MAX,
                filtering(orig, self@, keep, i as int, removed as int),
            decreases self@.len() - i,
        {
            let ghost cur = self@;
            proof {
                lemma_filtering_step(orig, cur, keep, i as int, removed as int);
            }
            let hay = chars_of(self.records[i].key.as_str());
            if like_contains_chars(&hay, &needle) {
                self.records.remove(i);
                removed += 1;
                assert(self@ =~= cur.remove(i as int));
            } else {
                i += 1;
            }
        }
        proof {
            lemma_filtering_end(orig, self@, keep, i as int, removed as int);
        }
        Ok(removed)
    }

    /// Deletes every record with `expires_at <= now` and returns how many
    /// rows that were.
    pub fn sweep_expired(&mut self, now: u64) -> (r: Result<usize, StoreError>)
        requires
            old(self).wf(),
        ensures
            final(self).wf(),
            final(self).spec_available() == old(self).spec_available(),
            old(self).spec_available() ==> final(self)@ == live_records(old(self)@, now as nat)
                && r == Ok::<usize, StoreError>((old(self)@.len() - final(self)@.len()) as usize),
            !old(self).spec_available() ==> is_outage(r) && final(self)@ == old(self)@,
    {
        if !self.available {
            return Self::outage();
        }
        let ghost orig = self@;
        let ghost keep = |r: RecordView| r.is_live(now as nat);
        let mut i: usize = 0;
        let mut removed: usize = 0;
        assert(orig.len() == self.records.len());
        proof {
            lemma_filtering_start(orig, keep);
        }
        while i < self.records.len()
            invariant
                self.wf(),
                self.spec_available(),
                orig == old(self)@,
                keep == (|r: RecordView| r.is_live(now as nat)),
                orig.len() <= usize::MAX,
                filtering(orig, self@, keep, i as int, removed as int),
            decreases self@.len() - i,
        {
            let ghost cur = self@;
            proof {
                lemma_filtering_step(orig, cur, keep, i as int, removed as int);
            }
            if self.records[i].expires_at <= now {
                self.records.remove(i);
                removed += 1;
                assert(self@ =~= cur.remove(i as int));
            } else {
                i += 1;
            }
        }
        proof {
            lemma_filtering_end(orig, self@, keep, i as int, removed as int);
        }
        Ok(removed)
    }

    /// Counts the rows: all of them, and those with `expires_at <= now`.
    pub fn stats(&self, now: u64) -> (r: Result<(usize, usize), StoreError>)
        requires
            self.wf(),
        ensures
            self.spec_available() ==> r == Ok::<(usize, usize), StoreError>(
                (
                    self@.len() as usize,
                    (self@.len() - live_records(self@, now as nat).len()) as usize,
                ),
            ),
            !self.spec_available() ==> is_outage(r),
    {
        if !self.available {
            return Self::outage();
        }
        let ghost keep = |r: RecordView| r.is_live(now as nat);
        let mut i: usize = 0;
        let mut expired: usize = 0;
        assert(self@.take(0).filter(keep) =~= Seq::<RecordView>::empty()) by {
            reveal(Seq::filter);
        }
        while i < self.records.len()
            invariant
                keep == (|r: RecordView| r.is_live(now as nat)),
                i <= self@.len(),
                expired <= i,
                expired == i - self@.take(i as int).filter(keep).len(),
            decreases self@.len() - i,
        {
            assert(self@.take(i + 1) =~= self@.take(i as int).push(self@[i as int]));
            proof {
                lemma_filter_push(self@.take(i as int), self@[i as int], keep);
            }
            if self.records[i].expires_at <= now {
                expired += 1;
            }
            i += 1;
        }
        assert(self@.take(i as int) =~= self@);
        Ok((self.records.len(), expired))
    }
}

} // verus!
