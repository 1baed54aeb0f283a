//! The table of computations in flight, one per key.  The first caller that
//! misses a key leads: it runs the computation.  Whoever arrives while the
//! key is in the table follows: it is handed the ticket of the computation
//! that is already running and waits for its result.

use vstd::prelude::*;

verus! {

/// What a caller that missed a key has to do.
#[derive(Debug, Clone, Copy, PartialEq, Eq, Structural)]
pub enum Role {
    /// Run the computation and settle the key afterwards.
    Leader,
    /// Wait for the computation that is already running.
    Follower,
}

/// The place of a caller in a computation: its role and the ticket that
/// names the computation whose result it will receive.
#[derive(Debug, Clone, Copy, PartialEq, Eq, Structural)]
pub struct Seat {
    pub role: Role,
    pub ticket: u64,
}

/// The table as a value: the ticket of each key in flight, and the ticket
/// that the next computation will get.
pub struct FlightsView {
    pub tickets: Map<Seq<char>, u64>,
    pub next: u64,
}

/// The ticket after `ticket`; the numbering starts over after the largest.
pub open spec fn following(ticket: u64) -> u64 {
    if ticket == u64::MAX {
        0
    } else {
        (ticket + 1) as u64
    }
}

impl FlightsView {
    /// The seat that a caller arriving for `key` is given.
    pub open spec fn seat(self, key: Seq<char>) -> Seat {
        if self.tickets.dom().contains(key) {
            Seat { role: Role::Follower, ticket: self.tickets[key] }
        } else {
            Seat { role: Role::Leader, ticket: self.next }
        }
    }

    /// The table after a caller has arrived for `key`.
    pub open spec fn joined(self, key: Seq<char>) -> FlightsView {
        if self.tickets.dom().contains(key) {
            self
        } else {
            FlightsView { tickets: self.tickets.insert(key, self.next), next: following(self.next) }
        }
    }

    /// The table after the computation for `key` has ended.
    pub open spec fn settled(self, key: Seq<char>) -> FlightsView {
        FlightsView { tickets: self.tickets.remove(key), ..self }
    }

    /// The table after `n` callers in a row have arrived for `key`.
    pub open spec fn joined_times(self, key: Seq<char>, n: nat) -> FlightsView
        decreases n,
    {
        if n == 0 {
            self
        } else {
            self.joined_times(key, (n - 1) as nat).joined(key)
        }
    }

    /// The seat of the caller that arrives for `key` after `before` others
    /// have arrived for it in a row.
    pub open spec fn nth_seat(self, key: Seq<char>, before: nat) -> Seat {
        self.joined_times(key, before).seat(key)
    }
}

/// One computation in flight.
struct Flight {
    key: String,
    ticket: u64,
}

/// The keys whose computation is in flight, each with its ticket.
pub struct InFlight {
    flights: Vec<Flight>,
    next: u64,
}

impl View for InFlight {
    type V = FlightsView;

    closed spec fn view(&self) -> FlightsView {
        FlightsView {
            tickets: Map::new(
                |k: Seq<char>|
                    exists|i: int| 0 <= i < self.flights@.len() && (#[trigger] self.flights@[i]).key@ == k,
                |k: Seq<char>|
                    self.flights@[choose|i: int|
                        0 <= i < self.flights@.len() && (#[trigger] self.flights@[i]).key@ == k].ticket,
            ),
            next: self.next,
        }
    }
}

impl InFlight {
    /// No key is listed twice.
    pub closed spec fn wf(&self) -> bool {
        forall|i: int, j: int|
            0 <= i < self.flights@.len() && 0 <= j < self.flights@.len() && i != j ==> (
            #[trigger] self.flights@[i]).key@ != (#[trigger] self.flights@[j]).key@
    }

    /// A table with nothing in flight.
    pub fn new() -> (table: InFlight)
        ensures
            table.wf(),
            table@.tickets == Map::<Seq<char>, u64>::empty(),
            table@.next == 0,
    {
        let table = InFlight { flights: Vec::new(), next: 0 };
        assert(table@.tickets =~= Map::<Seq<char>, u64>::empty());
        table
    }

    proof fn lemma_listed(&self, i: int)
        requires
            self.wf(),
            0 <= i < self.flights@.len(),
        ensures
            self@.tickets.dom().contains(self.flights@[i].key@),
            self@.tickets[self.flights@[i].key@] == self.flights@[i].ticket,
    {
        let k = self.flights@[i].key@;
        let c = choose|c: int| 0 <= c < self.flights@.len() && (#[trigger] self.flights@[c]).key@ == k;
        assert(c == i);
    }

    fn find(&self, key: &String) -> (r: Option<usize>)
        requires
            self.wf(),
        ensures
            match r {
                Some(i) => i < self.flights@.len() && self.flights@[i as int].key@ == key@
                    && self@.tickets.dom().contains(key@) && self@.tickets[key@]
                    == self.flights@[i as int].ticket,
                None => !self@.tickets.dom().contains(key@),
            },
    {
        let mut i: usize = 0;
        while i < self.flights.len()
            invariant
                i <= self.flights.len(),
                self.wf(),
                forall|j: int| 0 <= j < i ==> (#[trigger] self.flights@[j]).key@ != key@,
            decreases self.flights.len() - i,
        {
            if self.flights[i].key == *key {
                proof {
                    self.lemma_listed(i as int);
                }
                return Some(i);
            }
            i += 1;
        }
        None
    }

    /// Whether a computation for `key` is in flight.
    pub fn is_in_flight(&self, key: &str) -> (r: bool)
        requires
            self.wf(),
        ensures
            r == self@.tickets.dom().contains(key@),
    {
        let owned = key.to_owned();
        self.find(&owned).is_some()
    }

    /// Registers a caller that missed `key`.  The caller leads if no
    /// computation for `key` is in flight, and the key is then in flight
    /// under a new ticket; otherwise it follows, under the ticket of the
    /// computation in flight, and the table stays as it is.
    pub fn join(&mut self, key: &str) -> (seat: Seat)
        requires
            old(self).wf(),
        ensures
            final(self).wf(),
            seat == old(self)@.seat(key@),
            final(self)@ == old(self)@.joined(key@),
    {
        let owned = key.to_owned();
        match self.find(&owned) {
            Some(i) => Seat { role: Role::Follower, ticket: self.flights[i].ticket },
            None => {
                let ticket: u64 = self.next;
                let ghost before = *self;
                self.flights.push(Flight { key: owned, ticket });
                self.next = if ticket == u64::MAX {
                    0
                } else {
                    ticket + 1
                };
                let ghost last = before.flights@.len() as int;
                assert(self.flights@[last].key@ == key@);
                assert(self.wf());
                assert forall|k: Seq<char>|
                    self@.tickets.dom().contains(k) == before@.tickets.insert(
                        key@,
                        ticket,
                    ).dom().contains(k) by {
                    if before@.tickets.dom().contains(k) {
                        let i = choose|i: int|
                            0 <= i < before.flights@.len() && (#[trigger] before.flights@[i]).key@
                                == k;
                        assert(self.flights@[i].key@ == k);
                    }
                    if self@.tickets.dom().contains(k) && k != key@ {
                        let i = choose|i: int|
                            0 <= i < self.flights@.len() && (#[trigger] self.flights@[i]).key@ == k;
                        assert(before.flights@[i].key@ == k);
                    }
                }
                assert forall|k: Seq<char>| self@.tickets.dom().contains(k) implies self@.tickets[k]
                    == before@.tickets.insert(key@, ticket)[k] by {
                    let i = choose|i: int|
                        0 <= i < self.flights@.len() && (#[trigger] self.flights@[i]).key@ == k;
                    self.lemma_listed(i);
                    if i < last {
                        assert(before.flights@[i] == self.flights@[i]);
                        before.lemma_listed(i);
                    }
                }
                assert(self@.tickets =~= before@.tickets.insert(key@, ticket));
                Seat { role: Role::Leader, ticket }
            },
        }
    }

    /// Clears `key` once its computation has ended, whether it succeeded or
    /// failed.  The next caller that misses the key leads again.
    pub fn settle(&mut self, key: &str)
        requires
            old(self).wf(),
        ensures
            final(self).wf(),
            final(self)@ == old(self)@.settled(key@),
    {
        let owned = key.to_owned();
        match self.find(&owned) {
            Some(i) => {
                let ghost before = *self;
                self.flights.remove(i);
                assert(self.wf());
                assert forall|k: Seq<char>|
                    self@.tickets.dom().contains(k) == before@.tickets.remove(key@).dom().contains(
                        k,
                    ) by {
                    if before@.tickets.dom().contains(k) && k != key@ {
                        let j = choose|j: int|
                            0 <= j < before.flights@.len() && (#[trigger] before.flights@[j]).key@
                                == k;
                        if j < i {
                            assert(self.flights@[j].key@ == k);
                        } else {
                            assert(self.flights@[j - 1].key@ == k);
                        }
                    }
                    if self@.tickets.dom().contains(k) {
                        let j = choose|j: int|
                            0 <= j < self.flights@.len() && (#[trigger] self.flights@[j]).key@ == k;
                        if j < i {
                            assert(before.flights@[j].key@ == k);
                        } else {
                            assert(before.flights@[j + 1].key@ == k);
                        }
                    }
                }
                assert forall|k: Seq<char>| self@.tickets.dom().contains(k) implies self@.tickets[k]
                    == before@.tickets.remove(key@)[k] by {
                    let j = choose|j: int|
                        0 <= j < self.flights@.len() && (#[trigger] self.flights@[j]).key@ == k;
                    self.lemma_listed(j);
                    if j < i {
                        assert(before.flights@[j] == self.flights@[j]);
                        before.lemma_listed(j);
                    } else {
                        assert(before.flights@[j + 1] == self.flights@[j]);
                        before.lemma_listed(j + 1);
                    }
                }
                assert(self@.tickets =~= before@.tickets.remove(key@));
            },
            None => {
                assert(self@.tickets =~= old(self)@.tickets.remove(key@));
            },
        }
    }
}

/// After the first of a run of callers for a key, the key is in flight under
/// the ticket that the first caller was given.
pub proof fn lemma_key_stays_in_flight(table: FlightsView, key: Seq<char>, n: nat)
    requires
        n >= 1,
    ensures
        table.joined_times(key, n).tickets.dom().contains(key),
        table.joined_times(key, n).tickets[key] == table.seat(key).ticket,
    decreases n,
{
    if n == 1 {
        assert(table.joined_times(key, 0) == table);
    } else {
        lemma_key_stays_in_flight(table, key, (n - 1) as nat);
    }
}

/// Compute once: of any number of callers that arrive in a row for a key that
/// is not in flight, the first leads and every other follows, and all of them
/// hold the ticket of the same computation.
pub proof fn lemma_compute_once(table: FlightsView, key: Seq<char>, before: nat)
    requires
        !table.tickets.dom().contains(key),
    ensures
        table.nth_seat(key, before).role == Role::Leader <==> before == 0,
        table.nth_seat(key, before).ticket == table.nth_seat(key, 0).ticket,
{
    if before > 0 {
        lemma_key_stays_in_flight(table, key, before);
    }
}

/// Once a key has been settled the next caller that misses it leads again.
pub proof fn lemma_settled_key_leads(table: FlightsView, key: Seq<char>)
    ensures
        table.settled(key).seat(key).role == Role::Leader,
{
}

} // verus!
