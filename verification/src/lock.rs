//! The bakery lock: two fixed-size arrays of per-thread atomic cells and the
//! protocol steps that operate on them.
//!
//! Slot `i` of each array belongs to thread identity `i`: it is written only
//! by that thread and read by all, which is what makes plain relaxed loads
//! and stores (rather than compare-and-exchange) sufficient. All waiting is
//! busy-polling, and an unbounded spin admits no termination measure, so the
//! blocking acquire is split into bounded, verified steps that a caller
//! drives in a spin loop:
//!
//! - repeat [`RawBakeryLock::draw_ticket`] (yielding between attempts) until
//!   it yields a ticket;
//! - for every other identity `o` in order, repeat
//!   [`RawBakeryLock::peer_gate_open`] (spinning between polls) until its
//!   boolean is true;
//! - the critical section is then exclusively held, until
//!   [`RawBakeryLock::unlock`].
//!
//! Reacquiring while already holding the lock is unsupported: a second
//! `draw_ticket` by the same identity overwrites the held ticket, and nothing
//! detects or rejects it.

use core::sync::atomic::AtomicBool;
use core::sync::atomic::AtomicU32;
use core::sync::atomic::Ordering;
use vstd::prelude::*;

use crate::order::gate_check;
use crate::order::gate_open;
use crate::order::seq_max;

verus! {

/// Relies on core::sync::atomic::fence: it constrains the ordering of
/// surrounding memory operations, computes nothing and returns nothing. It
/// panics on `Ordering::Relaxed` (a relaxed fence is meaningless), so that
/// ordering is excluded here; every fence of this lock is sequentially
/// consistent or acquire.
pub assume_specification [ core::sync::atomic::fence ](order: Ordering)
    requires
        !(order is Relaxed),
;

/// Sequentially-consistent fence F1, issued between announcing `choosing`
/// and scanning the tickets. It closes the `write(choosing) -> read(ticket)`
/// program-order edge of the store-buffering cycle in which two threads each
/// miss the other's `choosing` store, each conclude they hold the lowest
/// priority pair, and both enter the critical section.
pub fn sc_fence_1() {
    core::sync::atomic::fence(Ordering::SeqCst);
}

/// Sequentially-consistent fence F2, issued between publishing the ticket
/// and withdrawing `choosing`. It closes the `read(choosing) -> write(ticket)`
/// edge of the same store-buffering cycle, and synchronizes-with the acquire
/// fence a waiting peer issues after observing `choosing` go false, so that
/// the freshly published ticket is visible to that peer.
pub fn sc_fence_2() {
    core::sync::atomic::fence(Ordering::SeqCst);
}

/// The candidate ticket drawn from a scan: one past the largest ticket
/// observed, or nothing when that would overflow the ticket range.
pub fn next_ticket(max_existing: u32) -> (r: Option<u32>)
    ensures
        max_existing < u32::MAX ==> r == Some((max_existing + 1) as u32),
        max_existing == u32::MAX ==> r is None,
{
    max_existing.checked_add(1)
}

/// A fixed-capacity bakery lock. `choosing[i]` is true while thread `i` is
/// computing a ticket; `ticket[i]` is 0 while thread `i` is not contending,
/// and its current priority number otherwise.
pub struct RawBakeryLock {
    choosing: Vec<AtomicBool>,
    ticket: Vec<AtomicU32>,
}

impl RawBakeryLock {
    /// The fixed participant count the lock was built for: thread identities
    /// range over `0..participants()`.
    pub closed spec fn participants(&self) -> nat {
        self.ticket@.len()
    }

    /// Both per-thread arrays cover exactly the participants.
    pub closed spec fn wf(&self) -> bool {
        self.choosing@.len() == self.ticket@.len()
    }

    /// The participant count, for the caller driving the acquire steps.
    pub fn participant_count(&self) -> (n: usize)
        ensures
            n == self.participants(),
    {
        self.ticket.len()
    }

    /// A fresh lock for `n` participants: every `choosing[i]` false, every
    /// `ticket[i]` zero.
    pub fn new(n: usize) -> (lock: Self)
        ensures
            lock.wf(),
            lock.participants() == n,
    {
        let mut choosing: Vec<AtomicBool> = Vec::new();
        let mut ticket: Vec<AtomicU32> = Vec::new();
        let mut i: usize = 0;
        while i < n
            invariant
                i <= n,
                choosing@.len() == i,
                ticket@.len() == i,
            decreases n - i,
        {
            choosing.push(AtomicBool::new(false));
            ticket.push(AtomicU32::new(0));
            i = i + 1;
        }
        RawBakeryLock { choosing, ticket }
    }

    /// One attempt to draw a ticket: announce `choosing`, issue fence F1,
    /// scan every ticket cell once for the maximum, and either publish one
    /// past that maximum as this thread's ticket (fence F2, withdraw the
    /// flag) or, when the ticket range would overflow, withdraw the flag and
    /// return nothing. Returning without a ticket drains this thread out of
    /// contention so that the waiting threads can enter, release, and reset
    /// tickets toward zero by normal turnover; the caller yields and retries.
    /// A returned ticket is nonzero and stands until [`Self::unlock`].
    ///
    /// Beside the result stands (ghost) the scan as observed, one value per
    /// slot, and the contract fixes the result against it: a ticket is drawn
    /// exactly when the observed maximum leaves room, and is exactly one
    /// past it -- hence, by `lemma_observed_ticket_honored`, strictly above
    /// every ticket the scan saw.
    pub fn draw_ticket(&self, thread: usize) -> (r: (Option<u32>, Ghost<Seq<u32>>))
        requires
            self.wf(),
            thread < self.participants(),
        ensures
            r.1@.len() == self.participants(),
            seq_max(r.1@) < u32::MAX ==> r.0 == Some((seq_max(r.1@) + 1) as u32),
            seq_max(r.1@) == u32::MAX ==> r.0 is None,
            r.0 matches Some(t) ==> t >= 1,
    {
        let n = self.ticket.len();
        self.choosing[thread].store(true, Ordering::Relaxed);
        sc_fence_1();
        let mut max_existing: u32 = 0;
        let mut i: usize = 0;
        let ghost mut observed: Seq<u32> = Seq::empty();
        while i < n
            invariant
                i <= n,
                n == self.ticket@.len(),
                observed.len() == i,
                max_existing == seq_max(observed),
            decreases n - i,
        {
            let t = self.ticket[i].load(Ordering::Relaxed);
            proof {
                let scanned = observed.push(t);
                assert(scanned.drop_last() =~= observed);
                observed = scanned;
            }
            if t > max_existing {
                max_existing = t;
            }
            i = i + 1;
        }
        match next_ticket(max_existing) {
            Some(ticket) => {
                self.ticket[thread].store(ticket, Ordering::Relaxed);
                sc_fence_2();
                self.choosing[thread].store(false, Ordering::Relaxed);
                (Some(ticket), Ghost(observed))
            },
            None => {
                self.choosing[thread].store(false, Ordering::Relaxed);
                (None, Ghost(observed))
            },
        }
    }

    /// One non-blocking poll of peer `other`'s gate (the body of the wait
    /// loop), for a caller holding the published nonzero `my_ticket`. The
    /// boolean is true when, in this poll, the peer was not choosing and --
    /// after an acquire fence pairing with the peer's fence F2 -- its ticket
    /// cell held 0 or a strictly worse priority pair than
    /// `(my_ticket, thread)`. The caller spins on false, and moves to the
    /// next peer on true; after every peer's gate has opened the critical
    /// section is held. A poll whose boolean is true ends with a further
    /// acquire fence, so the last successful poll synchronizes-with the
    /// release stores of the threads whose zeroed tickets were observed, and
    /// the new owner sees all writes of the critical sections that preceded
    /// its entry.
    ///
    /// Beside the boolean stands (ghost) the peer ticket observed in this
    /// poll -- nothing when the peer's raised flag cut the poll short -- and
    /// the contract fixes the boolean against it: true exactly when a ticket
    /// was observed and opened the wait-loop gate.
    pub fn peer_gate_open(&self, my_ticket: u32, thread: usize, other: usize) -> (r: (
        bool,
        Ghost<Option<u32>>,
    ))
        requires
            self.wf(),
            thread < self.participants(),
            other < self.participants(),
            other != thread,
            my_ticket >= 1,
        ensures
            r.0 == (r.1@ matches Some(w) && gate_open(my_ticket, thread, w, other)),
    {
        if self.choosing[other].load(Ordering::Relaxed) {
            return (false, Ghost(None));
        }
        // Synchronizes-with fence F2 of `other`, so the ticket read below
        // sees the value published before `choosing[other]` went false.
        core::sync::atomic::fence(Ordering::Acquire);
        let other_ticket = self.ticket[other].load(Ordering::Relaxed);
        let open = gate_check(my_ticket, thread, other_ticket, other);
        if open {
            // Synchronizes-with the release stores of previous owners whose
            // tickets were observed as 0.
            core::sync::atomic::fence(Ordering::Acquire);
        }
        (open, Ghost(Some(other_ticket)))
    }

    /// Releases the critical section: the single release store of 0 into the
    /// owner's ticket cell. It synchronizes-with the acquire fence the next
    /// owner issues on its last successful poll, establishing happens-before
    /// from the outgoing critical section to the incoming one. Must be called
    /// by the thread that acquired, exactly once per acquisition.
    pub fn unlock(&self, thread: usize)
        requires
            self.wf(),
            thread < self.participants(),
    {
        self.ticket[thread].store(0, Ordering::Release);
    }
}

} // verus!
