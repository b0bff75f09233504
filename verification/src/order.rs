//! The priority order of the bakery protocol.
//!
//! A contending thread draws an integer ticket; entry to the critical section
//! goes to the lexicographically smallest pair `(ticket, thread identity)`
//! among the contenders. A ticket of 0 means "not contending". This module
//! states that order, gives the executable gate decision the wait loop polls,
//! and proves the pairwise laws the protocol's correctness rests on.

use vstd::prelude::*;

verus! {

/// Strict lexicographic order on `(ticket, thread identity)` pairs.
pub open spec fn pair_lt(t1: int, i1: int, t2: int, i2: int) -> bool {
    t1 < t2 || (t1 == t2 && i1 < i2)
}

/// The wait-loop gate: the calling thread, holding nonzero `my_ticket`, may
/// move past peer `other_id` exactly when the peer holds no ticket or a
/// strictly worse (lexicographically greater) priority pair.
pub open spec fn gate_open(my_ticket: u32, my_id: usize, other_ticket: u32, other_id: usize) -> bool {
    other_ticket == 0 || pair_lt(
        my_ticket as int,
        my_id as int,
        other_ticket as int,
        other_id as int,
    )
}

/// Executable form of the wait-loop decision, applied to one observed peer ticket.
pub fn gate_check(my_ticket: u32, my_id: usize, other_ticket: u32, other_id: usize) -> (r: bool)
    ensures
        r == gate_open(my_ticket, my_id, other_ticket, other_id),
{
    other_ticket == 0 || my_ticket < other_ticket || (my_ticket == other_ticket && my_id
        < other_id)
}

/// The largest ticket among those a scan observed; 0 for an empty scan.
pub open spec fn seq_max(s: Seq<u32>) -> u32
    decreases s.len(),
{
    if s.len() == 0 {
        0u32
    } else if s.last() > seq_max(s.drop_last())  {
        s.last()
    } else {
        seq_max(s.drop_last())
    }
}

/// Every observed ticket is bounded by the scan maximum.
pub proof fn lemma_seq_max_bounds(s: Seq<u32>)
    ensures
        forall|k: int| 0 <= k < s.len() ==> s[k] <= seq_max(s),
    decreases s.len(),
{
    if s.len() > 0 {
        lemma_seq_max_bounds(s.drop_last());
        assert forall|k: int| 0 <= k < s.len() implies s[k] <= seq_max(s) by {
            if k < s.len() - 1 {
                assert(s[k] == s.drop_last()[k]);
            }
        }
    }
}

/// Mutual exclusion, pairwise core: of two distinct contenders that both hold
/// nonzero tickets, exactly one has the open gate against the other. Two
/// threads can therefore never both clear each other's wait loops.
pub proof fn lemma_gate_exclusive(ta: u32, a: usize, tb: u32, b: usize)
    requires
        a != b,
        ta != 0,
        tb != 0,
    ensures
        gate_open(ta, a, tb, b) <==> !gate_open(tb, b, ta, a),
{
}

/// Priority ordering: a strictly smaller nonzero ticket has the open gate,
/// and the larger ticket's gate stays shut, whatever the thread identities.
pub proof fn lemma_smaller_ticket_precedes(ta: u32, a: usize, tb: u32, b: usize)
    requires
        0 < ta < tb,
    ensures
        gate_open(ta, a, tb, b),
        !gate_open(tb, b, ta, a),
{
}

/// A ticket drawn as one past the scan maximum strictly exceeds every ticket
/// the scan observed: a thread that saw an earlier contender's ticket yields
/// to it.
pub proof fn lemma_fresh_ticket_exceeds(s: Seq<u32>, k: int)
    requires
        0 <= k < s.len(),
        seq_max(s) < u32::MAX,
    ensures
        seq_max(s) + 1 > s[k],
{
    lemma_seq_max_bounds(s);
}

/// Tickets observed as ordered are honored in order: when a scan observed
/// the nonzero ticket `s[k]` of thread `a` in slot `k`, the ticket drawn
/// from that scan -- one past its maximum, as the drawing step ensures --
/// strictly exceeds it; thread `a`'s gate against the drawer is then open,
/// while the drawer's gate against `a` stays shut until `a`'s ticket cell
/// returns to zero.
pub proof fn lemma_observed_ticket_honored(s: Seq<u32>, k: int, a: usize, b: usize)
    requires
        0 <= k < s.len(),
        s[k] >= 1,
        seq_max(s) < u32::MAX,
    ensures
        seq_max(s) + 1 > s[k],
        gate_open(s[k], a, (seq_max(s) + 1) as u32, b),
        !gate_open((seq_max(s) + 1) as u32, b, s[k], a),
{
    lemma_seq_max_bounds(s);
    lemma_smaller_ticket_precedes(s[k], a, (seq_max(s) + 1) as u32, b);
}

} // verus!
