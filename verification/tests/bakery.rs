use bakery::lock::next_ticket;
use bakery::lock::RawBakeryLock;
use bakery::order::gate_check;

/// Blocks (spins) until exclusive entry is granted for `thread`: the
/// unbounded retry and per-peer wait loops around the library's bounded
/// protocol steps. Returns the ticket drawn.
fn acquire(lock: &RawBakeryLock, thread: usize) -> u32 {
    let n = lock.participant_count();
    assert!(thread < n);
    let ticket = loop {
        if let Some(t) = lock.draw_ticket(thread).0 {
            break t;
        }
        std::hint::spin_loop();
    };
    for other in 0..n {
        if other != thread {
            while !lock.peer_gate_open(ticket, thread, other).0 {
                std::hint::spin_loop();
            }
        }
    }
    ticket
}

#[test]
fn fresh_lock_grants_first_ticket() {
    let lock = RawBakeryLock::new(3);
    assert_eq!(lock.participant_count(), 3);
    // All tickets are zero, so the scan maximum is 0 and the ticket is 1.
    let ticket = acquire(&lock, 0);
    assert_eq!(ticket, 1);
    lock.unlock(0);
}

#[test]
fn entry_follows_ticket_order() {
    let lock = RawBakeryLock::new(2);
    let first = acquire(&lock, 0);
    assert_eq!(first, 1);
    // A contender drawing while the owner holds ticket 1 draws 2 and its
    // gate against the owner stays shut.
    let second = lock.draw_ticket(1).0.expect("ticket range is nowhere near full");
    assert_eq!(second, 2);
    assert!(!lock.peer_gate_open(second, 1, 0).0);
    // Release lets the contender past: the owner's ticket cell returns to 0.
    lock.unlock(0);
    assert!(lock.peer_gate_open(second, 1, 0).0);
    lock.unlock(1);
}

#[test]
fn counter_intact_over_sequential_turnover() {
    let participants = 5;
    let rounds = 100;
    let lock = RawBakeryLock::new(participants);
    let mut counter = 0u64;
    for _ in 0..rounds {
        for id in 0..participants {
            acquire(&lock, id);
            counter += 1;
            lock.unlock(id);
        }
    }
    assert_eq!(counter, (participants as u64) * rounds);
}

#[test]
fn ticket_overflow_is_rejected_not_wrapped() {
    assert_eq!(next_ticket(0), Some(1));
    assert_eq!(next_ticket(41), Some(42));
    assert_eq!(next_ticket(u32::MAX - 1), Some(u32::MAX));
    assert_eq!(next_ticket(u32::MAX), None);
}

#[test]
fn gate_decision_table() {
    // A peer without a ticket never blocks.
    assert!(gate_check(1, 0, 0, 1));
    assert!(gate_check(u32::MAX, 9, 0, 0));
    // Strictly smaller tickets pass; strictly larger ones wait.
    assert!(gate_check(1, 1, 2, 0));
    assert!(!gate_check(2, 0, 1, 1));
    // Equal tickets fall back to the thread identity.
    assert!(gate_check(5, 0, 5, 1));
    assert!(!gate_check(5, 1, 5, 0));
}

#[test]
fn gate_never_opens_both_ways() {
    // Pairwise mutual exclusion on concrete contenders: of two nonzero
    // tickets, exactly one side's gate is open.
    let pairs = [(1u32, 0usize, 1u32, 1usize), (3, 1, 2, 0), (7, 4, 7, 3), (2, 0, 9, 1)];
    for (ta, a, tb, b) in pairs {
        assert_ne!(gate_check(ta, a, tb, b), gate_check(tb, b, ta, a));
    }
}

#[test]
fn reentry_is_unsupported_not_detected() {
    // Acquiring twice with the same identity and no release in between is
    // documented as unsupported: nothing rejects it, the second draw simply
    // overwrites the held ticket. Uncontended it even returns; under
    // contention the self-overwritten ticket forfeits the held priority.
    let lock = RawBakeryLock::new(2);
    let first = acquire(&lock, 0);
    assert_eq!(first, 1);
    let second = acquire(&lock, 0);
    assert_eq!(second, 2);
    lock.unlock(0);
    // The single release already frees the lock for the peer.
    let peer = acquire(&lock, 1);
    assert_eq!(peer, 1);
    lock.unlock(1);
}
