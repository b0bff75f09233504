//! A ghost transition system of the bakery protocol under sequential
//! consistency.
//!
//! Each thread advances through the same steps the executable lock performs,
//! one shared-memory access per transition: announce `choosing`, scan the
//! ticket cells one at a time, publish one past the maximum read, withdraw
//! `choosing`, then for every peer in order first observe its `choosing`
//! flag down and then poll its ticket gate; finally enter, and release by
//! zeroing the own ticket. A scan may also be abandoned (the executable
//! overflow drain), which keeps the own ticket at zero and withdraws the
//! flag.
//!
//! The interleaving of transitions is arbitrary and the participant count is
//! any `n >= 1`, so the invariant proved inductive here covers every
//! schedule. Sequential consistency is the memory model that the executable
//! lock's fences -- F1, F2 and the acquire fences of the wait loop -- restore
//! for the accesses modeled here; the store-buffering reorderings they rule
//! out are documented at the fences themselves.

use vstd::prelude::*;

use crate::order::pair_lt;

verus! {

/// Where one thread stands in the protocol.
pub enum Phase {
    /// Not contending: flag down, ticket zero.
    Idle,
    /// Drawing a ticket: `choosing` announced, the ticket cells of threads
    /// `[0, done)` read one at a time, `seen` the maximum read so far.
    Scan { done: int, seen: nat },
    /// Ticket published, `choosing` still announced.
    Ticketed,
    /// Waiting for peer `at`'s `choosing` flag to drop; `at` counts up to
    /// the participant count, skipping the thread itself.
    WaitFlag { at: int },
    /// Peer `at`'s flag observed down; polling its ticket gate.
    WaitTurn { at: int },
    /// Inside the critical section.
    Crit,
}

/// The entire shared state: one flag, one ticket and one phase per thread.
pub struct Model {
    pub n: int,
    pub choosing: Seq<bool>,
    pub ticket: Seq<nat>,
    pub phase: Seq<Phase>,
}

/// The three sequences cover exactly the `n` participants.
pub open spec fn wf(s: Model) -> bool {
    &&& s.choosing.len() == s.n
    &&& s.ticket.len() == s.n
    &&& s.phase.len() == s.n
}

/// A fresh lock: every thread idle, no flags, no tickets.
pub open spec fn init(s: Model) -> bool {
    &&& wf(s)
    &&& forall|i: int| 0 <= i < s.n ==> #[trigger] s.phase[i] is Idle
    &&& forall|i: int| 0 <= i < s.n ==> !(#[trigger] s.choosing[i])
    &&& forall|i: int| 0 <= i < s.n ==> #[trigger] s.ticket[i] == 0
}

/// Thread `i` announces `choosing` and starts a scan.
pub open spec fn step_begin(pre: Model, post: Model, i: int) -> bool {
    &&& wf(pre)
    &&& 0 <= i < pre.n
    &&& pre.phase[i] is Idle
    &&& post == (Model {
        n: pre.n,
        choosing: pre.choosing.update(i, true),
        ticket: pre.ticket,
        phase: pre.phase.update(i, Phase::Scan { done: 0, seen: 0 }),
    })
}

/// Thread `i` reads one more ticket cell into its running maximum.
pub open spec fn step_scan_one(pre: Model, post: Model, i: int) -> bool {
    &&& wf(pre)
    &&& 0 <= i < pre.n
    &&& match pre.phase[i] {
        Phase::Scan { done, seen } => {
            &&& 0 <= done < pre.n
            &&& post == (Model {
                n: pre.n,
                choosing: pre.choosing,
                ticket: pre.ticket,
                phase: pre.phase.update(
                    i,
                    Phase::Scan {
                        done: done + 1,
                        seen: if pre.ticket[done] > seen {
                            pre.ticket[done]
                        } else {
                            seen
                        },
                    },
                ),
            })
        },
        _ => false,
    }
}

/// Thread `i` abandons its scan and withdraws the flag: the executable
/// overflow drain, which leaves the ticket at zero and retries later.
pub open spec fn step_abandon(pre: Model, post: Model, i: int) -> bool {
    &&& wf(pre)
    &&& 0 <= i < pre.n
    &&& pre.phase[i] is Scan
    &&& post == (Model {
        n: pre.n,
        choosing: pre.choosing.update(i, false),
        ticket: pre.ticket,
        phase: pre.phase.update(i, Phase::Idle),
    })
}

/// Thread `i`, its scan complete, publishes one past the maximum it read.
pub open spec fn step_publish(pre: Model, post: Model, i: int) -> bool {
    &&& wf(pre)
    &&& 0 <= i < pre.n
    &&& match pre.phase[i] {
        Phase::Scan { done, seen } => {
            &&& done == pre.n
            &&& post == (Model {
                n: pre.n,
                choosing: pre.choosing,
                ticket: pre.ticket.update(i, (seen + 1) as nat),
                phase: pre.phase.update(i, Phase::Ticketed),
            })
        },
        _ => false,
    }
}

/// Thread `i` withdraws its `choosing` flag and starts waiting on peers.
pub open spec fn step_withdraw(pre: Model, post: Model, i: int) -> bool {
    &&& wf(pre)
    &&& 0 <= i < pre.n
    &&& pre.phase[i] is Ticketed
    &&& post == (Model {
        n: pre.n,
        choosing: pre.choosing.update(i, false),
        ticket: pre.ticket,
        phase: pre.phase.update(i, Phase::WaitFlag { at: 0 }),
    })
}

/// Thread `i` skips the wait on its own slot.
pub open spec fn step_skip_self(pre: Model, post: Model, i: int) -> bool {
    &&& wf(pre)
    &&& 0 <= i < pre.n
    &&& match pre.phase[i] {
        Phase::WaitFlag { at } => {
            &&& at == i
            &&& post == (Model {
                n: pre.n,
                choosing: pre.choosing,
                ticket: pre.ticket,
                phase: pre.phase.update(i, Phase::WaitFlag { at: at + 1 }),
            })
        },
        _ => false,
    }
}

/// Thread `i` observes peer `at`'s `choosing` flag down.
pub open spec fn step_flag_pass(pre: Model, post: Model, i: int) -> bool {
    &&& wf(pre)
    &&& 0 <= i < pre.n
    &&& match pre.phase[i] {
        Phase::WaitFlag { at } => {
            &&& 0 <= at < pre.n
            &&& at != i
            &&& !pre.choosing[at]
            &&& post == (Model {
                n: pre.n,
                choosing: pre.choosing,
                ticket: pre.ticket,
                phase: pre.phase.update(i, Phase::WaitTurn { at }),
            })
        },
        _ => false,
    }
}

/// Thread `i` polls peer `at`'s gate and finds it open: the peer holds no
/// ticket, or a strictly worse priority pair.
pub open spec fn step_turn_pass(pre: Model, post: Model, i: int) -> bool {
    &&& wf(pre)
    &&& 0 <= i < pre.n
    &&& match pre.phase[i] {
        Phase::WaitTurn { at } => {
            &&& pre.ticket[at] == 0 || pair_lt(
                pre.ticket[i] as int,
                i,
                pre.ticket[at] as int,
                at,
            )
            &&& post == (Model {
                n: pre.n,
                choosing: pre.choosing,
                ticket: pre.ticket,
                phase: pre.phase.update(i, Phase::WaitFlag { at: at + 1 }),
            })
        },
        _ => false,
    }
}

/// Thread `i`, every peer's gate cleared, enters the critical section.
pub open spec fn step_enter(pre: Model, post: Model, i: int) -> bool {
    &&& wf(pre)
    &&& 0 <= i < pre.n
    &&& match pre.phase[i] {
        Phase::WaitFlag { at } => {
            &&& at == pre.n
            &&& post == (Model {
                n: pre.n,
                choosing: pre.choosing,
                ticket: pre.ticket,
                phase: pre.phase.update(i, Phase::Crit),
            })
        },
        _ => false,
    }
}

/// Thread `i` releases: the single store of zero into its ticket cell.
pub open spec fn step_release(pre: Model, post: Model, i: int) -> bool {
    &&& wf(pre)
    &&& 0 <= i < pre.n
    &&& pre.phase[i] is Crit
    &&& post == (Model {
        n: pre.n,
        choosing: pre.choosing,
        ticket: pre.ticket.update(i, 0),
        phase: pre.phase.update(i, Phase::Idle),
    })
}

/// One transition of one thread.
pub enum Step {
    Begin { i: int },
    ScanOne { i: int },
    Abandon { i: int },
    Publish { i: int },
    Withdraw { i: int },
    SkipSelf { i: int },
    FlagPass { i: int },
    TurnPass { i: int },
    Enter { i: int },
    Release { i: int },
}

pub open spec fn next_by(pre: Model, post: Model, step: Step) -> bool {
    match step {
        Step::Begin { i } => step_begin(pre, post, i),
        Step::ScanOne { i } => step_scan_one(pre, post, i),
        Step::Abandon { i } => step_abandon(pre, post, i),
        Step::Publish { i } => step_publish(pre, post, i),
        Step::Withdraw { i } => step_withdraw(pre, post, i),
        Step::SkipSelf { i } => step_skip_self(pre, post, i),
        Step::FlagPass { i } => step_flag_pass(pre, post, i),
        Step::TurnPass { i } => step_turn_pass(pre, post, i),
        Step::Enter { i } => step_enter(pre, post, i),
        Step::Release { i } => step_release(pre, post, i),
    }
}

/// Some thread takes some step.
pub open spec fn next(pre: Model, post: Model) -> bool {
    exists|step: Step| next_by(pre, post, step)
}

/// Thread `i` holds a published ticket.
pub open spec fn ticketed(s: Model, i: int) -> bool {
    match s.phase[i] {
        Phase::Ticketed => true,
        Phase::WaitFlag { .. } => true,
        Phase::WaitTurn { .. } => true,
        Phase::Crit => true,
        _ => false,
    }
}

/// Thread `i` has passed peer `j`'s gate in its current acquisition.
pub open spec fn passed(s: Model, i: int, j: int) -> bool {
    match s.phase[i] {
        Phase::WaitFlag { at } => j < at,
        Phase::WaitTurn { at } => j < at,
        Phase::Crit => true,
        _ => false,
    }
}

/// Thread `i` has observed peer `j`'s `choosing` flag down in its current
/// acquisition: it is polling `j`'s gate, or has already passed it.
pub open spec fn watching(s: Model, i: int, j: int) -> bool {
    passed(s, i, j) || match s.phase[i] {
        Phase::WaitTurn { at } => at == j,
        _ => false,
    }
}

/// Per-thread structure: what each phase implies of the thread's own flag,
/// ticket and progress indices.
pub open spec fn phase_inv(s: Model, i: int) -> bool {
    match s.phase[i] {
        Phase::Idle => !s.choosing[i] && s.ticket[i] == 0,
        Phase::Scan { done, seen: _ } => s.choosing[i] && s.ticket[i] == 0 && 0 <= done <= s.n,
        Phase::Ticketed => s.choosing[i] && s.ticket[i] > 0,
        Phase::WaitFlag { at } => !s.choosing[i] && s.ticket[i] > 0 && 0 <= at <= s.n,
        Phase::WaitTurn { at } => !s.choosing[i] && s.ticket[i] > 0 && 0 <= at < s.n && at != i,
        Phase::Crit => !s.choosing[i] && s.ticket[i] > 0,
    }
}

/// Once `i` has passed `j`'s gate, then as long as `j` holds a ticket, `i`
/// holds the strictly smaller priority pair.
pub open spec fn order_inv(s: Model, i: int, j: int) -> bool {
    passed(s, i, j) && ticketed(s, j) ==> pair_lt(
        s.ticket[i] as int,
        i,
        s.ticket[j] as int,
        j,
    )
}

/// Once `i` has observed `j`'s flag down, a scan by `j` that has already
/// covered slot `i` accounts for `i`'s ticket: `j` will publish a strictly
/// larger one.
pub open spec fn scan_inv(s: Model, i: int, j: int) -> bool {
    match s.phase[j] {
        Phase::Scan { done, seen } => watching(s, i, j) && done > i ==> seen >= s.ticket[i],
        _ => true,
    }
}

/// The inductive invariant.
pub open spec fn inv(s: Model) -> bool {
    &&& wf(s)
    &&& forall|i: int| 0 <= i < s.n ==> #[trigger] phase_inv(s, i)
    &&& forall|i: int, j: int| 0 <= i < s.n && 0 <= j < s.n && i != j ==> #[trigger] order_inv(
        s,
        i,
        j,
    )
    &&& forall|i: int, j: int| 0 <= i < s.n && 0 <= j < s.n && i != j ==> #[trigger] scan_inv(
        s,
        i,
        j,
    )
}

/// The invariant holds of a fresh lock.
pub proof fn lemma_init_inv(s: Model)
    requires
        init(s),
    ensures
        inv(s),
{
    assert forall|i: int| 0 <= i < s.n implies #[trigger] phase_inv(s, i) by {
        assert(s.phase[i] is Idle);
    }
    assert forall|i: int, j: int| 0 <= i < s.n && 0 <= j < s.n && i != j implies #[trigger] order_inv(
        s,
        i,
        j,
    ) by {
        assert(s.phase[i] is Idle);
    }
    assert forall|i: int, j: int| 0 <= i < s.n && 0 <= j < s.n && i != j implies #[trigger] scan_inv(
        s,
        i,
        j,
    ) by {
        assert(s.phase[j] is Idle);
    }
}

/// The invariant is preserved by every transition.
pub proof fn lemma_next_inv(pre: Model, post: Model)
    requires
        inv(pre),
        next(pre, post),
    ensures
        inv(post),
{
    let step = choose|step: Step| next_by(pre, post, step);
    match step {
        Step::Begin { i } => lemma_begin_inv(pre, post, i),
        Step::ScanOne { i } => lemma_scan_one_inv(pre, post, i),
        Step::Abandon { i } => lemma_abandon_inv(pre, post, i),
        Step::Publish { i } => lemma_publish_inv(pre, post, i),
        Step::Withdraw { i } => lemma_withdraw_inv(pre, post, i),
        Step::SkipSelf { i } => lemma_skip_self_inv(pre, post, i),
        Step::FlagPass { i } => lemma_flag_pass_inv(pre, post, i),
        Step::TurnPass { i } => lemma_turn_pass_inv(pre, post, i),
        Step::Enter { i } => lemma_enter_inv(pre, post, i),
        Step::Release { i } => lemma_release_inv(pre, post, i),
    }
}

proof fn lemma_begin_inv(pre: Model, post: Model, i: int)
    requires
        inv(pre),
        step_begin(pre, post, i),
    ensures
        inv(post),
{
    assert(phase_inv(pre, i));
    assert forall|a: int| 0 <= a < post.n implies #[trigger] phase_inv(post, a) by {
        assert(phase_inv(pre, a));
    }
    assert forall|a: int, b: int| 0 <= a < post.n && 0 <= b < post.n && a != b implies #[trigger] order_inv(
        post,
        a,
        b,
    ) by {
        assert(order_inv(pre, a, b));
    }
    assert forall|a: int, b: int| 0 <= a < post.n && 0 <= b < post.n && a != b implies #[trigger] scan_inv(
        post,
        a,
        b,
    ) by {
        assert(scan_inv(pre, a, b));
    }
}

proof fn lemma_scan_one_inv(pre: Model, post: Model, i: int)
    requires
        inv(pre),
        step_scan_one(pre, post, i),
    ensures
        inv(post),
{
    assert(phase_inv(pre, i));
    assert forall|a: int| 0 <= a < post.n implies #[trigger] phase_inv(post, a) by {
        assert(phase_inv(pre, a));
    }
    assert forall|a: int, b: int| 0 <= a < post.n && 0 <= b < post.n && a != b implies #[trigger] order_inv(
        post,
        a,
        b,
    ) by {
        assert(order_inv(pre, a, b));
    }
    assert forall|a: int, b: int| 0 <= a < post.n && 0 <= b < post.n && a != b implies #[trigger] scan_inv(
        post,
        a,
        b,
    ) by {
        assert(scan_inv(pre, a, b));
        if b == i {
            // The scanner covers one more slot; if that slot is `a`'s, the
            // running maximum now accounts for `a`'s current ticket.
            assert(phase_inv(pre, i));
        }
    }
}

proof fn lemma_abandon_inv(pre: Model, post: Model, i: int)
    requires
        inv(pre),
        step_abandon(pre, post, i),
    ensures
        inv(post),
{
    assert(phase_inv(pre, i));
    assert forall|a: int| 0 <= a < post.n implies #[trigger] phase_inv(post, a) by {
        assert(phase_inv(pre, a));
    }
    assert forall|a: int, b: int| 0 <= a < post.n && 0 <= b < post.n && a != b implies #[trigger] order_inv(
        post,
        a,
        b,
    ) by {
        assert(order_inv(pre, a, b));
    }
    assert forall|a: int, b: int| 0 <= a < post.n && 0 <= b < post.n && a != b implies #[trigger] scan_inv(
        post,
        a,
        b,
    ) by {
        assert(scan_inv(pre, a, b));
    }
}

proof fn lemma_publish_inv(pre: Model, post: Model, i: int)
    requires
        inv(pre),
        step_publish(pre, post, i),
    ensures
        inv(post),
{
    assert(phase_inv(pre, i));
    assert forall|a: int| 0 <= a < post.n implies #[trigger] phase_inv(post, a) by {
        assert(phase_inv(pre, a));
    }
    assert forall|a: int, b: int| 0 <= a < post.n && 0 <= b < post.n && a != b implies #[trigger] order_inv(
        post,
        a,
        b,
    ) by {
        assert(order_inv(pre, a, b));
        if b == i && passed(post, a, i) {
            // `a` had observed `i`'s flag down and passed its gate while
            // `i` was still scanning, so `i`'s completed scan covered slot
            // `a`: the ticket `i` publishes strictly exceeds `a`'s.
            assert(scan_inv(pre, a, i));
            assert(phase_inv(pre, a));
        }
    }
    assert forall|a: int, b: int| 0 <= a < post.n && 0 <= b < post.n && a != b implies #[trigger] scan_inv(
        post,
        a,
        b,
    ) by {
        assert(scan_inv(pre, a, b));
    }
}

proof fn lemma_withdraw_inv(pre: Model, post: Model, i: int)
    requires
        inv(pre),
        step_withdraw(pre, post, i),
    ensures
        inv(post),
{
    assert(phase_inv(pre, i));
    assert forall|a: int| 0 <= a < post.n implies #[trigger] phase_inv(post, a) by {
        assert(phase_inv(pre, a));
    }
    assert forall|a: int, b: int| 0 <= a < post.n && 0 <= b < post.n && a != b implies #[trigger] order_inv(
        post,
        a,
        b,
    ) by {
        assert(order_inv(pre, a, b));
    }
    assert forall|a: int, b: int| 0 <= a < post.n && 0 <= b < post.n && a != b implies #[trigger] scan_inv(
        post,
        a,
        b,
    ) by {
        assert(scan_inv(pre, a, b));
    }
}

proof fn lemma_skip_self_inv(pre: Model, post: Model, i: int)
    requires
        inv(pre),
        step_skip_self(pre, post, i),
    ensures
        inv(post),
{
    assert(phase_inv(pre, i));
    assert forall|a: int| 0 <= a < post.n implies #[trigger] phase_inv(post, a) by {
        assert(phase_inv(pre, a));
    }
    assert forall|a: int, b: int| 0 <= a < post.n && 0 <= b < post.n && a != b implies #[trigger] order_inv(
        post,
        a,
        b,
    ) by {
        assert(order_inv(pre, a, b));
    }
    assert forall|a: int, b: int| 0 <= a < post.n && 0 <= b < post.n && a != b implies #[trigger] scan_inv(
        post,
        a,
        b,
    ) by {
        assert(scan_inv(pre, a, b));
    }
}

proof fn lemma_flag_pass_inv(pre: Model, post: Model, i: int)
    requires
        inv(pre),
        step_flag_pass(pre, post, i),
    ensures
        inv(post),
{
    assert(phase_inv(pre, i));
    assert forall|a: int| 0 <= a < post.n implies #[trigger] phase_inv(post, a) by {
        assert(phase_inv(pre, a));
    }
    assert forall|a: int, b: int| 0 <= a < post.n && 0 <= b < post.n && a != b implies #[trigger] order_inv(
        post,
        a,
        b,
    ) by {
        assert(order_inv(pre, a, b));
    }
    assert forall|a: int, b: int| 0 <= a < post.n && 0 <= b < post.n && a != b implies #[trigger] scan_inv(
        post,
        a,
        b,
    ) by {
        assert(scan_inv(pre, a, b));
        if a == i {
            // `i` begins watching peer `at` just as it observed the flag
            // down, and a scanning thread holds its flag up, so `at` is not
            // scanning now: nothing new to account for.
            assert(phase_inv(pre, b));
        }
    }
}

proof fn lemma_turn_pass_inv(pre: Model, post: Model, i: int)
    requires
        inv(pre),
        step_turn_pass(pre, post, i),
    ensures
        inv(post),
{
    assert(phase_inv(pre, i));
    assert forall|a: int| 0 <= a < post.n implies #[trigger] phase_inv(post, a) by {
        assert(phase_inv(pre, a));
    }
    assert forall|a: int, b: int| 0 <= a < post.n && 0 <= b < post.n && a != b implies #[trigger] order_inv(
        post,
        a,
        b,
    ) by {
        assert(order_inv(pre, a, b));
        if a == i && !passed(pre, i, b) && passed(post, i, b) {
            // The slot just polled was `b`'s: it held no ticket, or `i`'s
            // pair is strictly smaller; a ticket `b` holds now it already
            // held then.
            assert(phase_inv(pre, b));
        }
    }
    assert forall|a: int, b: int| 0 <= a < post.n && 0 <= b < post.n && a != b implies #[trigger] scan_inv(
        post,
        a,
        b,
    ) by {
        assert(scan_inv(pre, a, b));
    }
}

proof fn lemma_enter_inv(pre: Model, post: Model, i: int)
    requires
        inv(pre),
        step_enter(pre, post, i),
    ensures
        inv(post),
{
    assert(phase_inv(pre, i));
    assert forall|a: int| 0 <= a < post.n implies #[trigger] phase_inv(post, a) by {
        assert(phase_inv(pre, a));
    }
    assert forall|a: int, b: int| 0 <= a < post.n && 0 <= b < post.n && a != b implies #[trigger] order_inv(
        post,
        a,
        b,
    ) by {
        assert(order_inv(pre, a, b));
    }
    assert forall|a: int, b: int| 0 <= a < post.n && 0 <= b < post.n && a != b implies #[trigger] scan_inv(
        post,
        a,
        b,
    ) by {
        assert(scan_inv(pre, a, b));
    }
}

proof fn lemma_release_inv(pre: Model, post: Model, i: int)
    requires
        inv(pre),
        step_release(pre, post, i),
    ensures
        inv(post),
{
    assert(phase_inv(pre, i));
    assert forall|a: int| 0 <= a < post.n implies #[trigger] phase_inv(post, a) by {
        assert(phase_inv(pre, a));
    }
    assert forall|a: int, b: int| 0 <= a < post.n && 0 <= b < post.n && a != b implies #[trigger] order_inv(
        post,
        a,
        b,
    ) by {
        assert(order_inv(pre, a, b));
    }
    assert forall|a: int, b: int| 0 <= a < post.n && 0 <= b < post.n && a != b implies #[trigger] scan_inv(
        post,
        a,
        b,
    ) by {
        assert(scan_inv(pre, a, b));
    }
}

/// A finite execution: a first state satisfying `init`, each later state
/// reached from its predecessor by one transition of one thread.
pub open spec fn is_trace(t: Seq<Model>) -> bool {
    &&& t.len() > 0
    &&& init(t[0])
    &&& forall|k: int| 0 <= k < t.len() - 1 ==> #[trigger] next(t[k], t[k + 1])
}

/// Every state of every execution satisfies the invariant, so the theorems
/// below hold in every reachable state.
pub proof fn lemma_trace_inv(t: Seq<Model>, k: int)
    requires
        is_trace(t),
        0 <= k < t.len(),
    ensures
        inv(t[k]),
    decreases k,
{
    if k == 0 {
        lemma_init_inv(t[0]);
    } else {
        lemma_trace_inv(t, k - 1);
        assert(next(t[k - 1], t[k - 1 + 1]));
        lemma_next_inv(t[k - 1], t[k]);
    }
}

/// Mutual exclusion: in no state satisfying the invariant -- hence in no
/// reachable state, for any participant count and any interleaving -- are
/// two distinct threads inside the critical section together.
pub proof fn lemma_mutual_exclusion(s: Model, a: int, b: int)
    requires
        inv(s),
        0 <= a < s.n,
        0 <= b < s.n,
        a != b,
    ensures
        !(s.phase[a] is Crit && s.phase[b] is Crit),
{
    if s.phase[a] is Crit && s.phase[b] is Crit {
        assert(order_inv(s, a, b));
        assert(order_inv(s, b, a));
    }
}

/// The progress core of eventual entry: a contender holding the minimal
/// priority pair among all ticket holders finds every slot's turn poll
/// open, so once its peers' `choosing` flags are down nothing blocks it
/// from entering. A raised flag is lowered by its owner after finitely
/// many of that owner's own steps (every `Scan` phase reaches `Ticketed`
/// or abandons); that a fair scheduler grants those steps is the liveness
/// assumption that stays informal here.
pub proof fn lemma_minimal_contender_passes_turns(s: Model, i: int)
    requires
        inv(s),
        0 <= i < s.n,
        ticketed(s, i),
        forall|j: int|
            0 <= j < s.n && j != i && #[trigger] ticketed(s, j) ==> pair_lt(
                s.ticket[i] as int,
                i,
                s.ticket[j] as int,
                j,
            ),
    ensures
        forall|j: int|
            0 <= j < s.n && j != i ==> s.ticket[j] == 0 || pair_lt(
                s.ticket[i] as int,
                i,
                s.ticket[j] as int,
                j,
            ),
{
    assert forall|j: int| 0 <= j < s.n && j != i && s.ticket[j] != 0 implies pair_lt(
        s.ticket[i] as int,
        i,
        s.ticket[j] as int,
        j,
    ) by {
        assert(phase_inv(s, j));
        assert(ticketed(s, j));
    }
}

/// Priority ordering: while `a` holds the strictly smaller ticket, `b` has
/// not passed `a`'s gate -- in particular `b` is not in the critical
/// section. Tickets observed as ordered are honored in order.
pub proof fn lemma_priority_respected(s: Model, a: int, b: int)
    requires
        inv(s),
        0 <= a < s.n,
        0 <= b < s.n,
        a != b,
        ticketed(s, a),
        ticketed(s, b),
        s.ticket[a] < s.ticket[b],
    ensures
        !passed(s, b, a),
        !(s.phase[b] is Crit),
{
    assert(order_inv(s, b, a));
}

} // verus!

