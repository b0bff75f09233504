//! A fixed-capacity bakery (Lamport) mutual-exclusion lock for `n` cooperating
//! threads, built from plain relaxed atomic loads and stores plus explicit
//! memory fences -- no compare-and-exchange, no blocking OS primitives.
//!
//! `lock` holds the lock itself: per-thread `choosing` flags and `ticket`
//! cells, the bounded protocol steps that draw a ticket and poll a peer's
//! gate, and the release store. `order` defines the priority order the
//! protocol is built on and proves its pairwise laws. `model` is a ghost
//! transition system of the whole protocol under sequential consistency,
//! with an inductive invariant that yields mutual exclusion and ticket-order
//! priority over every interleaving.

pub mod lock;
pub mod model;
pub mod order;
