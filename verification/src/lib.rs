//! A work-stealing task scheduler: a pool of workers cooperatively executes a
//! stream of independent, variable-cost tasks.  Each worker prefers its own
//! local queue, falls back to a shared global queue, and steals from peers
//! when idle.  Shutdown flips a one-way flag, after which workers drain the
//! work that is already visible to them and then stop.
//!
//! The scheduler core in [`scheduler`] is a deterministic model with full
//! functional contracts: it proves that every accepted task is executed
//! exactly once, that draining loses nothing, and that shutdown is
//! idempotent.  The [`stealing`] module wires the same worker discipline to
//! `crossbeam`'s concurrent deques so that an embedding program can run the
//! loop on real threads.
//!
//! Beside the scheduler stand a few smaller verified components in the same
//! spirit: builders with typestate ([`builder`]), a document workflow and a
//! connection lifecycle ([`lifecycle`]), an order domain model ([`orders`]),
//! and a user store ([`users`]), each with exact contracts.

pub mod builder;
pub mod cache;
pub mod config;
pub mod editing;
pub mod global_queue;
pub mod lifecycle;
pub mod local_queue;
pub mod orders;
pub mod scheduler;
pub mod settings;
pub mod stealing;
pub mod task;
pub mod users;
pub mod worker;
