//! A FIFO queue whose writers and readers coordinate through three cursors:
//! `write_reserved` (slots claimed for writing), `written` (slots published
//! to readers) and `popped` (slots claimed for reading).
//!
//! * `write_permit`: what a writer may do with its reservation, given the
//!   store's capacity.
//! * `protocol`: the decisions of readers and writers on the cursors' values.
//! * `queue`: the queue itself, over a store of slots that grows by doubling
//!   fragments.
//! * `interleaving`: the cursors with writers and readers in flight, each
//!   atomic step as a transition, and what every interleaving keeps.
//! * `trace`: runs of operations as values, and what any run conserves.
//! * `state`, `atomic_utils`: counters for queues whose readers decrement a
//!   signed length, and compare-and-exchange helpers.

mod atomic_utils;
mod interleaving;
mod protocol;
mod queue;
mod state;
mod trace;
mod write_permit;

pub use protocol::{pop_step, pull_step, reserve_range, PopStep, PullStep, QueueError};
pub use atomic_utils::{comp_exch, comp_exch_weak};
pub use interleaving::{
    law_publication_in_order, law_quiescent, law_single_grower, law_take_is_fresh_and_published, lemma_claim,
    lemma_give_back, lemma_grow, lemma_publish, lemma_reserve_write, lemma_seeded, lemma_shrink,
    lemma_take, lemma_write, Cursors,
};
pub use queue::ConcurrentQueue;
pub use state::{granted, GrowHandle, State};
pub use trace::{inputs, law_run_conserves, lemma_step_conserves, run, step, QueueOp};
pub use write_permit::WritePermit;
