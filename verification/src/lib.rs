//! Batched allocation of unique, locally monotonic sequence numbers.
//!
//! A single [`GlobalCounter`] is the process-wide source of numbers; it is
//! advanced only by fetch-and-add, so the half-open ranges it grants are
//! pairwise disjoint.  Each consumer owns a [`Sequencer`] that claims a batch
//! of `step` numbers at a time and serves them locally, refilling when the
//! batch is exhausted or when its position has fallen more than `lag` behind
//! the counter.

pub mod counter;
pub mod sequence;

pub use counter::{CounterModel, GlobalCounter, Grant};
pub use sequence::{Claim, Sequence, Sequencer, SequencerModel};
