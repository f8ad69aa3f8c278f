use crate::stats::Observation;
use vstd::prelude::*;

pub use batching::{
    held_after, joined, lemma_batching_keeps_every_item, released_after, Batcher,
    DEFAULT_BATCH_SIZE,
};
pub use engines::{Action, AlwaysPromote, DecisionEngine, EngineController};
pub use ingresses::{Ingress, MockIngress};

/// Grouping single observations into batches.
pub mod batching;
/// Decision engines: what they are asked, and who asks them when.
pub mod engines;
/// Ingresses: what carries out the actions on the traffic.
pub mod ingresses;

verus! {

/// A source of observations, which is asked again and again for what it has
/// seen since it was last asked. It may have seen nothing; what it has
/// handed out once it does not hand out again.
pub trait ObservationEmitter<C>: Send + Sync {
    /// The observations made since the last call.
    fn emit_next(&mut self) -> Vec<Observation<C>>;
}

} // verus!
