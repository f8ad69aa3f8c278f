use crate::stats::{EnumerableCategory, Observation};
use vstd::prelude::*;

pub use action::Action;
pub use controller::{
    asks, can_answer, emission, emitted_by, evaluations, fed, lemma_actions_are_not_suppressed,
    lemma_answers_are_the_engines, lemma_batches_ask_nothing, lemma_closing_asks_once,
    lemma_events_decide_the_course, lemma_persistent_answers_all_go_out,
    lemma_terminated_serves_nothing, lemma_ticks_ask_each_time, ran, state_after,
    state_after_all, stepped, ControllerState, EngineController, Event,
};

mod action;
mod controller;

verus! {

/// A decision engine takes in observations and says, when asked, whether the
/// canary should be promoted, yanked, or given more or less traffic.
///
/// What an engine promises of its two operations it states in
/// [`observed`](DecisionEngine::observed) and [`computed`](DecisionEngine::computed);
/// an engine that states nothing promises nothing.
pub trait DecisionEngine<C: EnumerableCategory>: Sized {
    /// What holds of a usable engine between any two calls.
    open spec fn well_formed(&self) -> bool {
        true
    }

    /// How the engine `next` that `add_observation` leaves behind relates to
    /// this one, which took in `observation`.
    open spec fn observed(&self, observation: Observation<C>, next: &Self) -> bool {
        true
    }

    /// How the answer of `compute` and the engine `next` that it leaves behind
    /// relate to this one, which was asked.
    open spec fn computed(&self, action: Option<Action>, next: &Self) -> bool {
        true
    }

    /// Takes in one observation, to be weighed when the engine is next asked.
    fn add_observation(&mut self, observation: Observation<C>)
        requires
            old(self).well_formed(),
        ensures
            final(self).well_formed(),
            old(self).observed(observation, final(self)),
    ;

    /// Asks the engine to decide on all that it has taken in. No action is a
    /// decision too: the engine may lack the data to say more.
    fn compute(&mut self) -> (action: Option<Action>)
        requires
            old(self).well_formed(),
        ensures
            final(self).well_formed(),
            old(self).computed(action, final(self)),
    ;
}

/// An engine that discards every observation and answers `Promote` whenever
/// it is asked.
#[derive(Clone, Copy, Debug, PartialEq, Eq, Structural)]
pub struct AlwaysPromote;

impl<C: EnumerableCategory> DecisionEngine<C> for AlwaysPromote {
    open spec fn computed(&self, action: Option<Action>, next: &Self) -> bool {
        action == Some(Action::Promote)
    }

    fn add_observation(&mut self, observation: Observation<C>) {
    }

    fn compute(&mut self) -> (action: Option<Action>) {
        Some(Action::Promote)
    }
}

} // verus!
