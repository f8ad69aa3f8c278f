use vstd::prelude::*;

verus! {

/// An effectful operation on the deployments, decided by a
/// [`DecisionEngine`](super::DecisionEngine) and carried out by an ingress.
///
/// There is no "do nothing" action: an engine that has nothing to say returns
/// no action at all.
#[derive(Clone, Copy, Debug, PartialEq, Eq, Structural, Hash)]
pub enum Action {
    /// Ramp the canary to all of the traffic and decommission the control deployment.
    Promote,
    /// Ramp the control to all of the traffic and decommission the canary deployment.
    Yank,
    /// Give the canary one more unit of traffic.
    RampUp,
    /// Take one unit of traffic away from the canary.
    RampDown,
}

} // verus!
