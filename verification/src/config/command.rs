use vstd::prelude::*;

verus! {

/// One of the top-level commands of the command line.
#[derive(Clone, Copy, Debug, PartialEq, Eq, Structural)]
pub enum CanaryCommand {
    /// Print the version and exit.
    Version,
}

} // verus!
