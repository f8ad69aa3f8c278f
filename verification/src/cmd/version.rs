use vstd::prelude::*;

verus! {

/// The command that prints the version of the command line.
#[derive(Clone, Copy, Debug, PartialEq, Eq, Structural)]
pub struct Version;

impl Version {
    /// The command, ready to be dispatched.
    pub fn new() -> (version: Self)
        ensures
            version == Version,
    {
        Version
    }
}

impl Default for Version {
    fn default() -> (version: Self)
        ensures
            version == Version,
    {
        Version
    }
}

} // verus!
