use vstd::prelude::*;

verus! {

/// Whether the output is to be coloured.
#[derive(Clone, Copy, Debug, PartialEq, Eq, Structural)]
pub enum EnableColors {
    /// Colour the output wherever it goes.
    Always,
    /// Never colour the output.
    Never,
    /// Colour the output where it goes to a terminal.
    Auto,
}

impl Default for EnableColors {
    fn default() -> (choice: Self)
        ensures
            choice == EnableColors::Auto,
    {
        EnableColors::Auto
    }
}

} // verus!
