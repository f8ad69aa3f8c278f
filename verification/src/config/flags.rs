use super::colors::EnableColors;
use super::command::CanaryCommand;
use vstd::prelude::*;

verus! {

/// What the command line asked for.
pub struct Flags {
    cmd: Option<CanaryCommand>,
    enable_colors: EnableColors,
}

impl Flags {
    /// The command that was given, if one was.
    pub closed spec fn spec_cmd(&self) -> Option<CanaryCommand> {
        self.cmd
    }

    /// The preference for colours that was given.
    pub closed spec fn spec_enable_colors(&self) -> EnableColors {
        self.enable_colors
    }

    /// The flags of a command line that gave `cmd` and `enable_colors`.
    pub fn new(cmd: Option<CanaryCommand>, enable_colors: EnableColors) -> (flags: Self)
        ensures
            flags.spec_cmd() == cmd,
            flags.spec_enable_colors() == enable_colors,
    {
        Flags { cmd, enable_colors }
    }

    /// The top-level command that was given, if one was.
    pub fn cmd(&self) -> (cmd: Option<&CanaryCommand>)
        ensures
            cmd is Some <==> self.spec_cmd() is Some,
            cmd matches Some(given) ==> Some(*given) == self.spec_cmd(),
    {
        self.cmd.as_ref()
    }

    /// The preference for colours in the output that was given.
    pub fn enable_colors(&self) -> (choice: EnableColors)
        ensures
            choice == self.spec_enable_colors(),
    {
        self.enable_colors
    }
}

} // verus!
