pub use colors::EnableColors;
pub use command::CanaryCommand;
pub use flags::Flags;

mod colors;
mod command;
mod flags;
