//! The commands of the program, one module each.

pub mod robocopy_logs_tui;

#[allow(clippy::module_inception)]
mod command;

pub use command::Command;
pub use command::Invocation;
