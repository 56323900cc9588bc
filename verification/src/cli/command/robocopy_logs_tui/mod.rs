//! Following a robocopy log as it grows.

pub mod robocopy_logs_tui_args;

pub use robocopy_logs_tui_args::RobocopyLogsTuiArgs;
pub use robocopy_logs_tui_args::TailAction;
pub use robocopy_logs_tui_args::TailEvent;
pub use robocopy_logs_tui_args::TailRequest;
pub use robocopy_logs_tui_args::TailState;
