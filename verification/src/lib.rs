//! Streaming parser for robocopy log output, together with the small
//! command-line model that drives it.

pub mod cli;
pub mod local_time;
pub mod logging;
pub mod number;
pub mod robocopy;
pub mod text;
