//! What is logged: the levels, and the filter that each level starts from.
//! Setting up the subscriber is left to the program.

use vstd::prelude::*;
use vstd::string::StringExecFns;

verus! {

/// The verbosity of the log.
#[derive(Clone, Copy, Debug, PartialEq, Eq)]
pub enum Level {
    Trace,
    Debug,
    Info,
    Warn,
    Error,
}

/// Filters that are added to the default filter when debug or trace output
/// is asked for, to keep chatty dependencies quiet.
pub const DEFAULT_EXTRA_FILTERS: &'static str =
    "bevy_shader=warn,offset_allocator=warn,bevy_app=info,bevy_render=info,gilrs=info,cosmic_text=info,naga=warn,wgpu=error,wgpu_hal=warn,bevy_skein=trace,bevy_winit::system=info";

/// The name of `level` in filter directives.
pub open spec fn level_name(level: Level) -> Seq<char> {
    match level {
        Level::Trace => "TRACE"@,
        Level::Debug => "DEBUG"@,
        Level::Info => "INFO"@,
        Level::Warn => "WARN"@,
        Level::Error => "ERROR"@,
    }
}

/// The filter directives that logging starts from when `RUST_LOG`
/// gives none: the level, a comma, and for debug and trace the extra
/// filters.
pub open spec fn default_directives(level: Level) -> Seq<char> {
    level_name(level) + ","@ + match level {
        Level::Debug | Level::Trace => DEFAULT_EXTRA_FILTERS@,
        _ => ""@,
    }
}

/// The filter directives that logging starts from when `RUST_LOG`
/// gives none.
pub fn default_filter_directives(level: Level) -> (r: String)
    ensures
        r@ == default_directives(level),
{
    let mut r = String::from_str(
        match level {
            Level::Trace => "TRACE",
            Level::Debug => "DEBUG",
            Level::Info => "INFO",
            Level::Warn => "WARN",
            Level::Error => "ERROR",
        },
    );
    r.append(",");
    r.append(
        match level {
            Level::Debug | Level::Trace => DEFAULT_EXTRA_FILTERS,
            _ => "",
        },
    );
    r
}

} // verus!
