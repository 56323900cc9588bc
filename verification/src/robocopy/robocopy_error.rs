//! The ways in which recognised text can fail to parse.

use vstd::prelude::*;

verus! {

/// Why a header block or a log line that was recognised could not be turned
/// into its record.
#[derive(Clone, Copy, Debug, PartialEq, Eq)]
pub enum RobocopyParseError {
    /// The `Started` value is no time stamp in the expected layout.
    InvalidStartDateTime,
    /// The `Started` value names a local time that the time zone skips.
    NonexistentLocalTime,
    /// The header block has no `Started` field.
    MissingStarted,
    /// The header block has no `Source` field.
    MissingSource,
    /// The header block has no `Dest` field.
    MissingDest,
    /// The header block has no `Files` field.
    MissingFiles,
    /// The header block has no `Options` field.
    MissingOptions,
    /// An access-denied line whose date and time are no numbers, or name no
    /// local time that occurs exactly once.
    InvalidAccessDeniedTimestamp,
    /// A line that mentions `New File` without the columns of one.
    InvalidNewFileLine,
}

} // verus!
