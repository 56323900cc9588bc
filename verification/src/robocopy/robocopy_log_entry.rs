//! One record of the entry stream of a robocopy log.

use crate::local_time::LocalDateTime;
use vstd::prelude::*;

verus! {

/// What robocopy reported about one file or directory.
#[derive(Debug, PartialEq, Eq)]
pub enum RobocopyLogEntry {
    /// Access to a directory was denied.
    AccessDeniedError { when: LocalDateTime, path: String },
    /// A file is being copied. The same file is reported again with every
    /// percentage that is seen; `percentages` holds all seen so far.
    NewFile { size: usize, path: String, percentages: Vec<u8> },
}

/// A log entry as a mathematical value.
pub enum EntryView {
    AccessDeniedError { when: LocalDateTime, path: Seq<char> },
    NewFile { size: usize, path: Seq<char>, percentages: Seq<u8> },
}

impl View for RobocopyLogEntry {
    type V = EntryView;

    open spec fn view(&self) -> EntryView {
        match self {
            RobocopyLogEntry::AccessDeniedError { when, path } => EntryView::AccessDeniedError {
                when: *when,
                path: path@,
            },
            RobocopyLogEntry::NewFile { size, path, percentages } => EntryView::NewFile {
                size: *size,
                path: path@,
                percentages: percentages@,
            },
        }
    }
}

} // verus!
