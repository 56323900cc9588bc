//! A whole log: its header and the entries that followed.

use crate::robocopy::robocopy_header::RobocopyHeader;
use crate::robocopy::robocopy_log_entry::RobocopyLogEntry;
use vstd::prelude::*;

verus! {

/// A robocopy log that was read to its end.
#[derive(Debug)]
pub struct RobocopyLog {
    pub header: RobocopyHeader,
    pub parts: Vec<RobocopyLogEntry>,
}

} // verus!
