//! The header's `Files` field.

use crate::robocopy::robocopy_error::RobocopyParseError;
use crate::text::string_of;
use vstd::prelude::*;
use vstd::string::StringExecFns;

verus! {

/// The file-name pattern of a copy job, kept as it was written.
#[derive(Debug, PartialEq, Eq)]
pub struct RobocopyFilePattern {
    pub(crate) inner: String,
}

impl View for RobocopyFilePattern {
    type V = Seq<char>;

    closed spec fn view(&self) -> Seq<char> {
        self.inner@
    }
}

impl RobocopyFilePattern {
    /// Takes `s` as the pattern, unchanged; this never fails.
    pub fn from_str(s: &str) -> (r: Result<RobocopyFilePattern, RobocopyParseError>)
        ensures
            r is Ok,
            r->Ok_0@ == s@,
    {
        Ok(RobocopyFilePattern { inner: String::from_str(s) })
    }

    /// Takes the characters `text` as the pattern, unchanged.
    pub fn from_chars(text: &[char]) -> (r: RobocopyFilePattern)
        ensures
            r@ == text@,
    {
        RobocopyFilePattern { inner: string_of(text) }
    }

    /// The pattern as it was written.
    pub fn to_string(&self) -> (r: String)
        ensures
            r@ == self@,
    {
        self.inner.clone()
    }
}

} // verus!
