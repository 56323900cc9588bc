//! The header's `Options` field.

use crate::robocopy::robocopy_error::RobocopyParseError;
use crate::text::string_of;
use vstd::prelude::*;
use vstd::string::StringExecFns;

verus! {

/// The option string of a copy job, kept as it was written.
#[derive(Debug, PartialEq, Eq)]
pub struct RobocopyOptions {
    pub(crate) inner: String,
}

impl View for RobocopyOptions {
    type V = Seq<char>;

    closed spec fn view(&self) -> Seq<char> {
        self.inner@
    }
}

impl RobocopyOptions {
    /// Takes `s` as the option string, unchanged; this never fails.
    pub fn from_str(s: &str) -> (r: Result<RobocopyOptions, RobocopyParseError>)
        ensures
            r is Ok,
            r->Ok_0@ == s@,
    {
        Ok(RobocopyOptions { inner: String::from_str(s) })
    }

    /// Takes the characters `text` as the option string, unchanged.
    pub fn from_chars(text: &[char]) -> (r: RobocopyOptions)
        ensures
            r@ == text@,
    {
        RobocopyOptions { inner: string_of(text) }
    }

    /// The option string as it was written.
    pub fn to_string(&self) -> (r: String)
        ensures
            r@ == self@,
    {
        self.inner.clone()
    }
}

} // verus!
