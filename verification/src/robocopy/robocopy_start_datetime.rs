//! The time stamp of the header's `Started` field.

use crate::local_time::{
    local_from_civil, naive_reading, naive_text, read_naive, write_naive, CivilDateTime,
    LocalDateTime, LocalResolution,
};
use crate::robocopy::robocopy_error::RobocopyParseError;
use crate::text::{chars_of, string_of, trim, trimmed};
use vstd::prelude::*;

verus! {

/// The layout of the `Started` field, e.g. `August 27, 2025 10:19:37 PM`.
pub const ROBOCOPY_START_DATETIME_FMT: &'static str = "%B %d, %Y %I:%M:%S %p";

/// The moment a copy job started, in local time. Always a valid local time.
#[derive(Debug, PartialEq, Eq)]
pub struct RobocopyStartDateTime {
    inner: LocalDateTime,
}

/// Of two offsets with one wall clock reading, the one of the earlier
/// moment: the larger, since a moment is the reading less its offset.
pub open spec fn earlier_offset(a: i32, b: i32) -> i32 {
    if a >= b {
        a
    } else {
        b
    }
}

/// The local time that the zone's answer `zone` gives the wall clock time
/// `civil`: the only one, or the earlier of two, in whichever order the
/// zone names them; none is an error.
pub open spec fn earliest_local_time(civil: CivilDateTime, zone: LocalResolution) -> Result<
    LocalDateTime,
    RobocopyParseError,
> {
    match zone {
        LocalResolution::Single(offset) => Ok(LocalDateTime { civil, utc_offset_seconds: offset }),
        LocalResolution::Ambiguous(a, b) => Ok(
            LocalDateTime { civil, utc_offset_seconds: earlier_offset(a, b) },
        ),
        LocalResolution::Nonexistent => Err(RobocopyParseError::NonexistentLocalTime),
    }
}

/// What the `Started` text `text` stands for, where `zone` is the time
/// zone's answer for each wall clock time.
pub open spec fn start_reading(
    text: Seq<char>,
    zone: spec_fn(CivilDateTime) -> LocalResolution,
) -> Result<LocalDateTime, RobocopyParseError> {
    match naive_reading(trim(text), ROBOCOPY_START_DATETIME_FMT@) {
        Some(civil) => earliest_local_time(civil, zone(civil)),
        None => Err(RobocopyParseError::InvalidStartDateTime),
    }
}

/// The text of the local time `when` in the layout of the `Started` field.
pub open spec fn start_text(when: LocalDateTime) -> Seq<char> {
    naive_text(when.civil, ROBOCOPY_START_DATETIME_FMT@)
}

/// The time stamp of a result, where there is one.
pub open spec fn start_view(r: Result<RobocopyStartDateTime, RobocopyParseError>) -> Result<
    LocalDateTime,
    RobocopyParseError,
> {
    match r {
        Ok(v) => Ok(v@),
        Err(e) => Err(e),
    }
}

impl View for RobocopyStartDateTime {
    type V = LocalDateTime;

    closed spec fn view(&self) -> LocalDateTime {
        self.inner
    }
}

impl RobocopyStartDateTime {
    #[verifier::type_invariant]
    spec fn inv(self) -> bool {
        self.inner.valid()
    }

    /// The start time `when`, if it is a valid local time.
    pub fn new(when: LocalDateTime) -> (r: Option<RobocopyStartDateTime>)
        ensures
            r is Some <==> when.valid(),
            r is Some ==> r->Some_0@ == when,
    {
        if when.is_valid() {
            Some(RobocopyStartDateTime { inner: when })
        } else {
            None
        }
    }

    /// The start time at wall clock time `civil`, for which the time zone
    /// answered `zone`: the only local time with that reading, or the
    /// earlier of the two; an error where the zone has none.
    pub fn from_resolution(civil: CivilDateTime, zone: LocalResolution) -> (r: Result<
        RobocopyStartDateTime,
        RobocopyParseError,
    >)
        requires
            civil.valid(),
            zone.valid(),
        ensures
            start_view(r) == earliest_local_time(civil, zone),
    {
        match zone {
            LocalResolution::Single(offset) => Ok(
                RobocopyStartDateTime {
                    inner: LocalDateTime { civil, utc_offset_seconds: offset },
                },
            ),
            LocalResolution::Ambiguous(a, b) => Ok(
                RobocopyStartDateTime {
                    inner: LocalDateTime {
                        civil,
                        utc_offset_seconds: if a >= b {
                            a
                        } else {
                            b
                        },
                    },
                },
            ),
            LocalResolution::Nonexistent => Err(RobocopyParseError::NonexistentLocalTime),
        }
    }

    /// Reads a start time from the characters `text`: the text without its
    /// surrounding white space is read in the layout of the `Started` field,
    /// and the machine's time zone is asked for the offset of what it writes.
    pub fn from_chars(text: &[char]) -> (r: Result<RobocopyStartDateTime, RobocopyParseError>)
        ensures
            exists|zone: spec_fn(CivilDateTime) -> LocalResolution|
                start_view(r) == #[trigger] start_reading(text@, zone),
            r is Ok ==> r->Ok_0@.valid(),
    {
        let wanted = string_of(trimmed(text).as_slice());
        match read_naive(wanted.as_str(), ROBOCOPY_START_DATETIME_FMT) {
            Ok(civil) => {
                let answer = local_from_civil(&civil);
                let r = RobocopyStartDateTime::from_resolution(civil, answer);
                proof {
                    let zone = |c: CivilDateTime| answer;
                    assert(start_view(r) == start_reading(text@, zone));
                }
                r
            },
            Err(_) => {
                proof {
                    let zone = |c: CivilDateTime| LocalResolution::Nonexistent;
                    assert(start_view(Err(RobocopyParseError::InvalidStartDateTime))
                        == start_reading(text@, zone));
                }
                Err(RobocopyParseError::InvalidStartDateTime)
            },
        }
    }

    /// Reads a start time from `s`, as `from_chars` does.
    pub fn from_str(s: &str) -> (r: Result<RobocopyStartDateTime, RobocopyParseError>)
        ensures
            exists|zone: spec_fn(CivilDateTime) -> LocalResolution|
                start_view(r) == #[trigger] start_reading(s@, zone),
            r is Ok ==> r->Ok_0@.valid(),
    {
        let text = chars_of(s);
        RobocopyStartDateTime::from_chars(text.as_slice())
    }

    /// The start time as a local time.
    pub fn as_datetime(&self) -> (r: &LocalDateTime)
        ensures
            *r == self@,
            r.valid(),
    {
        proof {
            use_type_invariant(self);
        }
        &self.inner
    }

    /// The start time in the layout of the `Started` field.
    pub fn to_string(&self) -> (r: String)
        ensures
            r@ == start_text(self@),
    {
        proof {
            use_type_invariant(self);
        }
        write_naive(&self.inner.civil, ROBOCOPY_START_DATETIME_FMT)
    }
}

} // verus!
