//! The grammars of the single lines of the entry stream: a percentage, a
//! "New File" line with its size, and the first line of an access-denied
//! report.

use crate::local_time::{
    local_from_fields, CivilDateTime, LocalDateTime, LocalResolution,
};
use crate::number::{
    decimal_capped, is_all_digits, lemma_short_numeral, min_nat, read_signed, read_unsigned,
    scale_fraction,
    scaled_fraction, signed_reading, unsigned_reading,
};
use crate::robocopy::robocopy_error::RobocopyParseError;
use crate::text::{
    all_digits, ascii_lower, chars_of, contains, decimal_value, eq_ignore_case,
    equals_ignore_case, find, find_char_from, find_text, index_of, is_ascii_letter, matches_at,
    split_tab_fields, split_tokens, starts_with, tab_fields, to_ascii_lower, tokens,
    trim, trim_bounds, trimmed,
};
use vstd::prelude::*;
use vstd::slice::slice_subrange;

verus! {

/// The percentage that `line` writes: without the white space around it,
/// the line is one or more digits with a `%` sign directly behind them, and
/// the digits are worth at most 100.
pub open spec fn percentage(line: Seq<char>) -> Option<u8> {
    let t = trim(line);
    if t.len() >= 2 && t.last() == '%' && all_digits(t.drop_last()) && decimal_value(
        t.drop_last(),
    ) <= 100 {
        Some(decimal_value(t.drop_last()) as u8)
    } else {
        None
    }
}

/// The number of bytes that the unit letter `c` stands for.
pub open spec fn unit_factor(c: char) -> Option<nat> {
    let l = ascii_lower(c);
    if l == 'k' {
        Some(1024)
    } else if l == 'm' {
        Some(1_048_576)
    } else if l == 'g' {
        Some(1_073_741_824)
    } else if l == 't' {
        Some(1_099_511_627_776)
    } else {
        None
    }
}

/// The whole part of `number × factor`, where `number` is a decimal numeral:
/// digits, with an optional point among them. `None` for any other text.
pub open spec fn scaled_number(number: Seq<char>, factor: nat) -> Option<nat> {
    let point = index_of(number, '.');
    let whole = number.take(point);
    let fraction = if point < number.len() {
        number.skip(point + 1)
    } else {
        Seq::empty()
    };
    if whole.len() + fraction.len() > 0 && all_digits(whole) && all_digits(fraction) {
        Some(decimal_value(whole) * factor + scaled_fraction(fraction, factor))
    } else {
        None
    }
}

/// The byte count that the size column `s` writes: a decimal numeral, then
/// an optional unit letter `k`, `m`, `g` or `t` in either case for powers of
/// 1024. The product is cut to a whole number and held to what `usize` can
/// hold.
pub open spec fn size_in_bytes(s: Seq<char>) -> Option<usize> {
    let t = trim(s);
    if t.len() == 0 {
        None
    } else {
        let factor = if is_ascii_letter(t.last()) {
            unit_factor(t.last())
        } else {
            Some(1nat)
        };
        let number = if is_ascii_letter(t.last()) {
            trim(t.drop_last())
        } else {
            t
        };
        match factor {
            None => None,
            Some(f) => match scaled_number(number, f) {
                None => None,
                Some(v) => Some(min_nat(v, usize::MAX as nat) as usize),
            },
        }
    }
}

/// Whether `line` mentions `New File`.
pub open spec fn is_new_file(line: Seq<char>) -> bool {
    contains(line, "New File"@)
}

/// The size and the path of a "New File" line: of its tab-separated fields
/// the first is `New File` in any case, the last the path and the one before
/// it the size; there are at least three.
pub open spec fn new_file_reading(line: Seq<char>) -> Option<(usize, Seq<char>)> {
    let fields = tab_fields(line);
    if fields.len() >= 3 && eq_ignore_case(fields[0], "New File"@) {
        match size_in_bytes(fields[fields.len() - 2]) {
            Some(size) => Some((size, fields.last())),
            None => None,
        }
    } else {
        None
    }
}

/// Whether `line` has the shape of the first line of an access-denied
/// report: `YYYY/MM/DD HH:MM:SS ERROR <code> (0x<hex>) Copying Directory
/// <path>`.
pub open spec fn is_access_denied(line: Seq<char>) -> bool {
    let t = tokens(line);
    &&& t.len() >= 7
    &&& t[0].len() == 10
    &&& t[0][4] == '/'
    &&& t[0][7] == '/'
    &&& t[1].len() == 8
    &&& t[1][2] == ':'
    &&& t[1][5] == ':'
    &&& eq_ignore_case(t[2], "ERROR"@)
    &&& starts_with(t[4], "(0x"@)
    &&& eq_ignore_case(t[5], "Copying"@)
    &&& eq_ignore_case(t[6], "Directory"@)
    &&& contains(line, "Directory"@)
}

/// The path of an access-denied line: all that follows the first
/// `Directory`, without surrounding white space.
pub open spec fn access_denied_path(line: Seq<char>) -> Seq<char> {
    trim(line.skip(find(line, "Directory"@)->Some_0 + "Directory"@.len()))
}

/// The six numbers of a date and a time of day.
pub struct TimeFields {
    pub year: i32,
    pub month: u32,
    pub day: u32,
    pub hour: u32,
    pub minute: u32,
    pub second: u32,
}

impl TimeFields {
    /// The wall clock time with these fields and no fraction of a second.
    pub open spec fn civil(self) -> CivilDateTime {
        CivilDateTime {
            year: self.year,
            month: self.month,
            day: self.day,
            hour: self.hour,
            minute: self.minute,
            second: self.second,
            nanosecond: 0,
        }
    }
}

/// The date and time that the first two words of an access-denied line
/// write, where all six parts are numerals.
pub open spec fn access_denied_fields(line: Seq<char>) -> Option<TimeFields> {
    let date = tokens(line)[0];
    let time = tokens(line)[1];
    let year = signed_reading(date.subrange(0, 4));
    let month = unsigned_reading(date.subrange(5, 7));
    let day = unsigned_reading(date.subrange(8, 10));
    let hour = unsigned_reading(time.subrange(0, 2));
    let minute = unsigned_reading(time.subrange(3, 5));
    let second = unsigned_reading(time.subrange(6, 8));
    if year is Some && month is Some && day is Some && hour is Some && minute is Some
        && second is Some {
        Some(
            TimeFields {
                year: year->Some_0 as i32,
                month: month->Some_0 as u32,
                day: day->Some_0 as u32,
                hour: hour->Some_0 as u32,
                minute: minute->Some_0 as u32,
                second: second->Some_0 as u32,
            },
        )
    } else {
        None
    }
}

/// The moment of an access-denied report with the time `fields`, for which
/// the time zone answered `zone`: only a local time that occurs exactly once
/// is accepted.
pub open spec fn access_denied_time(fields: TimeFields, zone: LocalResolution) -> Result<
    LocalDateTime,
    RobocopyParseError,
> {
    match zone {
        LocalResolution::Single(offset) => Ok(
            LocalDateTime { civil: fields.civil(), utc_offset_seconds: offset },
        ),
        _ => Err(RobocopyParseError::InvalidAccessDeniedTimestamp),
    }
}

/// What the line `line` says of an access-denied report, where `zone` is
/// the time zone's answer for each wall clock time: `Ok(None)` for a line of
/// another shape, the moment and the path for one that reads, an error for
/// one whose date and time do not.
pub open spec fn access_denied_reading(
    line: Seq<char>,
    zone: spec_fn(CivilDateTime) -> LocalResolution,
) -> Result<Option<(LocalDateTime, Seq<char>)>, RobocopyParseError> {
    if !is_access_denied(line) {
        Ok(None)
    } else {
        match access_denied_fields(line) {
            None => Err(RobocopyParseError::InvalidAccessDeniedTimestamp),
            Some(fields) => match access_denied_time(fields, zone(fields.civil())) {
                Ok(when) => Ok(Some((when, access_denied_path(line)))),
                Err(e) => Err(e),
            },
        }
    }
}

/// Whether `c` is an ASCII letter.
pub fn is_letter(c: char) -> (b: bool)
    ensures
        b == is_ascii_letter(c),
{
    let u: u32 = c as u32;
    (0x61 <= u && u <= 0x7A) || (0x41 <= u && u <= 0x5A)
}

/// The percentage that `line` writes, if it writes one.
pub fn parse_percentage_line(line: &[char]) -> (r: Option<u8>)
    ensures
        r == percentage(line@),
{
    let (lo, hi) = trim_bounds(line);
    if hi - lo < 2 || line[hi - 1] != '%' {
        return None;
    }
    let digits = slice_subrange(line, lo, hi - 1);
    proof {
        assert(digits@ =~= trim(line@).drop_last());
    }
    if !is_all_digits(digits) {
        return None;
    }
    let v = decimal_capped(digits, 101);
    if v <= 100 {
        Some(v as u8)
    } else {
        None
    }
}

/// The byte count that the size column `s` writes, if it writes one.
pub fn parse_size_to_bytes(s: &[char]) -> (r: Option<usize>)
    ensures
        r == size_in_bytes(s@),
{
    let (lo, hi) = trim_bounds(s);
    if lo == hi {
        return None;
    }
    let last = s[hi - 1];
    let ghost t = trim(s@);
    proof {
        assert(t.last() == last);
    }
    let mut factor: u64 = 1;
    let mut number: &[char] = slice_subrange(s, lo, hi);
    if is_letter(last) {
        let l = to_ascii_lower(last);
        if l == 'k' {
            factor = 1024;
        } else if l == 'm' {
            factor = 1_048_576;
        } else if l == 'g' {
            factor = 1_073_741_824;
        } else if l == 't' {
            factor = 1_099_511_627_776;
        } else {
            return None;
        }
        let inner = slice_subrange(s, lo, hi - 1);
        proof {
            assert(inner@ =~= t.drop_last());
        }
        let (a, b) = trim_bounds(inner);
        number = slice_subrange(inner, a, b);
    }
    let point = find_char_from(number, '.', 0);
    let whole = slice_subrange(number, 0, point);
    let fraction = if point < number.len() {
        slice_subrange(number, point + 1, number.len())
    } else {
        slice_subrange(number, 0, 0)
    };
    proof {
        assert(whole@ =~= number@.take(point as int));
        if point < number.len() {
            assert(fraction@ =~= number@.skip(point + 1));
        } else {
            assert(fraction@ =~= Seq::<char>::empty());
        }
    }
    if (whole.len() == 0 && fraction.len() == 0) || !is_all_digits(whole) || !is_all_digits(
        fraction,
    ) {
        return None;
    }
    let w: u128 = decimal_capped(whole, 0x1_0000_0000_0000_0000);
    let z: u64 = scale_fraction(fraction, factor);
    proof {
        assert(w * factor <= 0x1_0000_0000_0000_0000 * 1_099_511_627_776) by (nonlinear_arith)
            requires
                w <= 0x1_0000_0000_0000_0000,
                factor <= 1_099_511_627_776,
        ;
    }
    let total: u128 = w * (factor as u128) + (z as u128);
    proof {
        let exact = decimal_value(whole@) * (factor as nat) + scaled_fraction(
            fraction@,
            factor as nat,
        );
        if decimal_value(whole@) >= 0x1_0000_0000_0000_0000 {
            assert(decimal_value(whole@) * (factor as nat) >= 0x1_0000_0000_0000_0000)
                by (nonlinear_arith)
                requires
                    decimal_value(whole@) >= 0x1_0000_0000_0000_0000,
                    factor >= 1,
            ;
            assert(w * factor >= 0x1_0000_0000_0000_0000) by (nonlinear_arith)
                requires
                    w == 0x1_0000_0000_0000_0000,
                    factor >= 1,
            ;
        } else {
            assert(total == exact);
        }
        assert(min_nat(exact, usize::MAX as nat) == min_nat(total as nat, usize::MAX as nat));
    }
    if total > usize::MAX as u128 {
        Some(usize::MAX)
    } else {
        Some(total as usize)
    }
}

/// Whether `line` mentions `New File`.
pub fn is_new_file_line(line: &[char]) -> (r: bool)
    ensures
        r == is_new_file(line@),
{
    let pat = chars_of("New File");
    find_text(line, pat.as_slice()).is_some()
}

/// The size and the path of the "New File" line `line`, if it has the
/// columns of one.
pub fn parse_new_file_line(line: &[char]) -> (r: Option<(usize, Vec<char>)>)
    ensures
        match r {
            Some((size, path)) => new_file_reading(line@) == Some((size, path@)),
            None => new_file_reading(line@) is None,
        },
{
    let mut fields = split_tab_fields(line);
    let label = chars_of("New File");
    if fields.len() < 3 || !equals_ignore_case(fields[0].as_slice(), label.as_slice()) {
        return None;
    }
    let size = parse_size_to_bytes(fields[fields.len() - 2].as_slice());
    match size {
        Some(size) => {
            let path = fields.pop();
            match path {
                Some(path) => Some((size, path)),
                None => None,
            }
        },
        None => None,
    }
}

/// The moment of an access-denied report with the time `fields`, for which
/// the time zone answered `zone`.
pub fn access_denied_when(fields: &TimeFields, zone: LocalResolution) -> (r: Result<
    LocalDateTime,
    RobocopyParseError,
>)
    ensures
        r == access_denied_time(*fields, zone),
{
    match zone {
        LocalResolution::Single(offset) => Ok(
            LocalDateTime {
                civil: CivilDateTime {
                    year: fields.year,
                    month: fields.month,
                    day: fields.day,
                    hour: fields.hour,
                    minute: fields.minute,
                    second: fields.second,
                    nanosecond: 0,
                },
                utc_offset_seconds: offset,
            },
        ),
        _ => Err(RobocopyParseError::InvalidAccessDeniedTimestamp),
    }
}

/// Whether the rows `t` are the words of an access-denied line, as far as
/// the words alone show it.
fn has_access_denied_words(t: &Vec<Vec<char>>) -> (r: bool)
    ensures
        r == ({
            &&& t.len() >= 7
            &&& t[0]@.len() == 10
            &&& t[0]@[4] == '/'
            &&& t[0]@[7] == '/'
            &&& t[1]@.len() == 8
            &&& t[1]@[2] == ':'
            &&& t[1]@[5] == ':'
            &&& eq_ignore_case(t[2]@, "ERROR"@)
            &&& starts_with(t[4]@, "(0x"@)
            &&& eq_ignore_case(t[5]@, "Copying"@)
            &&& eq_ignore_case(t[6]@, "Directory"@)
        }),
{
    if t.len() < 7 {
        return false;
    }
    let date = &t[0];
    let time = &t[1];
    if date.len() != 10 || date[4] != '/' || date[7] != '/' {
        return false;
    }
    if time.len() != 8 || time[2] != ':' || time[5] != ':' {
        return false;
    }
    let k_error = chars_of("ERROR");
    let k_hex = chars_of("(0x");
    let k_copying = chars_of("Copying");
    let k_directory = chars_of("Directory");
    equals_ignore_case(t[2].as_slice(), k_error.as_slice()) && matches_at(
        t[4].as_slice(),
        k_hex.as_slice(),
        0,
    ) && equals_ignore_case(t[5].as_slice(), k_copying.as_slice()) && equals_ignore_case(
        t[6].as_slice(),
        k_directory.as_slice(),
    )
}

/// The six numbers that a date word and a time word of the right lengths
/// write, where all six are numerals.
fn read_time_fields(date: &[char], time: &[char]) -> (r: Option<TimeFields>)
    requires
        date.len() == 10,
        time.len() == 8,
    ensures
        r == ({
            let year = signed_reading(date@.subrange(0, 4));
            let month = unsigned_reading(date@.subrange(5, 7));
            let day = unsigned_reading(date@.subrange(8, 10));
            let hour = unsigned_reading(time@.subrange(0, 2));
            let minute = unsigned_reading(time@.subrange(3, 5));
            let second = unsigned_reading(time@.subrange(6, 8));
            if year is Some && month is Some && day is Some && hour is Some && minute is Some
                && second is Some {
                Some(
                    TimeFields {
                        year: year->Some_0 as i32,
                        month: month->Some_0 as u32,
                        day: day->Some_0 as u32,
                        hour: hour->Some_0 as u32,
                        minute: minute->Some_0 as u32,
                        second: second->Some_0 as u32,
                    },
                )
            } else {
                None
            }
        }),
{
    proof {
        lemma_short_numeral(date@.subrange(0, 4));
        lemma_short_numeral(date@.subrange(5, 7));
        lemma_short_numeral(date@.subrange(8, 10));
        lemma_short_numeral(time@.subrange(0, 2));
        lemma_short_numeral(time@.subrange(3, 5));
        lemma_short_numeral(time@.subrange(6, 8));
    }
    let year = read_signed(slice_subrange(date, 0, 4));
    let month = read_unsigned(slice_subrange(date, 5, 7));
    let day = read_unsigned(slice_subrange(date, 8, 10));
    let hour = read_unsigned(slice_subrange(time, 0, 2));
    let minute = read_unsigned(slice_subrange(time, 3, 5));
    let second = read_unsigned(slice_subrange(time, 6, 8));
    match (year, month, day, hour, minute, second) {
        (Some(year), Some(month), Some(day), Some(hour), Some(minute), Some(second)) => Some(
            TimeFields { year, month, day, hour, minute, second },
        ),
        _ => None,
    }
}

/// Reads the first line of an access-denied report. `Ok(None)` says that
/// the line has another shape. For a line of that shape the machine's time
/// zone is asked for the offset of its date and time.
pub fn parse_access_denied_first_line(line: &[char]) -> (r: Result<
    Option<(LocalDateTime, Vec<char>)>,
    RobocopyParseError,
>)
    ensures
        exists|zone: spec_fn(CivilDateTime) -> LocalResolution|
            (match r {
                Ok(Some((when, path))) => Ok(Some((when, path@))),
                Ok(None) => Ok(None),
                Err(e) => Err(e),
            }) == #[trigger] access_denied_reading(line@, zone),
        r matches Ok(Some((when, path))) ==> when.valid(),
{
    let words = split_tokens(line);
    let ghost t = tokens(line@);
    let ghost any = |c: CivilDateTime| LocalResolution::Nonexistent;
    if !has_access_denied_words(&words) {
        proof {
            assert(access_denied_reading(line@, any) == Ok::<
                Option<(LocalDateTime, Seq<char>)>,
                RobocopyParseError,
            >(None));
        }
        return Ok(None);
    }
    let k_directory = chars_of("Directory");
    let at = match find_text(line, k_directory.as_slice()) {
        Some(at) => at,
        None => {
            proof {
                assert(access_denied_reading(line@, any) == Ok::<
                    Option<(LocalDateTime, Seq<char>)>,
                    RobocopyParseError,
                >(None));
            }
            return Ok(None);
        },
    };
    proof {
        assert(is_access_denied(line@));
    }
    let fields = match read_time_fields(words[0].as_slice(), words[1].as_slice()) {
        Some(fields) => fields,
        None => {
            proof {
                assert(access_denied_reading(line@, any) == Err::<
                    Option<(LocalDateTime, Seq<char>)>,
                    RobocopyParseError,
                >(RobocopyParseError::InvalidAccessDeniedTimestamp));
            }
            return Err(RobocopyParseError::InvalidAccessDeniedTimestamp);
        },
    };
    let answer = local_from_fields(
        fields.year,
        fields.month,
        fields.day,
        fields.hour,
        fields.minute,
        fields.second,
    );
    let ghost zone = |c: CivilDateTime| answer;
    match access_denied_when(&fields, answer) {
        Ok(when) => {
            let path = trimmed(slice_subrange(line, at + k_directory.len(), line.len()));
            proof {
                assert(line@.subrange(at + k_directory.len(), line.len() as int) =~= line@.skip(
                    at + "Directory"@.len(),
                ));
                assert(access_denied_reading(line@, zone) == Ok::<
                    Option<(LocalDateTime, Seq<char>)>,
                    RobocopyParseError,
                >(Some((when, path@))));
            }
            Ok(Some((when, path)))
        },
        Err(e) => {
            proof {
                assert(access_denied_reading(line@, zone) == Err::<
                    Option<(LocalDateTime, Seq<char>)>,
                    RobocopyParseError,
                >(e));
            }
            Err(e)
        },
    }
}

} // verus!
