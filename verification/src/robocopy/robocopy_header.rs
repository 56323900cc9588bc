//! The header block of a robocopy log: five fields between dashed lines.
//!
//! ```text
//! -------------------------------------------------------------------------------
//!    ROBOCOPY     ::     Robust File Copy for Windows
//! -------------------------------------------------------------------------------
//!
//!   Started : August 27, 2025 10:19:37 PM
//!    Source : J:\
//!      Dest : K:\
//!
//!     Files : *.*
//!
//!   Options : *.* /TEE /S /E /DCOPY:DA /COPY:DAT /MT:16 /R:1000000 /W:5
//!
//! ------------------------------------------------------------------------------
//! ```

use crate::local_time::{CivilDateTime, LocalDateTime, LocalResolution};
use crate::robocopy::robocopy_error::RobocopyParseError;
use crate::robocopy::robocopy_file_pattern::RobocopyFilePattern;
use crate::robocopy::robocopy_options::RobocopyOptions;
use crate::robocopy::robocopy_start_datetime::{
    start_reading, start_text, RobocopyStartDateTime,
};
use crate::text::{
    chars_of, eq_ignore_case, equals_ignore_case, find_char_from, index_of, index_of_from,
    push_char, string_of,
    trim, trimmed,
};
use vstd::prelude::*;
use vstd::slice::slice_subrange;
use vstd::string::StringExecFns;

verus! {

/// The header of a robocopy log.
#[derive(Debug, PartialEq, Eq)]
pub struct RobocopyHeader {
    pub started: RobocopyStartDateTime,
    pub source: String,
    pub dest: String,
    pub files: RobocopyFilePattern,
    pub options: RobocopyOptions,
}

/// A header as a mathematical value.
pub struct HeaderView {
    pub started: LocalDateTime,
    pub source: Seq<char>,
    pub dest: Seq<char>,
    pub files: Seq<char>,
    pub options: Seq<char>,
}

/// The values of the five fields of a header block, as far as it has them.
pub struct HeaderFields {
    pub started: Option<Vec<char>>,
    pub source: Option<Vec<char>>,
    pub dest: Option<Vec<char>>,
    pub files: Option<Vec<char>>,
    pub options: Option<Vec<char>>,
}

impl View for RobocopyHeader {
    type V = HeaderView;

    open spec fn view(&self) -> HeaderView {
        HeaderView {
            started: self.started@,
            source: self.source@,
            dest: self.dest@,
            files: self.files@,
            options: self.options@,
        }
    }
}

/// The text of an optional row of characters.
pub open spec fn text_of(o: Option<Vec<char>>) -> Option<Seq<char>> {
    match o {
        Some(v) => Some(v@),
        None => None,
    }
}

/// The header of a result, where there is one.
pub open spec fn header_view(r: Result<RobocopyHeader, RobocopyParseError>) -> Result<
    HeaderView,
    RobocopyParseError,
> {
    match r {
        Ok(h) => Ok(h@),
        Err(e) => Err(e),
    }
}

/// The value that `line` gives the field `key`: the line has a colon, what
/// stands before the first colon is `key` up to white space and the case of
/// letters, and the value is what follows the colon, without surrounding
/// white space.
pub open spec fn line_field(line: Seq<char>, key: Seq<char>) -> Option<Seq<char>> {
    let colon = index_of(line, ':');
    if colon < line.len() && eq_ignore_case(trim(line.take(colon)), key) {
        Some(trim(line.skip(colon + 1)))
    } else {
        None
    }
}

/// The value of the field `key` in the lines of `text` that start at index
/// `i` or later: that of the first line that gives it one.
pub open spec fn header_field_from(text: Seq<char>, key: Seq<char>, i: int) -> Option<Seq<char>>
    decreases text.len() - i,
{
    if i < 0 || i > text.len() {
        None
    } else {
        let end = index_of_from(text, '\n', i);
        match line_field(text.subrange(i, end), key) {
            Some(value) => Some(value),
            None => if i <= end < text.len() {
                header_field_from(text, key, end + 1)
            } else {
                None
            },
        }
    }
}

/// The value of the field `key` in the header block `text`. Lines without a
/// colon (blank lines, dashed lines) and lines with another key (the banner)
/// give it none; of several lines with the key the first counts.
pub open spec fn header_field(text: Seq<char>, key: Seq<char>) -> Option<Seq<char>> {
    header_field_from(text, key, 0)
}

/// The header made of the start time `started` and the other four field
/// values, or the error that names the first field that is missing.
pub open spec fn assembled(
    started: LocalDateTime,
    source: Option<Seq<char>>,
    dest: Option<Seq<char>>,
    files: Option<Seq<char>>,
    options: Option<Seq<char>>,
) -> Result<HeaderView, RobocopyParseError> {
    if source is None {
        Err(RobocopyParseError::MissingSource)
    } else if dest is None {
        Err(RobocopyParseError::MissingDest)
    } else if files is None {
        Err(RobocopyParseError::MissingFiles)
    } else if options is None {
        Err(RobocopyParseError::MissingOptions)
    } else {
        Ok(
            HeaderView {
                started,
                source: source->Some_0,
                dest: dest->Some_0,
                files: files->Some_0,
                options: options->Some_0,
            },
        )
    }
}

/// What the header block `text` stands for, where `zone` is the time zone's
/// answer for each wall clock time. A `Started` value that cannot be read
/// fails before any missing field is reported.
pub open spec fn header_reading(
    text: Seq<char>,
    zone: spec_fn(CivilDateTime) -> LocalResolution,
) -> Result<HeaderView, RobocopyParseError> {
    match header_field(text, "started"@) {
        None => Err(RobocopyParseError::MissingStarted),
        Some(value) => match start_reading(value, zone) {
            Err(e) => Err(e),
            Ok(started) => assembled(
                started,
                header_field(text, "source"@),
                header_field(text, "dest"@),
                header_field(text, "files"@),
                header_field(text, "options"@),
            ),
        },
    }
}

/// A line of `n` dashes.
pub open spec fn dashes(n: nat) -> Seq<char> {
    Seq::new(n, |i: int| '-')
}

/// A run of `n` blanks.
pub open spec fn spaces(n: nat) -> Seq<char> {
    Seq::new(n, |i: int| ' ')
}

/// A line that gives the field `name` the value `after`: the name, set in
/// by `lead` blanks and followed by one, then the colon and the value.
pub open spec fn labelled(lead: nat, name: Seq<char>, after: Seq<char>) -> Seq<char> {
    spaces(lead) + name + spaces(1) + seq![':'] + after
}

/// The title line of the banner.
pub open spec fn title_line() -> Seq<char> {
    spaces(3) + "ROBOCOPY"@ + spaces(5) + seq![':'] + ":     Robust File Copy for Windows"@
        + spaces(30)
}

/// The lines `lines` with a line feed between each two.
pub open spec fn text_lines(lines: Seq<Seq<char>>) -> Seq<char>
    decreases lines.len(),
{
    if lines.len() == 0 {
        Seq::empty()
    } else if lines.len() == 1 {
        lines[0]
    } else {
        lines[0] + seq!['\n'] + text_lines(lines.skip(1))
    }
}

/// The thirteen lines of the header `h` as robocopy prints it: the banner
/// between dashed lines, the five fields by name, and a closing dashed line.
pub open spec fn header_lines(h: HeaderView) -> Seq<Seq<char>> {
    seq![
        dashes(79),
        title_line(),
        dashes(79),
        Seq::empty(),
        labelled(2, "Started"@, spaces(1) + start_text(h.started)),
        labelled(3, "Source"@, spaces(1) + h.source),
        labelled(5, "Dest"@, spaces(1) + h.dest),
        Seq::empty(),
        labelled(4, "Files"@, spaces(1) + h.files),
        seq!['\t'] + spaces(4),
        labelled(2, "Options"@, spaces(1) + h.options + spaces(1)),
        Seq::empty(),
        dashes(78),
    ]
}

/// The banner and the five fields of `h`, laid out as robocopy prints them.
pub open spec fn header_text(h: HeaderView) -> Seq<char> {
    text_lines(header_lines(h))
}

/// Appends `n` times the character `c`.
fn push_repeated(out: &mut String, c: char, n: usize)
    ensures
        final(out)@.len() == old(out)@.len() + n,
        forall|i: int| 0 <= i < old(out)@.len() ==> final(out)@[i] == old(out)@[i],
        forall|i: int| old(out)@.len() <= i < final(out)@.len() ==> final(out)@[i] == c,
{
    let mut i: usize = 0;
    while i < n
        invariant
            i <= n,
            out@.len() == old(out)@.len() + i,
            forall|j: int| 0 <= j < old(out)@.len() ==> out@[j] == old(out)@[j],
            forall|j: int| old(out)@.len() <= j < out@.len() ==> out@[j] == c,
        decreases n - i,
    {
        push_char(out, c);
        i += 1;
    }
}

/// Appends a line of `n` dashes.
fn push_dashes(out: &mut String, n: usize)
    ensures
        final(out)@ == old(out)@ + dashes(n as nat),
{
    push_repeated(out, '-', n);
    assert(out@ =~= old(out)@ + dashes(n as nat));
}

/// Appends `n` blanks.
fn push_spaces(out: &mut String, n: usize)
    ensures
        final(out)@ == old(out)@ + spaces(n as nat),
{
    push_repeated(out, ' ', n);
    assert(out@ =~= old(out)@ + spaces(n as nat));
}

/// Appends the line that gives the field `name` the value `value`, with
/// `tail` blanks behind it.
fn push_labelled(out: &mut String, lead: usize, name: &str, value: &str, tail: usize)
    ensures
        final(out)@ == old(out)@ + labelled(
            lead as nat,
            name@,
            spaces(1) + value@ + spaces(tail as nat),
        ),
{
    push_spaces(out, lead);
    out.append(name);
    push_spaces(out, 1);
    push_char(out, ':');
    push_spaces(out, 1);
    out.append(value);
    push_spaces(out, tail);
    assert(out@ =~= old(out)@ + labelled(
        lead as nat,
        name@,
        spaces(1) + value@ + spaces(tail as nat),
    ));
}

/// The value that the line `line` gives the field `key`, unless `found`
/// already holds one.
fn take_field(found: Option<Vec<char>>, line: &[char], colon: usize, key: &[char]) -> (r: Option<
    Vec<char>,
>)
    requires
        colon == index_of(line@, ':'),
        colon <= line.len(),
    ensures
        text_of(r) == match found {
            Some(v) => Some(v@),
            None => line_field(line@, key@),
        },
{
    if found.is_some() {
        return found;
    }
    if colon >= line.len() {
        return None;
    }
    let name = trimmed(slice_subrange(line, 0, colon));
    proof {
        assert(line@.subrange(0, colon as int) =~= line@.take(colon as int));
    }
    if equals_ignore_case(name.as_slice(), key) {
        let value = trimmed(slice_subrange(line, colon + 1, line.len()));
        proof {
            assert(line@.subrange(colon + 1, line.len() as int) =~= line@.skip(colon + 1));
        }
        Some(value)
    } else {
        None
    }
}

/// Finds the five fields in the header block `text`.
pub fn scan_header_fields(text: &[char]) -> (r: HeaderFields)
    ensures
        text_of(r.started) == header_field(text@, "started"@),
        text_of(r.source) == header_field(text@, "source"@),
        text_of(r.dest) == header_field(text@, "dest"@),
        text_of(r.files) == header_field(text@, "files"@),
        text_of(r.options) == header_field(text@, "options"@),
{
    let k_started = chars_of("started");
    let k_source = chars_of("source");
    let k_dest = chars_of("dest");
    let k_files = chars_of("files");
    let k_options = chars_of("options");
    let mut r = HeaderFields { started: None, source: None, dest: None, files: None, options: None };
    let mut i: usize = 0;
    loop
        invariant
            i <= text.len(),
            k_started@ == "started"@,
            k_source@ == "source"@,
            k_dest@ == "dest"@,
            k_files@ == "files"@,
            k_options@ == "options"@,
            header_field(text@, "started"@) == match r.started {
                Some(v) => Some(v@),
                None => header_field_from(text@, "started"@, i as int),
            },
            header_field(text@, "source"@) == match r.source {
                Some(v) => Some(v@),
                None => header_field_from(text@, "source"@, i as int),
            },
            header_field(text@, "dest"@) == match r.dest {
                Some(v) => Some(v@),
                None => header_field_from(text@, "dest"@, i as int),
            },
            header_field(text@, "files"@) == match r.files {
                Some(v) => Some(v@),
                None => header_field_from(text@, "files"@, i as int),
            },
            header_field(text@, "options"@) == match r.options {
                Some(v) => Some(v@),
                None => header_field_from(text@, "options"@, i as int),
            },
        decreases text.len() - i,
    {
        let end = find_char_from(text, '\n', i);
        let line = slice_subrange(text, i, end);
        let colon = find_char_from(line, ':', 0);
        r.started = take_field(r.started, line, colon, k_started.as_slice());
        r.source = take_field(r.source, line, colon, k_source.as_slice());
        r.dest = take_field(r.dest, line, colon, k_dest.as_slice());
        r.files = take_field(r.files, line, colon, k_files.as_slice());
        r.options = take_field(r.options, line, colon, k_options.as_slice());
        if end >= text.len() {
            return r;
        }
        i = end + 1;
    }
}

impl RobocopyHeader {
    /// Puts a header together from its start time and the other four field
    /// values; the first of these that is missing is reported.
    pub fn assemble(
        started: RobocopyStartDateTime,
        source: Option<Vec<char>>,
        dest: Option<Vec<char>>,
        files: Option<Vec<char>>,
        options: Option<Vec<char>>,
    ) -> (r: Result<RobocopyHeader, RobocopyParseError>)
        ensures
            header_view(r) == assembled(
                started@,
                text_of(source),
                text_of(dest),
                text_of(files),
                text_of(options),
            ),
    {
        let source = match source {
            Some(v) => string_of(v.as_slice()),
            None => { return Err(RobocopyParseError::MissingSource); },
        };
        let dest = match dest {
            Some(v) => string_of(v.as_slice()),
            None => { return Err(RobocopyParseError::MissingDest); },
        };
        let files = match files {
            Some(v) => RobocopyFilePattern::from_chars(v.as_slice()),
            None => { return Err(RobocopyParseError::MissingFiles); },
        };
        let options = match options {
            Some(v) => RobocopyOptions::from_chars(v.as_slice()),
            None => { return Err(RobocopyParseError::MissingOptions); },
        };
        Ok(RobocopyHeader { started, source, dest, files, options })
    }

    /// Reads a header from the characters of a header block: the five fields
    /// are found by key, and the machine's time zone is asked for the offset
    /// of the `Started` time.
    pub fn from_chars(text: &[char]) -> (r: Result<RobocopyHeader, RobocopyParseError>)
        ensures
            exists|zone: spec_fn(CivilDateTime) -> LocalResolution|
                header_view(r) == #[trigger] header_reading(text@, zone),
            r is Ok ==> r->Ok_0@.started.valid(),
    {
        let fields = scan_header_fields(text);
        match fields.started {
            None => {
                proof {
                    let zone = |c: CivilDateTime| LocalResolution::Nonexistent;
                    assert(header_view(Err(RobocopyParseError::MissingStarted)) == header_reading(
                        text@,
                        zone,
                    ));
                }
                Err(RobocopyParseError::MissingStarted)
            },
            Some(value) => {
                match RobocopyStartDateTime::from_chars(value.as_slice()) {
                    Err(e) => {
                        proof {
                            let zone = choose|zone: spec_fn(CivilDateTime) -> LocalResolution|
                                Err::<LocalDateTime, RobocopyParseError>(e)
                                    == #[trigger] start_reading(value@, zone);
                            assert(header_view(Err(e)) == header_reading(text@, zone));
                        }
                        Err(e)
                    },
                    Ok(started) => {
                        proof {
                            let zone = choose|zone: spec_fn(CivilDateTime) -> LocalResolution|
                                Ok::<LocalDateTime, RobocopyParseError>(started@)
                                    == #[trigger] start_reading(value@, zone);
                            assert(assembled(
                                started@,
                                text_of(fields.source),
                                text_of(fields.dest),
                                text_of(fields.files),
                                text_of(fields.options),
                            ) == header_reading(text@, zone));
                        }
                        RobocopyHeader::assemble(
                            started,
                            fields.source,
                            fields.dest,
                            fields.files,
                            fields.options,
                        )
                    },
                }
            },
        }
    }

    /// Reads a header from the text of a header block, as `from_chars` does.
    pub fn from_str(s: &str) -> (r: Result<RobocopyHeader, RobocopyParseError>)
        ensures
            exists|zone: spec_fn(CivilDateTime) -> LocalResolution|
                header_view(r) == #[trigger] header_reading(s@, zone),
            r is Ok ==> r->Ok_0@.started.valid(),
    {
        let text = chars_of(s);
        RobocopyHeader::from_chars(text.as_slice())
    }

    /// The banner and the five fields, laid out as robocopy prints them.
    pub fn to_string(&self) -> (r: String)
        ensures
            r@ == header_text(self@),
    {
        let ghost h = self@;
        let ghost l = header_lines(h);
        let ghost nl = seq!['\n'];
        let started = self.started.to_string();
        let files = self.files.to_string();
        let options = self.options.to_string();
        let mut out = String::new();
        push_dashes(&mut out, 79);
        push_char(&mut out, '\n');
        push_spaces(&mut out, 3);
        out.append("ROBOCOPY");
        push_spaces(&mut out, 5);
        push_char(&mut out, ':');
        out.append(":     Robust File Copy for Windows");
        push_spaces(&mut out, 30);
        push_char(&mut out, '\n');
        push_dashes(&mut out, 79);
        push_char(&mut out, '\n');
        push_char(&mut out, '\n');
        assert(out@ =~= l[0] + nl + l[1] + nl + l[2] + nl + l[3] + nl);
        let ghost top = out@;
        push_labelled(&mut out, 2, "Started", started.as_str(), 0);
        push_char(&mut out, '\n');
        push_labelled(&mut out, 3, "Source", self.source.as_str(), 0);
        push_char(&mut out, '\n');
        push_labelled(&mut out, 5, "Dest", self.dest.as_str(), 0);
        push_char(&mut out, '\n');
        push_char(&mut out, '\n');
        proof {
            assert(spaces(1) + start_text(h.started) + spaces(0) =~= spaces(1) + start_text(
                h.started,
            ));
            assert(spaces(1) + h.source + spaces(0) =~= spaces(1) + h.source);
            assert(spaces(1) + h.dest + spaces(0) =~= spaces(1) + h.dest);
            assert(out@ =~= top + l[4] + nl + l[5] + nl + l[6] + nl + l[7] + nl);
        }
        let ghost middle = out@;
        push_labelled(&mut out, 4, "Files", files.as_str(), 0);
        push_char(&mut out, '\n');
        push_char(&mut out, '\t');
        push_spaces(&mut out, 4);
        push_char(&mut out, '\n');
        push_labelled(&mut out, 2, "Options", options.as_str(), 1);
        push_char(&mut out, '\n');
        push_char(&mut out, '\n');
        push_dashes(&mut out, 78);
        proof {
            assert(spaces(1) + h.files + spaces(0) =~= spaces(1) + h.files);
            assert(out@ =~= middle + l[8] + nl + l[9] + nl + l[10] + nl + l[11] + nl + l[12]);
            lemma_text_lines_13(l);
            assert(out@ =~= text_lines(l));
        }
        out
    }
}

/// Thirteen lines as one text, written out.
proof fn lemma_text_lines_13(l: Seq<Seq<char>>)
    requires
        l.len() == 13,
    ensures
        text_lines(l) == l[0] + seq!['\n'] + l[1] + seq!['\n'] + l[2] + seq!['\n'] + l[3] + seq![
            '\n',
        ] + l[4] + seq!['\n'] + l[5] + seq!['\n'] + l[6] + seq!['\n'] + l[7] + seq!['\n'] + l[8]
            + seq!['\n'] + l[9] + seq!['\n'] + l[10] + seq!['\n'] + l[11] + seq!['\n'] + l[12],
{
    let nl = seq!['\n'];
    let t12 = l.skip(12);
    let t11 = l.skip(11);
    let t10 = l.skip(10);
    let t9 = l.skip(9);
    let t8 = l.skip(8);
    let t7 = l.skip(7);
    let t6 = l.skip(6);
    let t5 = l.skip(5);
    let t4 = l.skip(4);
    let t3 = l.skip(3);
    let t2 = l.skip(2);
    let t1 = l.skip(1);
    assert(text_lines(t12) == l[12]);
    assert(t11.skip(1) =~= t12);
    assert(text_lines(t11) == l[11] + nl + l[12]);
    assert(t10.skip(1) =~= t11);
    assert(text_lines(t10) == l[10] + nl + text_lines(t11));
    assert(t9.skip(1) =~= t10);
    assert(text_lines(t9) == l[9] + nl + text_lines(t10));
    assert(t8.skip(1) =~= t9);
    assert(text_lines(t8) == l[8] + nl + text_lines(t9));
    assert(t7.skip(1) =~= t8);
    assert(text_lines(t7) == l[7] + nl + text_lines(t8));
    assert(t6.skip(1) =~= t7);
    assert(text_lines(t6) == l[6] + nl + text_lines(t7));
    assert(t5.skip(1) =~= t6);
    assert(text_lines(t5) == l[5] + nl + text_lines(t6));
    assert(t4.skip(1) =~= t5);
    assert(text_lines(t4) == l[4] + nl + text_lines(t5));
    assert(t3.skip(1) =~= t4);
    assert(text_lines(t3) == l[3] + nl + text_lines(t4));
    assert(t2.skip(1) =~= t3);
    assert(text_lines(t2) == l[2] + nl + text_lines(t3));
    assert(t1.skip(1) =~= t2);
    assert(text_lines(t1) == l[1] + nl + text_lines(t2));
    assert(text_lines(l) == l[0] + nl + text_lines(t1));
    assert(text_lines(l) =~= l[0] + nl + l[1] + nl + l[2] + nl + l[3] + nl + l[4] + nl + l[5] + nl
        + l[6] + nl + l[7] + nl + l[8] + nl + l[9] + nl + l[10] + nl + l[11] + nl + l[12]);
}

} // verus!
