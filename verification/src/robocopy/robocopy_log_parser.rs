//! The streaming parser: text goes in chunk by chunk, and each call of
//! `advance` gives at most one record back.
//!
//! What the parser does is fixed by a mathematical model: the state is the
//! unread text, the phase and the file whose progress is being followed, and
//! `step` says what one call of `advance` makes of a state.

use crate::local_time::{CivilDateTime, LocalDateTime, LocalResolution};
use crate::robocopy::robocopy_error::RobocopyParseError;
use crate::robocopy::robocopy_header::{header_reading, HeaderView, RobocopyHeader};
use crate::robocopy::robocopy_log_entry::{EntryView, RobocopyLogEntry};
use crate::robocopy::robocopy_log_laws::lemma_progress_by_one;
use crate::robocopy::robocopy_log_line::{
    access_denied_reading, is_new_file, is_new_file_line, new_file_reading,
    parse_access_denied_first_line, parse_new_file_line, parse_percentage_line, percentage,
};
use crate::text::{
    all_are, all_chars_are, chars_of, eq_ignore_case, equals_ignore_case, find_char_from,
    find_terminator, first_terminator, index_of_from, lemma_index_of_from_is, string_of, trim,
    trimmed,
};
use vstd::prelude::*;
use vstd::slice::slice_subrange;

verus! {

/// The two phases of a log: before the header is complete, and after.
#[derive(Debug, Copy, Clone, Eq, PartialEq)]
pub enum InternalState {
    ReadingHeader,
    ReadingEntries,
}

/// What one call of `advance` gives back.
#[derive(Debug, Eq, PartialEq)]
pub enum RobocopyParseAdvance {
    /// The text read so far holds no complete record.
    NeedMoreData,
    /// The header of the log.
    Header(RobocopyHeader),
    /// One entry of the log.
    LogEntry(RobocopyLogEntry),
}

/// The result of `advance` as a mathematical value.
pub enum AdvanceView {
    NeedMoreData,
    Header(HeaderView),
    LogEntry(EntryView),
}

/// A file whose progress is being followed: what the last `NewFile` entry
/// said of it.
pub struct PendingView {
    pub size: usize,
    pub path: Seq<char>,
    pub percentages: Seq<u8>,
}

/// The state of a parser as a mathematical value.
pub struct ParserView {
    /// The text that was accepted and not yet consumed.
    pub buf: Seq<char>,
    /// Whether the header has been read.
    pub phase: InternalState,
    /// The file whose progress is being followed, if any.
    pub pending: Option<PendingView>,
}

/// What one call of `advance` does: the state it leaves and the result it
/// returns.
pub struct Step {
    pub next: ParserView,
    pub outcome: Result<AdvanceView, RobocopyParseError>,
}

impl View for RobocopyParseAdvance {
    type V = AdvanceView;

    open spec fn view(&self) -> AdvanceView {
        match self {
            RobocopyParseAdvance::NeedMoreData => AdvanceView::NeedMoreData,
            RobocopyParseAdvance::Header(h) => AdvanceView::Header(h@),
            RobocopyParseAdvance::LogEntry(e) => AdvanceView::LogEntry(e@),
        }
    }
}

impl PendingView {
    /// The `NewFile` entry that reports this file.
    pub open spec fn entry(self) -> EntryView {
        EntryView::NewFile { size: self.size, path: self.path, percentages: self.percentages }
    }

    /// This file with one more percentage seen.
    pub open spec fn with(self, percent: u8) -> PendingView {
        PendingView {
            size: self.size,
            path: self.path,
            percentages: self.percentages.push(percent),
        }
    }
}

/// The result of `advance`, where it is no error, as a mathematical value.
pub open spec fn advance_view(r: Result<RobocopyParseAdvance, RobocopyParseError>) -> Result<
    AdvanceView,
    RobocopyParseError,
> {
    match r {
        Ok(a) => Ok(a@),
        Err(e) => Err(e),
    }
}

/// Whether the time stamp of the record `r`, if it has one, is a valid
/// local time.
pub open spec fn has_valid_time(r: Result<RobocopyParseAdvance, RobocopyParseError>) -> bool {
    match r {
        Ok(RobocopyParseAdvance::Header(h)) => h@.started.valid(),
        Ok(RobocopyParseAdvance::LogEntry(RobocopyLogEntry::AccessDeniedError { when, .. })) =>
            when.valid(),
        _ => true,
    }
}

/// The state of a parser that has not been given any text.
pub open spec fn initial_state() -> ParserView {
    ParserView { buf: Seq::empty(), phase: InternalState::ReadingHeader, pending: None }
}

/// The state `s` after the text `chunk` was accepted.
pub open spec fn accepted(s: ParserView, chunk: Seq<char>) -> ParserView {
    ParserView { buf: s.buf + chunk, phase: s.phase, pending: s.pending }
}

/// A state of the entry phase.
pub open spec fn entries_state(buf: Seq<char>, pending: Option<PendingView>) -> ParserView {
    ParserView { buf, phase: InternalState::ReadingEntries, pending }
}

/// Whether `line` is a dash-separator line: dashes and nothing else, but
/// for white space around them.
pub open spec fn is_dash_line(line: Seq<char>) -> bool {
    trim(line).len() > 0 && all_are(trim(line), '-')
}

/// The index just behind the `wanted`-th dash-separator line among the
/// complete lines of `s` that start at `from` or later; a line is complete
/// when its line feed is there.
pub open spec fn dash_line_end_from(s: Seq<char>, from: int, wanted: nat) -> Option<int>
    decreases s.len() - from,
{
    if from < 0 || from > s.len() || wanted == 0 {
        None
    } else {
        let end = index_of_from(s, '\n', from);
        if !(from <= end < s.len()) {
            None
        } else if !is_dash_line(s.subrange(from, end)) {
            dash_line_end_from(s, end + 1, wanted)
        } else if wanted == 1 {
            Some(end + 1)
        } else {
            dash_line_end_from(s, end + 1, (wanted - 1) as nat)
        }
    }
}

/// Where the header block ends in `s`: just behind its third dash-separator
/// line, if that line is complete.
pub open spec fn header_end(s: Seq<char>) -> Option<int> {
    dash_line_end_from(s, 0, 3)
}

/// The number of dash-separator lines among the complete lines of `s` that
/// start at `from` or later.
pub open spec fn dash_lines_from(s: Seq<char>, from: int) -> nat
    decreases s.len() - from,
{
    if from < 0 || from > s.len() {
        0
    } else {
        let end = index_of_from(s, '\n', from);
        if !(from <= end < s.len()) {
            0
        } else {
            dash_lines_from(s, end + 1) + if is_dash_line(s.subrange(from, end)) {
                1nat
            } else {
                0nat
            }
        }
    }
}

/// The number of dash-separator lines among the complete lines of `s`.
pub open spec fn dash_lines(s: Seq<char>) -> nat {
    dash_lines_from(s, 0)
}

/// Where the complete lines of `s` end: just behind its last line feed, or
/// at 0 if it has none.
pub open spec fn complete_lines_end(s: Seq<char>) -> int
    decreases s.len(),
{
    if s.len() == 0 {
        0
    } else if s.last() == '\n' {
        s.len() as int
    } else {
        complete_lines_end(s.drop_last())
    }
}

/// The bookmark of the header scan after a call of `advance`: the offset up
/// to which the text was scanned for dash lines, and the dash lines seen
/// before it. In the entry phase it is not touched. In the header phase a
/// call that asks for more data has scanned all complete lines of the
/// text; a call that gives the header leaves offset 0 and the three dash
/// lines it saw; a call that fails leaves 0 and 0.
pub open spec fn scan_after(
    phase: InternalState,
    offset: nat,
    dashes: nat,
    left: Seq<char>,
    outcome: Result<AdvanceView, RobocopyParseError>,
) -> (nat, nat) {
    match phase {
        InternalState::ReadingEntries => (offset, dashes),
        InternalState::ReadingHeader => match outcome {
            Ok(AdvanceView::NeedMoreData) => (complete_lines_end(left) as nat, dash_lines(left)),
            Ok(_) => (0, 3),
            Err(_) => (0, 0),
        },
    }
}

/// One call of `advance` in the header phase. Until the third dash line is
/// complete nothing happens. Then the block up to it is consumed and read as
/// a header; if that succeeds the entries phase begins.
pub open spec fn header_step(
    s: ParserView,
    zone: spec_fn(CivilDateTime) -> LocalResolution,
) -> Step {
    match header_end(s.buf) {
        None => Step { next: s, outcome: Ok(AdvanceView::NeedMoreData) },
        Some(end) => match header_reading(s.buf.take(end), zone) {
            Ok(header) => Step {
                next: ParserView {
                    buf: s.buf.skip(end),
                    phase: InternalState::ReadingEntries,
                    pending: s.pending,
                },
                outcome: Ok(AdvanceView::Header(header)),
            },
            Err(e) => Step {
                next: ParserView { buf: s.buf.skip(end), phase: s.phase, pending: s.pending },
                outcome: Err(e),
            },
        },
    }
}

/// Whether the line after an access-denied line confirms it, and is
/// consumed with it: it is blank or says `Access is denied.`.
pub open spec fn confirms_denial(second: Seq<char>) -> bool {
    trim(second).len() == 0 || eq_ignore_case(trim(second), "Access is denied."@)
}

/// What the line `line` makes of the entry phase while the progress of
/// `file` is followed; `rest` is the text behind the line. `None` says that
/// the line is noise.
///
/// A percentage is added to the history and reported; 100 ends the file. A
/// "New File" line ends the file as it stands and is put back for the next
/// call.
pub open spec fn pending_line_step(line: Seq<char>, rest: Seq<char>, file: PendingView) -> Option<
    Step,
> {
    match percentage(line) {
        Some(percent) => Some(
            Step {
                next: entries_state(
                    rest,
                    if percent == 100 {
                        None
                    } else {
                        Some(file.with(percent))
                    },
                ),
                outcome: Ok(AdvanceView::LogEntry(file.with(percent).entry())),
            },
        ),
        None => if is_new_file(line) {
            Some(
                Step {
                    next: entries_state(line + seq!['\n'] + rest, None),
                    outcome: Ok(AdvanceView::LogEntry(file.entry())),
                },
            )
        } else {
            None
        },
    }
}

/// What the line `line` makes of the entry phase while no file is followed;
/// `rest` is the text behind the line. `None` says that the line is noise.
///
/// An access-denied line waits until the line after it is complete, and is
/// put back meanwhile; then it is reported, together with that line if it
/// confirms the denial. A "New File" line starts a file and reports it with
/// no percentage yet.
pub open spec fn fresh_line_step(
    line: Seq<char>,
    rest: Seq<char>,
    zone: spec_fn(CivilDateTime) -> LocalResolution,
) -> Option<Step> {
    match access_denied_reading(line, zone) {
        Err(e) => Some(Step { next: entries_state(rest, None), outcome: Err(e) }),
        Ok(Some((when, path))) => {
            let end = first_terminator(rest);
            if !(0 <= end < rest.len()) {
                Some(
                    Step {
                        next: entries_state(line + seq!['\n'] + rest, None),
                        outcome: Ok(AdvanceView::NeedMoreData),
                    },
                )
            } else {
                Some(
                    Step {
                        next: entries_state(
                            if confirms_denial(rest.take(end + 1)) {
                                rest.skip(end + 1)
                            } else {
                                rest
                            },
                            None,
                        ),
                        outcome: Ok(
                            AdvanceView::LogEntry(EntryView::AccessDeniedError { when, path }),
                        ),
                    },
                )
            }
        },
        Ok(None) => if is_new_file(line) {
            match new_file_reading(line) {
                Some((size, path)) => {
                    let file = PendingView { size, path, percentages: Seq::empty() };
                    Some(
                        Step {
                            next: entries_state(rest, Some(file)),
                            outcome: Ok(AdvanceView::LogEntry(file.entry())),
                        },
                    )
                },
                None => Some(
                    Step {
                        next: entries_state(rest, None),
                        outcome: Err(RobocopyParseError::InvalidNewFileLine),
                    },
                ),
            }
        } else {
            None
        },
    }
}

/// One call of `advance` in the entry phase. The text up to the first line
/// terminator is taken off and looked at without its surrounding white
/// space; noise is dropped and the next line looked at, until a line gives
/// a result or no complete line is left.
pub open spec fn entry_step(
    buf: Seq<char>,
    pending: Option<PendingView>,
    zone: spec_fn(CivilDateTime) -> LocalResolution,
) -> Step
    decreases buf.len(),
{
    let end = first_terminator(buf);
    if !(0 <= end < buf.len()) {
        Step { next: entries_state(buf, pending), outcome: Ok(AdvanceView::NeedMoreData) }
    } else {
        let line = trim(buf.take(end));
        let rest = buf.skip(end + 1);
        let found = match pending {
            Some(file) => pending_line_step(line, rest, file),
            None => fresh_line_step(line, rest, zone),
        };
        match found {
            Some(step) => step,
            None => entry_step(rest, pending, zone),
        }
    }
}

/// Whether the first line of `buf` is complete and is a "New File" line.
pub open spec fn begins_with_new_file_line(buf: Seq<char>) -> bool {
    0 <= first_terminator(buf) < buf.len() && is_new_file(trim(buf.take(first_terminator(buf))))
}

/// Progress of a file, one value at a time. It speaks of a call in the
/// entry phase that reports a `NewFile` entry, from the state `before` to
/// the state `after`.
///
/// While a file is followed, the entry has that file's size and path, and
/// one of two things holds. Either its percentages are the file's with
/// exactly one value of at most 100 added; then the file is followed
/// further as the entry reports it, unless the value is 100, which ends it.
/// Or its percentages are the file's own, because the next file cut it
/// short; then no file is followed, and the unread text begins with the
/// "New File" line that cut it.
///
/// While no file is followed, the entry starts one: it has no percentage
/// yet, and the file is followed as the entry reports it.
pub open spec fn progress_by_one(
    before: ParserView,
    after: ParserView,
    outcome: Result<AdvanceView, RobocopyParseError>,
) -> bool {
    match outcome {
        Ok(AdvanceView::LogEntry(EntryView::NewFile { size, path, percentages })) => {
            let reported = PendingView { size, path, percentages };
            before.phase is ReadingEntries ==> match before.pending {
                Some(file) => {
                    &&& size == file.size
                    &&& path == file.path
                    &&& ({
                        ||| {
                            &&& percentages.len() == file.percentages.len() + 1
                            &&& percentages.drop_last() == file.percentages
                            &&& percentages.last() <= 100
                            &&& after.pending == if percentages.last() == 100 {
                                None
                            } else {
                                Some(reported)
                            }
                        }
                        ||| {
                            &&& percentages == file.percentages
                            &&& after.pending is None
                            &&& begins_with_new_file_line(after.buf)
                        }
                    })
                },
                None => percentages.len() == 0 && after.pending == Some(reported),
            }
        },
        _ => true,
    }
}

/// One call of `advance`, where `zone` is the time zone's answer for each
/// wall clock time.
pub open spec fn step(s: ParserView, zone: spec_fn(CivilDateTime) -> LocalResolution) -> Step {
    match s.phase {
        InternalState::ReadingHeader => header_step(s, zone),
        InternalState::ReadingEntries => entry_step(s.buf, s.pending, zone),
    }
}

/// A "New File" entry whose last state has not been seen yet.
#[derive(Debug)]
struct PendingNewFile {
    size: usize,
    path: String,
    percentages: Vec<u8>,
}

/// The streaming parser of a robocopy log.
#[derive(Debug)]
pub struct RobocopyLogParser {
    buf: Vec<char>,
    state: InternalState,
    /// Dash lines seen in the text before `header_scan_pos`.
    header_dash_count: u8,
    /// Start of the first line that was not yet looked at for dashes.
    header_scan_pos: usize,
    /// The file whose progress is being followed.
    pending_new_file: Option<PendingNewFile>,
}

impl PendingNewFile {
    spec fn view(&self) -> PendingView {
        PendingView { size: self.size, path: self.path@, percentages: self.percentages@ }
    }
}

/// Whether scanning the text `buf + more` for dash lines from the bookmark
/// `pos`, with `count` dash lines seen before it, finds what a scan from the
/// start finds: the same end of the header and the same number of dash
/// lines.
pub open spec fn resumes_at(buf: Seq<char>, more: Seq<char>, pos: int, count: int) -> bool {
    &&& header_end(buf + more) == dash_line_end_from(buf + more, pos, (3 - count) as nat)
    &&& dash_lines(buf + more) == count + dash_lines_from(buf + more, pos)
}

/// Where a line starts at `pos` and no line feed follows, the complete
/// lines end at `pos`.
proof fn lemma_complete_lines_end(s: Seq<char>, pos: int)
    requires
        0 <= pos <= s.len(),
        pos == 0 || s[pos - 1] == '\n',
        forall|j: int| pos <= j < s.len() ==> #[trigger] s[j] != '\n',
    ensures
        complete_lines_end(s) == pos,
    decreases s.len() - pos,
{
    if pos < s.len() {
        let t = s.drop_last();
        assert(s.last() != '\n');
        assert forall|j: int| pos <= j < t.len() implies #[trigger] t[j] != '\n' by {
            assert(t[j] == s[j]);
        }
        if pos > 0 {
            assert(t[pos - 1] == s[pos - 1]);
        }
        lemma_complete_lines_end(t, pos);
    }
}

/// A line that is complete in `buf` is the same line in `buf + more`.
proof fn lemma_line_in_longer_text(buf: Seq<char>, more: Seq<char>, from: int, end: int)
    requires
        0 <= from <= end < buf.len(),
        end == index_of_from(buf, '\n', from),
        buf[end] == '\n',
        forall|j: int| from <= j < end ==> #[trigger] buf[j] != '\n',
    ensures
        index_of_from(buf + more, '\n', from) == end,
        (buf + more).subrange(from, end) == buf.subrange(from, end),
{
    let t = buf + more;
    assert forall|j: int| from <= j < end implies #[trigger] t[j] != '\n' by {
        assert(t[j] == buf[j]);
    }
    assert(t[end] == buf[end]);
    lemma_index_of_from_is(t, '\n', from, end);
    assert(t.subrange(from, end) =~= buf.subrange(from, end));
}

impl View for RobocopyLogParser {
    type V = ParserView;

    closed spec fn view(&self) -> ParserView {
        ParserView {
            buf: self.buf@,
            phase: self.state,
            pending: match self.pending_new_file {
                Some(file) => Some(file.view()),
                None => None,
            },
        }
    }
}

impl Default for RobocopyLogParser {
    fn default() -> (r: RobocopyLogParser)
        ensures
            r.wf(),
            r@ == initial_state(),
            r.scan_offset() == 0,
            r.dashes_seen() == 0,
    {
        RobocopyLogParser::new()
    }
}

impl RobocopyLogParser {
    /// The bookmark of the header scan is sound: whatever text is added,
    /// going on from it finds the end of the header where a scan from the
    /// start finds it.
    pub closed spec fn wf(&self) -> bool {
        self.state is ReadingHeader ==> {
            &&& self.header_scan_pos <= self.buf@.len()
            &&& self.header_dash_count < 3
            &&& (self.header_scan_pos == 0 || self.buf@[self.header_scan_pos - 1] == '\n')
            &&& forall|more: Seq<char>| #[trigger]
                resumes_at(
                    self.buf@,
                    more,
                    self.header_scan_pos as int,
                    self.header_dash_count as int,
                )
        }
    }

    /// The offset in the unread text up to which it was scanned for dash
    /// lines.
    pub closed spec fn scan_offset(&self) -> nat {
        self.header_scan_pos as nat
    }

    /// The number of dash lines that were seen before the scan offset.
    pub closed spec fn dashes_seen(&self) -> nat {
        self.header_dash_count as nat
    }

    /// A parser that has not been given any text.
    #[must_use]
    pub fn new() -> (r: RobocopyLogParser)
        ensures
            r.wf(),
            r@ == initial_state(),
            r.scan_offset() == 0,
            r.dashes_seen() == 0,
    {
        RobocopyLogParser {
            buf: Vec::new(),
            state: InternalState::ReadingHeader,
            header_dash_count: 0,
            header_scan_pos: 0,
            pending_new_file: None,
        }
    }

    /// Accepts a chunk of the log: it is added behind the unread text.
    /// Nothing is parsed, and the bookmark of the header scan stays.
    pub fn accept(&mut self, chunk: &str)
        requires
            old(self).wf(),
        ensures
            final(self).wf(),
            final(self)@ == accepted(old(self)@, chunk@),
            final(self).scan_offset() == old(self).scan_offset(),
            final(self).dashes_seen() == old(self).dashes_seen(),
    {
        let mut more = chars_of(chunk);
        proof {
            if self.state is ReadingHeader {
                assert forall|x: Seq<char>| #[trigger]
                    resumes_at(
                        self.buf@ + chunk@,
                        x,
                        self.header_scan_pos as int,
                        self.header_dash_count as int,
                    ) by {
                    assert((self.buf@ + chunk@) + x =~= self.buf@ + (chunk@ + x));
                    assert(resumes_at(
                        self.buf@,
                        chunk@ + x,
                        self.header_scan_pos as int,
                        self.header_dash_count as int,
                    ));
                }
            }
        }
        self.buf.append(&mut more);
    }

    /// Tries to take one record off the unread text.
    ///
    /// The machine's time zone is asked at most once, for the time stamp of
    /// the record; whatever it answers, the call does what `step` says for
    /// that answer.
    pub fn advance(&mut self) -> (r: Result<RobocopyParseAdvance, RobocopyParseError>)
        requires
            old(self).wf(),
        ensures
            final(self).wf(),
            exists|zone: spec_fn(CivilDateTime) -> LocalResolution| #[trigger]
                step(old(self)@, zone) == (Step { next: final(self)@, outcome: advance_view(r) }),
            has_valid_time(r),
            (final(self).scan_offset(), final(self).dashes_seen()) == scan_after(
                old(self)@.phase,
                old(self).scan_offset(),
                old(self).dashes_seen(),
                final(self)@.buf,
                advance_view(r),
            ),
            progress_by_one(old(self)@, final(self)@, advance_view(r)),
    {
        match self.state {
            InternalState::ReadingHeader => {
                let r = self.try_parse_header();
                proof {
                    let zone = choose|zone: spec_fn(CivilDateTime) -> LocalResolution| #[trigger]
                        header_step(old(self)@, zone) == (Step {
                            next: self@,
                            outcome: advance_view(r),
                        });
                    assert(step(old(self)@, zone) == (Step {
                        next: self@,
                        outcome: advance_view(r),
                    }));
                }
                r
            },
            InternalState::ReadingEntries => {
                let r = self.try_parse_entry();
                proof {
                    let zone = choose|zone: spec_fn(CivilDateTime) -> LocalResolution| #[trigger]
                        entry_step(old(self)@.buf, old(self)@.pending, zone) == (Step {
                            next: self@,
                            outcome: advance_view(r),
                        });
                    assert(step(old(self)@, zone) == (Step {
                        next: self@,
                        outcome: advance_view(r),
                    }));
                    lemma_progress_by_one(old(self)@, zone);
                }
                r
            },
        }
    }

    fn try_parse_header(&mut self) -> (r: Result<RobocopyParseAdvance, RobocopyParseError>)
        requires
            old(self).wf(),
            old(self).state is ReadingHeader,
        ensures
            final(self).wf(),
            exists|zone: spec_fn(CivilDateTime) -> LocalResolution| #[trigger]
                header_step(old(self)@, zone) == (Step {
                    next: final(self)@,
                    outcome: advance_view(r),
                }),
            has_valid_time(r),
            (final(self).scan_offset(), final(self).dashes_seen()) == scan_after(
                InternalState::ReadingHeader,
                old(self).scan_offset(),
                old(self).dashes_seen(),
                final(self)@.buf,
                advance_view(r),
            ),
    {
        let ghost text = self.buf@;
        let mut scan_pos = self.header_scan_pos;
        let mut count = self.header_dash_count;
        loop
            invariant
                self.buf@ == text,
                self@ == old(self)@,
                self.state is ReadingHeader,
                scan_pos <= text.len(),
                count < 3,
                scan_pos == 0 || text[scan_pos - 1] == '\n',
                forall|more: Seq<char>| #[trigger] resumes_at(text, more, scan_pos as int, count as int),
            decreases text.len() - scan_pos,
        {
            let end = find_char_from(self.buf.as_slice(), '\n', scan_pos);
            if end >= self.buf.len() {
                self.header_scan_pos = scan_pos;
                self.header_dash_count = count;
                proof {
                    assert(resumes_at(text, Seq::empty(), scan_pos as int, count as int));
                    assert(text + Seq::<char>::empty() =~= text);
                    lemma_complete_lines_end(text, scan_pos as int);
                    assert(dash_lines_from(text, scan_pos as int) == 0);
                    let zone = |c: CivilDateTime| LocalResolution::Nonexistent;
                    assert(header_step(old(self)@, zone) == (Step {
                        next: self@,
                        outcome: Ok(AdvanceView::NeedMoreData),
                    }));
                }
                return Ok(RobocopyParseAdvance::NeedMoreData);
            }
            let line = trimmed(slice_subrange(self.buf.as_slice(), scan_pos, end));
            let dashes = line.len() > 0 && all_chars_are(line.as_slice(), '-');
            proof {
                assert(dashes == is_dash_line(text.subrange(scan_pos as int, end as int)));
                assert forall|more: Seq<char>| #[trigger]
                    resumes_at(
                        text,
                        more,
                        scan_pos as int,
                        count as int,
                    ) implies dash_line_end_from(text + more, scan_pos as int, (3 - count) as nat)
                    == (if !dashes {
                    dash_line_end_from(text + more, end + 1, (3 - count) as nat)
                } else if count == 2 {
                    Some(end + 1)
                } else {
                    dash_line_end_from(text + more, end + 1, (3 - count - 1) as nat)
                }) && dash_lines_from(text + more, scan_pos as int) == dash_lines_from(
                    text + more,
                    end + 1,
                ) + (if dashes {
                    1nat
                } else {
                    0nat
                }) by {
                    lemma_line_in_longer_text(text, more, scan_pos as int, end as int);
                }
            }
            if dashes {
                count = count + 1;
                if count == 3 {
                    let rest = self.buf.split_off(end + 1);
                    proof {
                        assert(resumes_at(text, Seq::empty(), scan_pos as int, 2));
                        assert(text + Seq::<char>::empty() =~= text);
                        assert(header_end(text) == Some(end + 1));
                        assert(self.buf@ =~= text.take(end + 1));
                        assert(rest@ =~= text.skip(end + 1));
                    }
                    let parsed = RobocopyHeader::from_chars(self.buf.as_slice());
                    self.header_scan_pos = 0;
                    self.header_dash_count = 0;
                    self.buf = rest;
                    proof {
                        assert forall|more: Seq<char>| #[trigger]
                            resumes_at(rest@, more, 0, 0) by {}
                    }
                    match parsed {
                        Ok(header) => {
                            self.state = InternalState::ReadingEntries;
                            self.header_dash_count = 3;
                            proof {
                                let zone = choose|zone: spec_fn(CivilDateTime) -> LocalResolution|
                                    Ok::<HeaderView, RobocopyParseError>(header@)
                                        == #[trigger] header_reading(text.take(end + 1), zone);
                                assert(header_step(old(self)@, zone) == (Step {
                                    next: self@,
                                    outcome: Ok(AdvanceView::Header(header@)),
                                }));
                            }
                            return Ok(RobocopyParseAdvance::Header(header));
                        },
                        Err(e) => {
                            proof {
                                let zone = choose|zone: spec_fn(CivilDateTime) -> LocalResolution|
                                    Err::<HeaderView, RobocopyParseError>(e)
                                        == #[trigger] header_reading(text.take(end + 1), zone);
                                assert(header_step(old(self)@, zone) == (Step {
                                    next: self@,
                                    outcome: Err(e),
                                }));
                            }
                            return Err(e);
                        },
                    }
                }
            }
            proof {
                assert forall|more: Seq<char>| #[trigger]
                    resumes_at(text, more, end + 1, count as int) by {
                    assert(resumes_at(text, more, scan_pos as int, (count - if dashes {
                        1int
                    } else {
                        0int
                    })));
                }
            }
            scan_pos = end + 1;
        }
    }

    fn try_parse_entry(&mut self) -> (r: Result<RobocopyParseAdvance, RobocopyParseError>)
        requires
            old(self).state is ReadingEntries,
        ensures
            final(self).state is ReadingEntries,
            exists|zone: spec_fn(CivilDateTime) -> LocalResolution| #[trigger]
                entry_step(old(self)@.buf, old(self)@.pending, zone) == (Step {
                    next: final(self)@,
                    outcome: advance_view(r),
                }),
            has_valid_time(r),
            final(self).scan_offset() == old(self).scan_offset(),
            final(self).dashes_seen() == old(self).dashes_seen(),
    {
        let ghost any = |c: CivilDateTime| LocalResolution::Nonexistent;
        loop
            invariant
                self.state is ReadingEntries,
                self.header_scan_pos == old(self).header_scan_pos,
                self.header_dash_count == old(self).header_dash_count,
                forall|zone: spec_fn(CivilDateTime) -> LocalResolution|
                    entry_step(old(self)@.buf, old(self)@.pending, zone) == #[trigger] entry_step(
                        self@.buf,
                        self@.pending,
                        zone,
                    ),
            decreases self.buf.len(),
        {
            let ghost before = self@;
            let end = find_terminator(self.buf.as_slice());
            if end >= self.buf.len() {
                proof {
                    assert(entry_step(before.buf, before.pending, any) == (Step {
                        next: self@,
                        outcome: Ok(AdvanceView::NeedMoreData),
                    }));
                }
                return Ok(RobocopyParseAdvance::NeedMoreData);
            }
            let mut rest = self.buf.split_off(end + 1);
            let mut line = trimmed(slice_subrange(self.buf.as_slice(), 0, end));
            proof {
                assert(self.buf@.subrange(0, end as int) =~= before.buf.take(end as int));
                assert(rest@ =~= before.buf.skip(end + 1));
            }
            match self.pending_new_file.take() {
                Some(mut file) => {
                    let ghost was = file.view();
                    if let Some(percent) = parse_percentage_line(line.as_slice()) {
                        file.percentages.push(percent);
                        let entry = RobocopyLogEntry::NewFile {
                            size: file.size,
                            path: file.path.clone(),
                            percentages: file.percentages.clone(),
                        };
                        self.buf = rest;
                        if percent != 100 {
                            self.pending_new_file = Some(file);
                        }
                        proof {
                            assert(entry@ == was.with(percent).entry());
                            assert(entry_step(before.buf, before.pending, any) == (Step {
                                next: self@,
                                outcome: Ok(AdvanceView::LogEntry(entry@)),
                            }));
                        }
                        return Ok(RobocopyParseAdvance::LogEntry(entry));
                    } else if is_new_file_line(line.as_slice()) {
                        let entry = RobocopyLogEntry::NewFile {
                            size: file.size,
                            path: file.path,
                            percentages: file.percentages,
                        };
                        let ghost shown = line@;
                        line.push('\n');
                        line.append(&mut rest);
                        self.buf = line;
                        proof {
                            assert(self.buf@ =~= shown + seq!['\n'] + before.buf.skip(end + 1));
                            assert(entry_step(before.buf, before.pending, any) == (Step {
                                next: self@,
                                outcome: Ok(AdvanceView::LogEntry(entry@)),
                            }));
                        }
                        return Ok(RobocopyParseAdvance::LogEntry(entry));
                    }
                    self.buf = rest;
                    self.pending_new_file = Some(file);
                    proof {
                        assert forall|zone: spec_fn(CivilDateTime) -> LocalResolution|
                            entry_step(before.buf, before.pending, zone) == #[trigger] entry_step(
                                self@.buf,
                                self@.pending,
                                zone,
                            ) by {}
                    }
                },
                None => {
                    let denied = parse_access_denied_first_line(line.as_slice());
                    let ghost zone = choose|zone: spec_fn(CivilDateTime) -> LocalResolution|
                        (match denied {
                            Ok(Some((when, path))) => Ok(Some((when, path@))),
                            Ok(None) => Ok(None),
                            Err(e) => Err(e),
                        }) == #[trigger] access_denied_reading(line@, zone);
                    match denied {
                        Err(e) => {
                            self.buf = rest;
                            proof {
                                assert(entry_step(before.buf, before.pending, zone) == (Step {
                                    next: self@,
                                    outcome: Err(e),
                                }));
                            }
                            return Err(e);
                        },
                        Ok(Some((when, path))) => {
                            let entry = RobocopyLogEntry::AccessDeniedError {
                                when,
                                path: string_of(path.as_slice()),
                            };
                            let end2 = find_terminator(rest.as_slice());
                            if end2 >= rest.len() {
                                let ghost shown = line@;
                                line.push('\n');
                                line.append(&mut rest);
                                self.buf = line;
                                proof {
                                    assert(self.buf@ =~= shown + seq!['\n'] + before.buf.skip(
                                        end + 1,
                                    ));
                                    assert(entry_step(before.buf, before.pending, zone) == (Step {
                                        next: self@,
                                        outcome: Ok(AdvanceView::NeedMoreData),
                                    }));
                                }
                                return Ok(RobocopyParseAdvance::NeedMoreData);
                            }
                            let second = trimmed(slice_subrange(rest.as_slice(), 0, end2 + 1));
                            let words = chars_of("Access is denied.");
                            proof {
                                assert(rest@.subrange(0, end2 + 1) =~= rest@.take(end2 + 1));
                            }
                            if second.len() == 0 || equals_ignore_case(
                                second.as_slice(),
                                words.as_slice(),
                            ) {
                                let tail = rest.split_off(end2 + 1);
                                self.buf = tail;
                            } else {
                                self.buf = rest;
                            }
                            proof {
                                assert(entry_step(before.buf, before.pending, zone) == (Step {
                                    next: self@,
                                    outcome: Ok(AdvanceView::LogEntry(entry@)),
                                }));
                            }
                            return Ok(RobocopyParseAdvance::LogEntry(entry));
                        },
                        Ok(None) => {
                            self.buf = rest;
                            if is_new_file_line(line.as_slice()) {
                                match parse_new_file_line(line.as_slice()) {
                                    Some((size, path)) => {
                                        let path = string_of(path.as_slice());
                                        self.pending_new_file = Some(
                                            PendingNewFile {
                                                size,
                                                path: path.clone(),
                                                percentages: Vec::new(),
                                            },
                                        );
                                        let entry = RobocopyLogEntry::NewFile {
                                            size,
                                            path,
                                            percentages: Vec::new(),
                                        };
                                        proof {
                                            assert(entry_step(before.buf, before.pending, any)
                                                == (Step {
                                                next: self@,
                                                outcome: Ok(AdvanceView::LogEntry(entry@)),
                                            }));
                                        }
                                        return Ok(RobocopyParseAdvance::LogEntry(entry));
                                    },
                                    None => {
                                        proof {
                                            assert(entry_step(before.buf, before.pending, any)
                                                == (Step {
                                                next: self@,
                                                outcome: Err(
                                                    RobocopyParseError::InvalidNewFileLine,
                                                ),
                                            }));
                                        }
                                        return Err(RobocopyParseError::InvalidNewFileLine);
                                    },
                                }
                            }
                            proof {
                                assert forall|zone: spec_fn(CivilDateTime) -> LocalResolution|
                                    entry_step(before.buf, before.pending, zone)
                                        == #[trigger] entry_step(
                                        self@.buf,
                                        self@.pending,
                                        zone,
                                    ) by {
                                    assert(access_denied_reading(line@, zone) == Ok::<
                                        Option<(LocalDateTime, Seq<char>)>,
                                        RobocopyParseError,
                                    >(None));
                                }
                            }
                        },
                    }
                },
            }
        }
    }
}

} // verus!
