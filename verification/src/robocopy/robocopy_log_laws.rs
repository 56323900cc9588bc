//! What holds of the parser whatever text it is given: laws of the model
//! that `advance` follows, proved from the model alone.

use crate::local_time::{CivilDateTime, LocalResolution};
use crate::robocopy::robocopy_error::RobocopyParseError;
use crate::robocopy::robocopy_log_entry::EntryView;
use crate::robocopy::robocopy_log_line::{access_denied_reading, is_access_denied, percentage};
use crate::robocopy::robocopy_log_parser::{
    accepted, dash_line_end_from, entries_state, entry_step, fresh_line_step, header_end,
    initial_state, pending_line_step, progress_by_one, step, AdvanceView, InternalState, ParserView,
    PendingView, Step,
};
use crate::text::{
    first_terminator, index_of_from, is_terminator, lemma_first_terminator,
    lemma_first_terminator_extend, lemma_first_terminator_is, lemma_index_of_from,
    lemma_index_of_from_is, lemma_trim, lemma_trim_idempotent, tokens, trim,
};
use vstd::prelude::*;

verus! {

/// How much a state has left to give: twice the unread text, and one more
/// while a file is followed.
pub open spec fn load(s: ParserView) -> nat {
    2 * s.buf.len() + if s.pending is Some {
        1nat
    } else {
        0nat
    }
}

/// Whether the entry `entry` continues the file `file` by one step: it
/// reports the same size and path, and either the same percentages (the
/// file was cut short by the next one) or one more, at most 100.
pub open spec fn continues(file: PendingView, entry: EntryView) -> bool {
    &&& entry is NewFile
    &&& entry->size == file.size
    &&& entry->NewFile_path == file.path
    &&& (entry->percentages == file.percentages || (entry->percentages.len()
        == file.percentages.len() + 1 && entry->percentages.drop_last() == file.percentages
        && entry->percentages.last() <= 100))
}

/// The file that is followed once `entry` was reported while `file` was:
/// none, if the entry ended its file with 100 or reports a file that was
/// cut short; else the file as the entry reports it. After an access-denied
/// entry none is followed.
pub open spec fn followed_after(file: Option<PendingView>, entry: EntryView) -> Option<PendingView> {
    match entry {
        EntryView::AccessDeniedError { .. } => None,
        EntryView::NewFile { size, path, percentages } => {
            let closed = match file {
                Some(f) => percentages == f.percentages || percentages.last() == 100,
                None => false,
            };
            if closed {
                None
            } else {
                Some(PendingView { size, path, percentages })
            }
        },
    }
}

/// Whether `next` is what is followed once `entry` was reported.
pub open spec fn follows(file: Option<PendingView>, entry: EntryView, next: Option<PendingView>) -> bool {
    next == followed_after(file, entry)
}

/// Whether the record `event` is in step with the file `file` that is
/// followed when it comes: an entry continues that file by one step, or,
/// with no file followed, starts one with no percentage.
pub open spec fn in_step(file: Option<PendingView>, event: AdvanceView) -> bool {
    match event {
        AdvanceView::LogEntry(entry) => match file {
            Some(f) => continues(f, entry),
            None => entry is NewFile ==> entry->percentages.len() == 0,
        },
        _ => true,
    }
}

/// The file that is followed once `event` was given while `file` was.
pub open spec fn file_after(file: Option<PendingView>, event: AdvanceView) -> Option<PendingView> {
    match event {
        AdvanceView::LogEntry(entry) => followed_after(file, entry),
        _ => file,
    }
}

/// The file that is followed once the records `events` were given, one
/// after the other, beginning while `file` was followed.
pub open spec fn file_after_all(file: Option<PendingView>, events: Seq<AdvanceView>) -> Option<
    PendingView,
>
    decreases events.len(),
{
    if events.len() == 0 {
        file
    } else {
        file_after_all(file_after(file, events[0]), events.skip(1))
    }
}

/// Whether each of the records `events` is in step with the file that is
/// followed when it comes, beginning while `file` is followed.
pub open spec fn progressive(file: Option<PendingView>, events: Seq<AdvanceView>) -> bool
    decreases events.len(),
{
    events.len() > 0 ==> in_step(file, events[0]) && progressive(
        file_after(file, events[0]),
        events.skip(1),
    )
}

/// A line of the entry phase has no line terminator in it, and is not
/// blank if it has the shape of an access-denied line.
proof fn lemma_line_has_no_terminator(buf: Seq<char>)
    requires
        first_terminator(buf) < buf.len(),
    ensures
        forall|i: int|
            0 <= i < trim(buf.take(first_terminator(buf))).len() ==> !is_terminator(
                #[trigger] trim(buf.take(first_terminator(buf)))[i],
            ),
        trim(buf.take(first_terminator(buf))).len() <= first_terminator(buf),
{
    lemma_first_terminator(buf);
    let raw = buf.take(first_terminator(buf));
    lemma_trim(raw);
    let line = trim(raw);
    assert forall|i: int| 0 <= i < line.len() implies !is_terminator(#[trigger] line[i]) by {
        assert(line[i] == raw[crate::text::trim_lo(raw) + i]);
        assert(raw[crate::text::trim_lo(raw) + i] == buf[crate::text::trim_lo(raw) + i]);
    }
}

/// One step of the entry phase stays in the entry phase and never gives a
/// header. A step that gives an entry lowers the load; one that asks for
/// more data follows the same file as before and does not raise the load.
/// A `NewFile` entry continues the file that was followed by one step, or
/// starts a file with no percentage; and what is followed afterwards is the
/// file as the entry reports it, unless the entry ended it.
pub proof fn lemma_entry_step(
    buf: Seq<char>,
    pending: Option<PendingView>,
    zone: spec_fn(CivilDateTime) -> LocalResolution,
)
    ensures
        ({
            let t = entry_step(buf, pending, zone);
            &&& t.next.phase is ReadingEntries
            &&& !(t.outcome matches Ok(AdvanceView::Header(_)))
            &&& t.outcome matches Ok(AdvanceView::LogEntry(_)) ==> load(t.next) < load(
                entries_state(buf, pending),
            )
            &&& t.outcome matches Ok(AdvanceView::NeedMoreData) ==> t.next.pending == pending
                && t.next.buf.len() <= buf.len()
            &&& t.outcome matches Ok(AdvanceView::LogEntry(entry)) ==> follows(
                pending,
                entry,
                t.next.pending,
            ) && match pending {
                Some(file) => continues(file, entry),
                None => entry is NewFile ==> entry->percentages.len() == 0,
            }
        }),
    decreases buf.len(),
{
    let end = first_terminator(buf);
    lemma_first_terminator(buf);
    if 0 <= end < buf.len() {
        let line = trim(buf.take(end));
        let rest = buf.skip(end + 1);
        lemma_line_has_no_terminator(buf);
        match pending {
            Some(file) => {
                if pending_line_step(line, rest, file) is None {
                    lemma_entry_step(rest, pending, zone);
                } else if percentage(line) is Some {
                    let v = percentage(line)->Some_0;
                    assert(file.with(v).percentages.drop_last() =~= file.percentages);
                }
            },
            None => {
                if fresh_line_step(line, rest, zone) is None {
                    lemma_entry_step(rest, pending, zone);
                } else {
                    lemma_first_terminator(rest);
                }
            },
        }
    }
}

/// One step never goes back to the header phase, gives a header only in the
/// header phase and entries only in the entry phase; after a header the
/// entry phase has begun. A step that gives a header or an entry lowers the
/// load.
pub proof fn lemma_step_phases(s: ParserView, zone: spec_fn(CivilDateTime) -> LocalResolution)
    ensures
        ({
            let t = step(s, zone);
            &&& s.phase is ReadingEntries ==> t.next.phase is ReadingEntries
            &&& t.outcome matches Ok(AdvanceView::Header(_)) ==> s.phase is ReadingHeader
                && t.next.phase is ReadingEntries
            &&& t.outcome matches Ok(AdvanceView::LogEntry(_)) ==> s.phase is ReadingEntries
            &&& (t.outcome is Ok && !(t.outcome matches Ok(AdvanceView::NeedMoreData))) ==> load(
                t.next,
            ) < load(s)
        }),
{
    match s.phase {
        InternalState::ReadingEntries => {
            lemma_entry_step(s.buf, s.pending, zone);
        },
        InternalState::ReadingHeader => {
            lemma_header_end(s.buf, 0, 3);
        },
    }
}

/// The end of a dash line lies behind the place the search began, within
/// the text.
pub proof fn lemma_header_end(s: Seq<char>, from: int, wanted: nat)
    ensures
        dash_line_end_from(s, from, wanted) matches Some(end) ==> from < end <= s.len(),
    decreases s.len() - from,
{
    if !(from < 0 || from > s.len() || wanted == 0) {
        let end = index_of_from(s, '\n', from);
        if from <= end < s.len() {
            lemma_header_end(s, end + 1, wanted);
            if wanted > 1 {
                lemma_header_end(s, end + 1, (wanted - 1) as nat);
            }
        }
    }
}

/// A step of the entry phase that reports a `NewFile` entry moves the file
/// on by one value, cuts it short before the line of the next, or starts a
/// file.
proof fn lemma_entry_progress(
    buf: Seq<char>,
    pending: Option<PendingView>,
    zone: spec_fn(CivilDateTime) -> LocalResolution,
)
    ensures
        progress_by_one(
            entries_state(buf, pending),
            entry_step(buf, pending, zone).next,
            entry_step(buf, pending, zone).outcome,
        ),
    decreases buf.len(),
{
    let end = first_terminator(buf);
    lemma_first_terminator(buf);
    if 0 <= end < buf.len() {
        let line = trim(buf.take(end));
        let rest = buf.skip(end + 1);
        lemma_line_has_no_terminator(buf);
        match pending {
            Some(file) => {
                if pending_line_step(line, rest, file) is None {
                    lemma_entry_progress(rest, pending, zone);
                } else if percentage(line) is Some {
                    let v = percentage(line)->Some_0;
                    assert(file.with(v).percentages.drop_last() =~= file.percentages);
                } else {
                    reveal_strlit("New File");
                    assert(line.len() > 0);
                    lemma_trim_idempotent(buf.take(end));
                    lemma_put_back(line, rest);
                }
            },
            None => {
                if fresh_line_step(line, rest, zone) is None {
                    lemma_entry_progress(rest, pending, zone);
                }
            },
        }
    }
}

/// Progress of a file, one value at a time: a step in the entry phase that
/// reports a `NewFile` entry while a file is followed gives that file's
/// size and path, and its percentages with exactly one value of at most 100
/// added — or the file's own, when the next file cut it short and its line
/// waits in the unread text. The file is followed further as the entry
/// reports it until a value of 100, or the cut, ends it. With no file
/// followed the entry starts one with no percentage.
pub proof fn lemma_progress_by_one(s: ParserView, zone: spec_fn(CivilDateTime) -> LocalResolution)
    ensures
        progress_by_one(s, step(s, zone).next, step(s, zone).outcome),
        s.phase is ReadingEntries ==> ({
            let t = step(s, zone);
            t.outcome matches Ok(AdvanceView::LogEntry(entry)) ==> follows(
                s.pending,
                entry,
                t.next.pending,
            ) && match s.pending {
                Some(file) => continues(file, entry),
                None => entry is NewFile ==> entry->percentages.len() == 0,
            }
        }),
{
    if s.phase is ReadingEntries {
        lemma_entry_step(s.buf, s.pending, zone);
        lemma_entry_progress(s.buf, s.pending, zone);
        assert(s == entries_state(s.buf, s.pending));
    }
}

/// What repeated calls of `advance` give until one asks for more data or
/// fails: the records in order, and the state that is left or the error.
pub struct Drained {
    pub events: Seq<AdvanceView>,
    pub end: Result<ParserView, RobocopyParseError>,
}

/// `d` with the record `event` in front.
pub open spec fn after_event(event: AdvanceView, d: Drained) -> Drained {
    Drained { events: seq![event] + d.events, end: d.end }
}

/// What the driver's loop collects from the state `s`: it calls `advance`
/// until the answer is `NeedMoreData` or an error.
pub open spec fn drained(s: ParserView, zone: spec_fn(CivilDateTime) -> LocalResolution) -> Drained
    decreases load(s),
    via drained_decreases
{
    let t = step(s, zone);
    match t.outcome {
        Err(e) => Drained { events: Seq::empty(), end: Err(e) },
        Ok(AdvanceView::NeedMoreData) => Drained { events: Seq::empty(), end: Ok(t.next) },
        Ok(event) => after_event(event, drained(t.next, zone)),
    }
}

#[via_fn]
proof fn drained_decreases(s: ParserView, zone: spec_fn(CivilDateTime) -> LocalResolution) {
    lemma_step_phases(s, zone);
}

/// What the driver collects when it accepts the chunks `chunks` one after
/// the other and drains the parser after each; it stops at the first error.
pub open spec fn fed(
    s: ParserView,
    chunks: Seq<Seq<char>>,
    zone: spec_fn(CivilDateTime) -> LocalResolution,
) -> Drained
    decreases chunks.len(), 0nat,
{
    if chunks.len() == 0 {
        Drained { events: Seq::empty(), end: Ok(s) }
    } else {
        then_fed(drained(accepted(s, chunks[0]), zone), chunks.skip(1), zone)
    }
}

/// What the driver has collected once it has gone on from `d` with the
/// chunks `chunks`; after an error it does not go on.
pub open spec fn then_fed(
    d: Drained,
    chunks: Seq<Seq<char>>,
    zone: spec_fn(CivilDateTime) -> LocalResolution,
) -> Drained
    decreases chunks.len(), 1nat,
{
    match d.end {
        Err(_) => d,
        Ok(s) => Drained {
            events: d.events + fed(s, chunks, zone).events,
            end: fed(s, chunks, zone).end,
        },
    }
}

/// The chunks `chunks` as one text.
pub open spec fn joined(chunks: Seq<Seq<char>>) -> Seq<char>
    decreases chunks.len(),
{
    if chunks.len() == 0 {
        Seq::empty()
    } else {
        chunks[0] + joined(chunks.skip(1))
    }
}

/// A line that was put back in front of the text `rest` is found there
/// again by the next step, unchanged.
proof fn lemma_put_back(line: Seq<char>, rest: Seq<char>)
    requires
        line.len() > 0,
        forall|i: int| 0 <= i < line.len() ==> !is_terminator(#[trigger] line[i]),
        trim(line) == line,
    ensures
        first_terminator(line + seq!['\n'] + rest) == line.len(),
        trim((line + seq!['\n'] + rest).take(line.len() as int)) == line,
        (line + seq!['\n'] + rest).skip(line.len() as int + 1) == rest,
{
    let b = line + seq!['\n'] + rest;
    let n = line.len() as int;
    assert forall|i: int| 0 <= i < n implies !is_terminator(#[trigger] b[i]) by {
        assert(b[i] == line[i]);
    }
    assert(b[n] == '\n');
    lemma_first_terminator_is(b, n);
    assert(b.take(n) =~= line);
    assert(b.skip(n + 1) =~= rest);
}

/// More text behind the unread text does not change what a step of the
/// entry phase finds in it. If the step gave a result, it gives the same
/// one, and the new text is behind what it left. If it asked for more data,
/// the step on the longer text is the step on what it left, with the new
/// text behind.
pub proof fn lemma_entry_step_extend(
    buf: Seq<char>,
    pending: Option<PendingView>,
    more: Seq<char>,
    zone: spec_fn(CivilDateTime) -> LocalResolution,
)
    ensures
        ({
            let t = entry_step(buf, pending, zone);
            entry_step(buf + more, pending, zone) == if t.outcome matches Ok(
                AdvanceView::NeedMoreData,
            ) {
                entry_step(t.next.buf + more, t.next.pending, zone)
            } else {
                Step { next: accepted(t.next, more), outcome: t.outcome }
            }
        }),
    decreases buf.len(),
{
    let end = first_terminator(buf);
    lemma_first_terminator(buf);
    if 0 <= end < buf.len() {
        let line = trim(buf.take(end));
        let rest = buf.skip(end + 1);
        lemma_first_terminator_extend(buf, more);
        lemma_line_has_no_terminator(buf);
        match pending {
            Some(file) => {
                if pending_line_step(line, rest, file) is None {
                    lemma_entry_step_extend(rest, pending, more, zone);
                } else {
                    assert(line + seq!['\n'] + (rest + more) =~= (line + seq!['\n'] + rest) + more);
                }
            },
            None => {
                if fresh_line_step(line, rest, zone) is None {
                    lemma_entry_step_extend(rest, pending, more, zone);
                } else if access_denied_reading(line, zone) matches Ok(Some(_)) {
                    lemma_first_terminator(rest);
                    let end2 = first_terminator(rest);
                    if 0 <= end2 < rest.len() {
                        lemma_first_terminator_extend(rest, more);
                    } else {
                        assert(is_access_denied(line));
                        assert(tokens(line).len() >= 7);
                        assert(line.len() > 0);
                        lemma_trim_idempotent(buf.take(end));
                        lemma_put_back(line, rest + more);
                        assert((line + seq!['\n'] + rest) + more =~= line + seq!['\n'] + (rest
                            + more));
                    }
                }
            },
        }
    }
}

/// A dash line that is complete in `s` is found at the same place in
/// `s + more`.
pub proof fn lemma_header_end_extend(s: Seq<char>, more: Seq<char>, from: int, wanted: nat)
    ensures
        dash_line_end_from(s, from, wanted) matches Some(end) ==> dash_line_end_from(
            s + more,
            from,
            wanted,
        ) == Some(end),
    decreases s.len() - from,
{
    if !(from < 0 || from > s.len() || wanted == 0) {
        let end = index_of_from(s, '\n', from);
        lemma_index_of_from(s, '\n', from);
        if from <= end < s.len() {
            let t = s + more;
            assert forall|j: int| from <= j < end implies #[trigger] t[j] != '\n' by {
                assert(t[j] == s[j]);
            }
            assert(t[end] == s[end]);
            lemma_index_of_from_is(t, '\n', from, end);
            assert(t.subrange(from, end) =~= s.subrange(from, end));
            lemma_header_end_extend(s, more, end + 1, wanted);
            if wanted > 1 {
                lemma_header_end_extend(s, more, end + 1, (wanted - 1) as nat);
            }
        }
    }
}

/// More text behind the unread text does not change what a step finds in
/// it: a result stays the same, with the new text behind what the step
/// left; and where the step asked for more data, the step on the longer
/// text is the step on what it left with the new text behind.
pub proof fn lemma_step_extend(
    s: ParserView,
    more: Seq<char>,
    zone: spec_fn(CivilDateTime) -> LocalResolution,
)
    ensures
        ({
            let t = step(s, zone);
            step(accepted(s, more), zone) == if t.outcome matches Ok(AdvanceView::NeedMoreData) {
                step(accepted(t.next, more), zone)
            } else {
                Step { next: accepted(t.next, more), outcome: t.outcome }
            }
        }),
{
    match s.phase {
        InternalState::ReadingEntries => {
            lemma_entry_step_extend(s.buf, s.pending, more, zone);
            lemma_entry_step(s.buf, s.pending, zone);
        },
        InternalState::ReadingHeader => {
            lemma_header_end_extend(s.buf, more, 0, 3);
            lemma_header_end(s.buf, 0, 3);
            if let Some(end) = header_end(s.buf) {
                assert((s.buf + more).take(end) =~= s.buf.take(end));
                assert((s.buf + more).skip(end) =~= s.buf.skip(end) + more);
            }
        },
    }
}

/// Draining, then accepting more text and draining again, collects what
/// one drain collects after all the text was accepted; after an error
/// nothing more is collected either way.
pub proof fn lemma_drained_extend(
    s: ParserView,
    more: Seq<char>,
    zone: spec_fn(CivilDateTime) -> LocalResolution,
)
    ensures
        drained(accepted(s, more), zone) == match drained(s, zone).end {
            Err(_) => drained(s, zone),
            Ok(left) => Drained {
                events: drained(s, zone).events + drained(accepted(left, more), zone).events,
                end: drained(accepted(left, more), zone).end,
            },
        },
    decreases load(s),
{
    let t = step(s, zone);
    lemma_step_extend(s, more, zone);
    lemma_step_phases(s, zone);
    match t.outcome {
        Err(e) => {},
        Ok(AdvanceView::NeedMoreData) => {
            let a = drained(accepted(t.next, more), zone);
            assert(Seq::<AdvanceView>::empty() + a.events =~= a.events);
        },
        Ok(event) => {
            lemma_drained_extend(t.next, more, zone);
            let d = drained(t.next, zone);
            match d.end {
                Err(_) => {},
                Ok(left) => {
                    let a = drained(accepted(left, more), zone);
                    assert(seq![event] + (d.events + a.events) =~= (seq![event] + d.events)
                        + a.events);
                },
            }
        },
    }
}

/// Chunk-size independence for a new parser: however a text is cut into
/// chunks, of whatever sizes, accepting them in order and draining the
/// parser after each gives the same records in the same order, and ends in
/// the same state or the same error, as accepting the whole text at once.
pub proof fn lemma_chunk_size_independence(
    chunks: Seq<Seq<char>>,
    zone: spec_fn(CivilDateTime) -> LocalResolution,
)
    ensures
        fed(initial_state(), chunks, zone) == drained(
            accepted(initial_state(), joined(chunks)),
            zone,
        ),
{
    if chunks.len() > 0 {
        lemma_chunk_size_independence_from(initial_state(), chunks, zone);
    } else {
        let s = initial_state();
        assert(accepted(s, joined(chunks)).buf =~= s.buf);
        assert(index_of_from(s.buf, '\n', 0) == 0);
        assert(header_end(s.buf) is None);
        assert(step(s, zone) == Step { next: s, outcome: Ok(AdvanceView::NeedMoreData) });
    }
}

/// Chunk-size independence from any state: the same holds of a parser that
/// is already at work, as long as there is a chunk to accept. (With no
/// chunk the driver does not call the parser at all.)
pub proof fn lemma_chunk_size_independence_from(
    s: ParserView,
    chunks: Seq<Seq<char>>,
    zone: spec_fn(CivilDateTime) -> LocalResolution,
)
    requires
        chunks.len() > 0,
    ensures
        fed(s, chunks, zone) == drained(accepted(s, joined(chunks)), zone),
    decreases chunks.len(),
{
    let first = chunks[0];
    let others = chunks.skip(1);
    let d = drained(accepted(s, first), zone);
    assert(joined(chunks) == first + joined(others));
    assert(fed(s, chunks, zone) == then_fed(d, others, zone));
    if others.len() == 0 {
        assert(joined(others) =~= Seq::<char>::empty());
        assert(first + joined(others) =~= first);
        match d.end {
            Err(_) => {},
            Ok(left) => {
                assert(fed(left, others, zone) == Drained { events: Seq::empty(), end: Ok(left) });
                assert(d.events + Seq::<AdvanceView>::empty() =~= d.events);
                assert(then_fed(d, others, zone) == d);
            },
        }
    } else {
        assert(accepted(accepted(s, first), joined(others)) == accepted(s, joined(chunks))) by {
            assert((s.buf + first) + joined(others) =~= s.buf + (first + joined(others)));
        }
        lemma_drained_extend(accepted(s, first), joined(others), zone);
        match d.end {
            Err(_) => {
                assert(then_fed(d, others, zone) == d);
            },
            Ok(left) => {
                lemma_chunk_size_independence_from(left, others, zone);
                assert(fed(left, others, zone) == drained(accepted(left, joined(others)), zone));
            },
        }
    }
}

/// Whether the records `events` come in the order that a parser in the
/// phase `phase` may give them: in the entry phase entries only; in the
/// header phase the header first, if anything, and entries after it.
pub open spec fn in_order(phase: InternalState, events: Seq<AdvanceView>) -> bool {
    forall|i: int| 0 <= i < events.len() ==> in_place(phase, i, #[trigger] events[i])
}

/// Whether `event` may be the record number `i` of a parser that began in
/// the phase `phase`: the header as the first record of the header phase,
/// an entry anywhere else.
pub open spec fn in_place(phase: InternalState, i: int, event: AdvanceView) -> bool {
    if i == 0 && phase is ReadingHeader {
        event is Header
    } else {
        event is LogEntry
    }
}

/// The phase of a parser that began in the phase `phase` and has given the
/// records `events`, in order.
pub open spec fn phase_after(phase: InternalState, events: Seq<AdvanceView>) -> InternalState {
    if events.len() > 0 {
        InternalState::ReadingEntries
    } else {
        phase
    }
}

/// Records in order, followed by records in order for the phase that the
/// first ones led to, are in order.
proof fn lemma_in_order_append(phase: InternalState, a: Seq<AdvanceView>, b: Seq<AdvanceView>)
    requires
        in_order(phase, a),
        in_order(phase_after(phase, a), b),
    ensures
        in_order(phase, a + b),
        phase_after(phase, a + b) == phase_after(phase_after(phase, a), b),
{
    let c = a + b;
    assert forall|i: int| 0 <= i < c.len() implies in_place(phase, i, #[trigger] c[i]) by {
        if i < a.len() {
            assert(c[i] == a[i]);
        } else {
            assert(c[i] == b[i - a.len()]);
        }
    }
}

/// What one drain collects is in order, and leaves the parser in the phase
/// that the records led to.
pub proof fn lemma_drained_in_order(s: ParserView, zone: spec_fn(CivilDateTime) -> LocalResolution)
    ensures
        in_order(s.phase, drained(s, zone).events),
        drained(s, zone).end matches Ok(left) ==> left.phase == phase_after(
            s.phase,
            drained(s, zone).events,
        ),
    decreases load(s),
{
    let t = step(s, zone);
    lemma_step_phases(s, zone);
    match t.outcome {
        Err(e) => {},
        Ok(AdvanceView::NeedMoreData) => {
            if s.phase is ReadingHeader {
                assert(t.next == s);
            }
        },
        Ok(event) => {
            lemma_drained_in_order(t.next, zone);
            let d = drained(t.next, zone);
            assert(in_order(s.phase, seq![event]));
            lemma_in_order_append(s.phase, seq![event], d.events);
        },
    }
}

/// What the driver collects from chunk after chunk is in order.
pub proof fn lemma_fed_in_order(
    s: ParserView,
    chunks: Seq<Seq<char>>,
    zone: spec_fn(CivilDateTime) -> LocalResolution,
)
    ensures
        in_order(s.phase, fed(s, chunks, zone).events),
        fed(s, chunks, zone).end matches Ok(left) ==> left.phase == phase_after(
            s.phase,
            fed(s, chunks, zone).events,
        ),
    decreases chunks.len(),
{
    if chunks.len() > 0 {
        let d = drained(accepted(s, chunks[0]), zone);
        lemma_drained_in_order(accepted(s, chunks[0]), zone);
        assert(fed(s, chunks, zone) == then_fed(d, chunks.skip(1), zone));
        match d.end {
            Err(_) => {},
            Ok(left) => {
                lemma_fed_in_order(left, chunks.skip(1), zone);
                lemma_in_order_append(s.phase, d.events, fed(left, chunks.skip(1), zone).events);
            },
        }
    }
}

/// Single header: of all that a new parser ever gives, whatever the text
/// and however it is cut, the first record is the header and every record
/// after it is an entry. So there is never more than one header, and no
/// entry before it.
pub proof fn lemma_single_header(
    chunks: Seq<Seq<char>>,
    zone: spec_fn(CivilDateTime) -> LocalResolution,
)
    ensures
        forall|i: int|
            0 <= i < fed(initial_state(), chunks, zone).events.len() ==> if i == 0 {
                (#[trigger] fed(initial_state(), chunks, zone).events[i]) is Header
            } else {
                fed(initial_state(), chunks, zone).events[i] is LogEntry
            },
{
    lemma_fed_in_order(initial_state(), chunks, zone);
}

/// Records that are in step, followed by records that are in step with
/// the file that the first ones left, are in step.
proof fn lemma_progressive_append(
    file: Option<PendingView>,
    a: Seq<AdvanceView>,
    b: Seq<AdvanceView>,
)
    requires
        progressive(file, a),
        progressive(file_after_all(file, a), b),
    ensures
        progressive(file, a + b),
        file_after_all(file, a + b) == file_after_all(file_after_all(file, a), b),
    decreases a.len(),
{
    if a.len() == 0 {
        assert(a + b =~= b);
    } else {
        assert((a + b)[0] == a[0]);
        assert((a + b).skip(1) =~= a.skip(1) + b);
        lemma_progressive_append(file_after(file, a[0]), a.skip(1), b);
    }
}

/// What one drain collects is in step with the file that was followed, and
/// the file that is followed afterwards is the one the records left.
pub proof fn lemma_drained_progressive(
    s: ParserView,
    zone: spec_fn(CivilDateTime) -> LocalResolution,
)
    ensures
        progressive(s.pending, drained(s, zone).events),
        drained(s, zone).end matches Ok(left) ==> left.pending == file_after_all(
            s.pending,
            drained(s, zone).events,
        ),
    decreases load(s),
{
    let t = step(s, zone);
    lemma_step_phases(s, zone);
    if s.phase is ReadingEntries {
        lemma_entry_step(s.buf, s.pending, zone);
    }
    match t.outcome {
        Err(e) => {},
        Ok(AdvanceView::NeedMoreData) => {},
        Ok(event) => {
            lemma_drained_progressive(t.next, zone);
            let d = drained(t.next, zone);
            let all = seq![event] + d.events;
            assert(all[0] == event);
            assert(all.skip(1) =~= d.events);
            assert(t.next.pending == file_after(s.pending, event));
        },
    }
}

/// What the driver collects from chunk after chunk is in step.
pub proof fn lemma_fed_progressive(
    s: ParserView,
    chunks: Seq<Seq<char>>,
    zone: spec_fn(CivilDateTime) -> LocalResolution,
)
    ensures
        progressive(s.pending, fed(s, chunks, zone).events),
        fed(s, chunks, zone).end matches Ok(left) ==> left.pending == file_after_all(
            s.pending,
            fed(s, chunks, zone).events,
        ),
    decreases chunks.len(),
{
    if chunks.len() > 0 {
        let d = drained(accepted(s, chunks[0]), zone);
        lemma_drained_progressive(accepted(s, chunks[0]), zone);
        assert(fed(s, chunks, zone) == then_fed(d, chunks.skip(1), zone));
        match d.end {
            Err(_) => {},
            Ok(left) => {
                lemma_fed_progressive(left, chunks.skip(1), zone);
                lemma_progressive_append(
                    s.pending,
                    d.events,
                    fed(left, chunks.skip(1), zone).events,
                );
            },
        }
    }
}

/// Monotonic progress: of all that a new parser ever gives, whatever the
/// text and however it is cut, every `NewFile` entry either starts a file
/// with no percentage, or has the size, the path and the percentages of
/// the entry before it with exactly one value of at most 100 added — or, for
/// a file that the next one cut short, with none added. After a value of 100
/// or a cut the next `NewFile` entry starts a file.
pub proof fn lemma_monotonic_progress(
    chunks: Seq<Seq<char>>,
    zone: spec_fn(CivilDateTime) -> LocalResolution,
)
    ensures
        progressive(None, fed(initial_state(), chunks, zone).events),
{
    lemma_fed_progressive(initial_state(), chunks, zone);
}

} // verus!
