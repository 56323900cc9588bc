//! The header's text grammar reads back what it writes.

use crate::local_time::{naive_reading, naive_text, CivilDateTime, LocalResolution};
use crate::robocopy::robocopy_error::RobocopyParseError;
use crate::robocopy::robocopy_header::{
    dashes, header_field, header_field_from, header_lines, header_reading, header_text,
    labelled, line_field, spaces, text_lines, title_line, HeaderView,
};
use crate::robocopy::robocopy_start_datetime::{
    earliest_local_time, start_reading, start_text, ROBOCOPY_START_DATETIME_FMT,
};
use crate::text::{
    eq_ignore_case, index_of, index_of_from, is_space, lemma_index_of_from,
    lemma_index_of_from_is, lemma_trim, lemma_trim_idempotent, lemma_trim_ignores_margin,
    lemma_trim_of_trimmed, trim, trim_lo,
};
use vstd::prelude::*;

verus! {

/// Whether the calendar library reads the civil time `c` back from the text
/// it writes for it in the layout of the `Started` field, and that text is
/// one line.
pub open spec fn reads_back(c: CivilDateTime) -> bool {
    &&& naive_reading(
        trim(naive_text(c, ROBOCOPY_START_DATETIME_FMT@)),
        ROBOCOPY_START_DATETIME_FMT@,
    ) == Some(c)
    &&& one_line(naive_text(c, ROBOCOPY_START_DATETIME_FMT@))
}

/// Whether `s` holds no line feed.
pub open spec fn one_line(s: Seq<char>) -> bool {
    forall|i: int| 0 <= i < s.len() ==> #[trigger] s[i] != '\n'
}

/// Whether `s` holds no colon.
pub open spec fn no_colon(s: Seq<char>) -> bool {
    forall|i: int| 0 <= i < s.len() ==> #[trigger] s[i] != ':'
}

/// Whether `s` is a word that can name a field: not empty, no white space
/// at either end, no colon and no line feed.
pub open spec fn is_label(s: Seq<char>) -> bool {
    &&& s.len() > 0
    &&& !is_space(s[0])
    &&& !is_space(s.last())
    &&& no_colon(s)
    &&& one_line(s)
}

/// The value that the first of the lines `lines` that gives the field `key`
/// a value gives it.
pub open spec fn first_field(lines: Seq<Seq<char>>, key: Seq<char>) -> Option<Seq<char>>
    decreases lines.len(),
{
    if lines.len() == 0 {
        None
    } else {
        match line_field(lines[0], key) {
            Some(value) => Some(value),
            None => first_field(lines.skip(1), key),
        }
    }
}

/// A line without a colon gives no field a value.
proof fn lemma_line_without_colon(line: Seq<char>, key: Seq<char>)
    requires
        no_colon(line),
    ensures
        line_field(line, key) is None,
{
    lemma_index_of_from_is(line, ':', 0, line.len() as int);
}

/// A line made of a name between blanks, a colon and a value gives the
/// field of that name the value without its surrounding white space, and
/// gives no other field anything.
proof fn lemma_line_with_label(
    lead: nat,
    name: Seq<char>,
    gap: nat,
    after: Seq<char>,
    key: Seq<char>,
)
    requires
        is_label(name),
    ensures
        line_field(spaces(lead) + name + spaces(gap) + seq![':'] + after, key) == if eq_ignore_case(
            name,
            key,
        ) {
            Some(trim(after))
        } else {
            None
        },
{
    let line = spaces(lead) + name + spaces(gap) + seq![':'] + after;
    let colon = (lead + name.len() + gap) as int;
    assert forall|i: int| 0 <= i < colon implies #[trigger] line[i] != ':' by {
        if i < lead {
            assert(line[i] == spaces(lead)[i]);
        } else if i < lead + name.len() {
            assert(line[i] == name[i - lead]);
        } else {
            assert(line[i] == spaces(gap)[i - lead - name.len()]);
        }
    }
    assert(line[colon] == ':');
    lemma_index_of_from_is(line, ':', 0, colon);
    assert(line.take(colon) =~= spaces(lead) + name + spaces(gap));
    assert(line.skip(colon + 1) =~= after);
    lemma_trim_ignores_margin(spaces(lead), name, spaces(gap));
    lemma_trim_of_trimmed(name);
}

/// In text made of lines, a field has the value that the first line that
/// gives it one gives it.
proof fn lemma_field_of_lines(before: Seq<char>, lines: Seq<Seq<char>>, key: Seq<char>)
    requires
        forall|k: int| 0 <= k < lines.len() ==> one_line(#[trigger] lines[k]),
    ensures
        header_field_from(before + text_lines(lines), key, before.len() as int) == first_field(
            lines,
            key,
        ),
    decreases lines.len(),
{
    let text = before + text_lines(lines);
    let from = before.len() as int;
    if lines.len() == 0 {
        assert(text =~= before);
        lemma_index_of_from_is(text, '\n', from, from);
        assert(text.subrange(from, from) =~= Seq::<char>::empty());
        lemma_index_of_from_is(Seq::<char>::empty(), ':', 0, 0);
    } else {
        let line = lines[0];
        let end = from + line.len();
        assert(one_line(line));
        assert forall|j: int| from <= j < end implies #[trigger] text[j] != '\n' by {
            assert(text[j] == line[j - from]);
        }
        if lines.len() == 1 {
            assert(text =~= before + line);
            lemma_index_of_from_is(text, '\n', from, end);
            assert(text.subrange(from, end) =~= line);
            assert(first_field(lines.skip(1), key) is None);
        } else {
            let others = lines.skip(1);
            assert(text[end] == '\n');
            lemma_index_of_from_is(text, '\n', from, end);
            assert(text.subrange(from, end) =~= line);
            let head = before + line + seq!['\n'];
            assert(text =~= head + text_lines(others));
            assert forall|k: int| 0 <= k < others.len() implies one_line(#[trigger] others[k]) by {
                assert(others[k] == lines[k + 1]);
            }
            lemma_field_of_lines(head, others, key);
        }
    }
}

/// The value that a header block gives a field has no white space around
/// it and is one line.
proof fn lemma_field_is_clean(text: Seq<char>, key: Seq<char>, from: int)
    ensures
        header_field_from(text, key, from) matches Some(value) ==> trim(value) == value
            && one_line(value),
    decreases text.len() - from,
{
    if 0 <= from <= text.len() {
        let end = index_of_from(text, '\n', from);
        lemma_index_of_from(text, '\n', from);
        let line = text.subrange(from, end);
        match line_field(line, key) {
            Some(value) => {
                let colon = index_of(line, ':');
                lemma_index_of_from(line, ':', 0);
                let raw = line.skip(colon + 1);
                lemma_trim(raw);
                lemma_trim_idempotent(raw);
                assert forall|i: int| 0 <= i < value.len() implies #[trigger] value[i] != '\n' by {
                    let j = from + colon + 1 + trim_lo(raw) + i;
                    assert(value[i] == raw[trim_lo(raw) + i]);
                    assert(raw[trim_lo(raw) + i] == line[colon + 1 + trim_lo(raw) + i]);
                    assert(line[colon + 1 + trim_lo(raw) + i] == text[j]);
                }
            },
            None => {
                if from <= end < text.len() {
                    lemma_field_is_clean(text, key, end + 1);
                }
            },
        }
    }
}

/// What the thirteen lines of a written header give the five fields.
proof fn lemma_fields_of_written_header(h: HeaderView)
    ensures
        first_field(header_lines(h), "started"@) == Some(trim(spaces(1) + start_text(h.started))),
        first_field(header_lines(h), "source"@) == Some(trim(spaces(1) + h.source)),
        first_field(header_lines(h), "dest"@) == Some(trim(spaces(1) + h.dest)),
        first_field(header_lines(h), "files"@) == Some(trim(spaces(1) + h.files)),
        first_field(header_lines(h), "options"@) == Some(trim(spaces(1) + h.options + spaces(1))),
{
    reveal_strlit("ROBOCOPY");
    reveal_strlit("Started");
    reveal_strlit("Source");
    reveal_strlit("Dest");
    reveal_strlit("Files");
    reveal_strlit("Options");
    reveal_strlit("started");
    reveal_strlit("source");
    reveal_strlit("dest");
    reveal_strlit("files");
    reveal_strlit("options");
    let l = header_lines(h);
    let keys = seq!["started"@, "source"@, "dest"@, "files"@, "options"@];
    let tab_line = seq!['\t'] + spaces(4);
    assert(is_label("ROBOCOPY"@));
    assert(is_label("Started"@));
    assert(is_label("Source"@));
    assert(is_label("Dest"@));
    assert(is_label("Files"@));
    assert(is_label("Options"@));
    assert(no_colon(dashes(79)) && no_colon(dashes(78)) && no_colon(Seq::<char>::empty())
        && no_colon(tab_line));
    assert("Started"@[0] == 'S' && "Source"@[0] == 'S' && "Dest"@[0] == 'D' && "Files"@[0] == 'F'
        && "Options"@[0] == 'O' && "ROBOCOPY"@[0] == 'R');
    assert("Started"@[1] == 't' && "Source"@[1] == 'o');
    assert(eq_ignore_case("Started"@, "started"@));
    assert(eq_ignore_case("Source"@, "source"@));
    assert(eq_ignore_case("Dest"@, "dest"@));
    assert(eq_ignore_case("Files"@, "files"@));
    assert(eq_ignore_case("Options"@, "options"@));
    assert forall|k: int| 0 <= k < 5 implies {
        let key = #[trigger] keys[k];
        &&& line_field(l[0], key) is None
        &&& line_field(l[1], key) is None
        &&& line_field(l[2], key) is None
        &&& line_field(l[3], key) is None
        &&& line_field(l[4], key) == if k == 0 {
            Some(trim(spaces(1) + start_text(h.started)))
        } else {
            None
        }
        &&& line_field(l[5], key) == if k == 1 {
            Some(trim(spaces(1) + h.source))
        } else {
            None
        }
        &&& line_field(l[6], key) == if k == 2 {
            Some(trim(spaces(1) + h.dest))
        } else {
            None
        }
        &&& line_field(l[7], key) is None
        &&& line_field(l[8], key) == if k == 3 {
            Some(trim(spaces(1) + h.files))
        } else {
            None
        }
        &&& line_field(l[9], key) is None
        &&& line_field(l[10], key) == if k == 4 {
            Some(trim(spaces(1) + h.options + spaces(1)))
        } else {
            None
        }
    } by {
        let key = keys[k];
        lemma_line_without_colon(dashes(79), key);
        lemma_line_without_colon(Seq::<char>::empty(), key);
        lemma_line_without_colon(tab_line, key);
        lemma_line_with_label(
            3,
            "ROBOCOPY"@,
            5,
            ":     Robust File Copy for Windows"@ + spaces(30),
            key,
        );
        assert(l[1] =~= spaces(3) + "ROBOCOPY"@ + spaces(5) + seq![':'] + (
        ":     Robust File Copy for Windows"@ + spaces(30)));
        assert(!eq_ignore_case("ROBOCOPY"@, key));
        lemma_line_with_label(2, "Started"@, 1, spaces(1) + start_text(h.started), key);
        lemma_line_with_label(3, "Source"@, 1, spaces(1) + h.source, key);
        lemma_line_with_label(5, "Dest"@, 1, spaces(1) + h.dest, key);
        lemma_line_with_label(4, "Files"@, 1, spaces(1) + h.files, key);
        lemma_line_with_label(2, "Options"@, 1, spaces(1) + h.options + spaces(1), key);
    }
    assert forall|k: int| 0 <= k < 5 implies first_field(l, #[trigger] keys[k]) == (if k == 0 {
        Some(trim(spaces(1) + start_text(h.started)))
    } else if k == 1 {
        Some(trim(spaces(1) + h.source))
    } else if k == 2 {
        Some(trim(spaces(1) + h.dest))
    } else if k == 3 {
        Some(trim(spaces(1) + h.files))
    } else {
        Some(trim(spaces(1) + h.options + spaces(1)))
    }) by {
        let key = keys[k];
        lemma_first_field_11(l, key);
    }
    assert(keys[0] == "started"@);
    assert(keys[1] == "source"@);
    assert(keys[2] == "dest"@);
    assert(keys[3] == "files"@);
    assert(keys[4] == "options"@);
}

/// The search through the first eleven lines, written out.
proof fn lemma_first_field_11(l: Seq<Seq<char>>, key: Seq<char>)
    requires
        l.len() >= 11,
    ensures
        first_field(l, key) == if line_field(l[0], key) is Some {
            line_field(l[0], key)
        } else if line_field(l[1], key) is Some {
            line_field(l[1], key)
        } else if line_field(l[2], key) is Some {
            line_field(l[2], key)
        } else if line_field(l[3], key) is Some {
            line_field(l[3], key)
        } else if line_field(l[4], key) is Some {
            line_field(l[4], key)
        } else if line_field(l[5], key) is Some {
            line_field(l[5], key)
        } else if line_field(l[6], key) is Some {
            line_field(l[6], key)
        } else if line_field(l[7], key) is Some {
            line_field(l[7], key)
        } else if line_field(l[8], key) is Some {
            line_field(l[8], key)
        } else if line_field(l[9], key) is Some {
            line_field(l[9], key)
        } else if line_field(l[10], key) is Some {
            line_field(l[10], key)
        } else {
            first_field(l.skip(11), key)
        },
{
    let t1 = l.skip(1);
    let t2 = l.skip(2);
    let t3 = l.skip(3);
    let t4 = l.skip(4);
    let t5 = l.skip(5);
    let t6 = l.skip(6);
    let t7 = l.skip(7);
    let t8 = l.skip(8);
    let t9 = l.skip(9);
    let t10 = l.skip(10);
    let t11 = l.skip(11);
    assert(t1.skip(1) =~= t2);
    assert(t2.skip(1) =~= t3);
    assert(t3.skip(1) =~= t4);
    assert(t4.skip(1) =~= t5);
    assert(t5.skip(1) =~= t6);
    assert(t6.skip(1) =~= t7);
    assert(t7.skip(1) =~= t8);
    assert(t8.skip(1) =~= t9);
    assert(t9.skip(1) =~= t10);
    assert(t10.skip(1) =~= t11);
    assert(first_field(t10, key) == match line_field(l[10], key) {
        Some(v) => Some(v),
        None => first_field(t11, key),
    });
    assert(first_field(t9, key) == match line_field(l[9], key) {
        Some(v) => Some(v),
        None => first_field(t10, key),
    });
    assert(first_field(t8, key) == match line_field(l[8], key) {
        Some(v) => Some(v),
        None => first_field(t9, key),
    });
    assert(first_field(t7, key) == match line_field(l[7], key) {
        Some(v) => Some(v),
        None => first_field(t8, key),
    });
    assert(first_field(t6, key) == match line_field(l[6], key) {
        Some(v) => Some(v),
        None => first_field(t7, key),
    });
    assert(first_field(t5, key) == match line_field(l[5], key) {
        Some(v) => Some(v),
        None => first_field(t6, key),
    });
    assert(first_field(t4, key) == match line_field(l[4], key) {
        Some(v) => Some(v),
        None => first_field(t5, key),
    });
    assert(first_field(t3, key) == match line_field(l[3], key) {
        Some(v) => Some(v),
        None => first_field(t4, key),
    });
    assert(first_field(t2, key) == match line_field(l[2], key) {
        Some(v) => Some(v),
        None => first_field(t3, key),
    });
    assert(first_field(t1, key) == match line_field(l[1], key) {
        Some(v) => Some(v),
        None => first_field(t2, key),
    });
}

/// Round trip of the header: where a header block reads as the header `h`,
/// the text written for `h` reads as `h` again — given that the calendar
/// library reads the start time back from the one line it writes for it.
pub proof fn lemma_header_round_trip(
    text: Seq<char>,
    zone: spec_fn(CivilDateTime) -> LocalResolution,
    h: HeaderView,
)
    requires
        header_reading(text, zone) == Ok::<HeaderView, RobocopyParseError>(h),
        reads_back(h.started.civil),
    ensures
        header_reading(header_text(h), zone) == Ok::<HeaderView, RobocopyParseError>(h),
{
    let format = ROBOCOPY_START_DATETIME_FMT@;
    let written = start_text(h.started);
    let l = header_lines(h);
    // What was read is clean.
    lemma_field_is_clean(text, "source"@, 0);
    lemma_field_is_clean(text, "dest"@, 0);
    lemma_field_is_clean(text, "files"@, 0);
    lemma_field_is_clean(text, "options"@, 0);
    let old_value = header_field(text, "started"@)->Some_0;
    assert(start_reading(old_value, zone) == Ok::<_, RobocopyParseError>(h.started));
    let c = naive_reading(trim(old_value), format)->Some_0;
    assert(h.started.civil == c);
    assert(earliest_local_time(c, zone(c)) == Ok::<_, RobocopyParseError>(h.started));
    // The written lines are lines.
    reveal_strlit("ROBOCOPY");
    reveal_strlit(":     Robust File Copy for Windows");
    reveal_strlit("Started");
    reveal_strlit("Source");
    reveal_strlit("Dest");
    reveal_strlit("Files");
    reveal_strlit("Options");
    assert(one_line(written));
    assert(one_line(h.source) && one_line(h.dest) && one_line(h.files) && one_line(h.options));
    assert(one_line(dashes(79)) && one_line(dashes(78)) && one_line(Seq::<char>::empty()));
    assert(one_line(title_line()));
    assert(one_line(seq!['\t'] + spaces(4)));
    assert(one_line(labelled(2, "Started"@, spaces(1) + written)));
    assert(one_line(labelled(3, "Source"@, spaces(1) + h.source)));
    assert(one_line(labelled(5, "Dest"@, spaces(1) + h.dest)));
    assert(one_line(labelled(4, "Files"@, spaces(1) + h.files)));
    assert(one_line(labelled(2, "Options"@, spaces(1) + h.options + spaces(1))));
    assert forall|k: int| 0 <= k < l.len() implies one_line(#[trigger] l[k]) by {}
    // So each field is found in its line.
    assert(Seq::<char>::empty() + text_lines(l) =~= header_text(h));
    lemma_field_of_lines(Seq::empty(), l, "started"@);
    lemma_field_of_lines(Seq::empty(), l, "source"@);
    lemma_field_of_lines(Seq::empty(), l, "dest"@);
    lemma_field_of_lines(Seq::empty(), l, "files"@);
    lemma_field_of_lines(Seq::empty(), l, "options"@);
    lemma_fields_of_written_header(h);
    // And its value is what was written.
    lemma_trim_ignores_margin(spaces(1), written, Seq::empty());
    assert(spaces(1) + written + Seq::<char>::empty() =~= spaces(1) + written);
    lemma_trim_idempotent(written);
    lemma_trim_ignores_margin(spaces(1), h.source, Seq::empty());
    assert(spaces(1) + h.source + Seq::<char>::empty() =~= spaces(1) + h.source);
    lemma_trim_ignores_margin(spaces(1), h.dest, Seq::empty());
    assert(spaces(1) + h.dest + Seq::<char>::empty() =~= spaces(1) + h.dest);
    lemma_trim_ignores_margin(spaces(1), h.files, Seq::empty());
    assert(spaces(1) + h.files + Seq::<char>::empty() =~= spaces(1) + h.files);
    lemma_trim_ignores_margin(spaces(1), h.options, spaces(1));
    let new_value = trim(spaces(1) + written);
    assert(new_value == trim(written));
    assert(trim(new_value) == trim(written));
    assert(start_reading(new_value, zone) == Ok::<_, RobocopyParseError>(h.started));
}

} // verus!
