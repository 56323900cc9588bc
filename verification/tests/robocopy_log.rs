use chrono::{Datelike, Local, TimeZone, Timelike};
use teamy_robocopy::local_time::{CivilDateTime, LocalDateTime, LocalResolution};
use teamy_robocopy::robocopy::robocopy_error::RobocopyParseError;
use teamy_robocopy::robocopy::robocopy_file_pattern::RobocopyFilePattern;
use teamy_robocopy::robocopy::robocopy_header::RobocopyHeader;
use teamy_robocopy::robocopy::robocopy_log_entry::RobocopyLogEntry;
use teamy_robocopy::robocopy::robocopy_log_line::{access_denied_when, TimeFields};
use teamy_robocopy::robocopy::robocopy_log_parser::{RobocopyLogParser, RobocopyParseAdvance};
use teamy_robocopy::robocopy::robocopy_options::RobocopyOptions;
use teamy_robocopy::robocopy::robocopy_start_datetime::RobocopyStartDateTime;
use uom::si::information::{byte, mebibyte};
use uom::si::usize::Information;

const DASHES_79: &str =
    "-------------------------------------------------------------------------------";
const DASHES_78: &str =
    "------------------------------------------------------------------------------";

/// A log as robocopy writes it: header, two refused directories, then files
/// whose progress is overwritten in place with carriage returns.
fn sample() -> String {
    let mut s = String::new();
    s.push('\n');
    s.push_str(DASHES_79);
    s.push('\n');
    s.push_str("   ROBOCOPY     ::     Robust File Copy for Windows                              \n");
    s.push_str(DASHES_79);
    s.push('\n');
    s.push('\n');
    s.push_str("  Started : August 27, 2025 10:19:37 PM\n");
    s.push_str("   Source : J:\\\n");
    s.push_str("     Dest : K:\\\n");
    s.push('\n');
    s.push_str("    Files : *.*\n");
    s.push_str("\t    \n");
    s.push_str("  Options : *.* /TEE /S /E /DCOPY:DA /COPY:DAT /MT:16 /R:1000000 /W:5 \n");
    s.push('\n');
    s.push_str(DASHES_78);
    s.push('\n');
    s.push('\n');
    s.push_str("2025/08/27 22:19:37 ERROR 5 (0x00000005) Copying Directory J:\\$RECYCLE.BIN\\\n");
    s.push_str("Access is denied.\n");
    s.push('\n');
    s.push_str(
        "2025/08/27 22:19:37 ERROR 5 (0x00000005) Copying Directory J:\\System Volume Information\\\n",
    );
    s.push_str("Access is denied.\n");
    s.push('\n');
    s.push_str("\t    New File  \t\t  50.0 m\tJ:\\nas-ds418j_1.hbk\\Pool\\0\\17\\0.bucket\n");
    s.push_str("  5%  \r 17%  \r 23%  \r 29%  \r 35%  \r 41%  \r 53%  \r 59%  \r 65%  \r 67%  ");
    s.push_str("\r 75%  \r 83%  \r 89%  \r 95%  \r100%  \n");
    s.push_str("\t    New File  \t\t  204576\tJ:\\nas-ds418j_1.hbk\\Pool\\0\\17\\0.index\n");
    s.push_str("100%  \n");
    s.push_str("\t    New File  \t\t       0\tJ:\\nas-ds418j_1.hbk\\Pool\\0\\17\\0.lock\n");
    s.push_str("100%  \n");
    s.push_str("\t    New File  \t\t  50.0 m\tJ:\\nas-ds418j_1.hbk\\Pool\\0\\17\\1.bucket\n");
    s.push_str(" 91%  \r 97%  \r100%  \n");
    s.push_str("\t    New File  \t\t  204224\tJ:\\nas-ds418j_1.hbk\\Pool\\0\\17\\1.index\n");
    s.push_str("100%  \n");
    s.push_str("\t    New File  \t\t       0\tJ:\\nas-ds418j_1.hbk\\Pool\\0\\17\\1.lock\n");
    s.push_str("100%  \n");
    s.push_str("\t    New File  \t\t  50.0 m\tJ:\\nas-ds418j_1.hbk\\Pool\\0\\17\\10.bucket\n");
    s
}

/// The library's value for a moment that chrono gives.
fn local(dt: chrono::DateTime<Local>) -> LocalDateTime {
    LocalDateTime {
        civil: CivilDateTime {
            year: dt.year(),
            month: dt.month(),
            day: dt.day(),
            hour: dt.hour(),
            minute: dt.minute(),
            second: dt.second(),
            nanosecond: dt.nanosecond(),
        },
        utc_offset_seconds: dt.offset().local_minus_utc(),
    }
}

/// Path equality as on Windows, where both slashes separate.
fn same_path(a: &str, b: &str) -> bool {
    a.replace('/', "\\") == b.replace('/', "\\")
}

fn bytes(size: Information) -> usize {
    size.get::<byte>()
}

fn normalize(s: &str) -> String {
    s.trim_start_matches('\n').lines().map(str::trim_end).collect::<Vec<_>>().join("\n")
}

fn push_new_file(
    expected: &mut Vec<RobocopyLogEntry>,
    size: Information,
    path: &str,
    percentages: &[u8],
) {
    expected.push(RobocopyLogEntry::NewFile {
        size: bytes(size),
        path: path.to_string(),
        percentages: Vec::new(),
    });
    let mut acc: Vec<u8> = Vec::new();
    for &p in percentages {
        acc.push(p);
        expected.push(RobocopyLogEntry::NewFile {
            size: bytes(size),
            path: path.to_string(),
            percentages: acc.clone(),
        });
    }
}

fn expected_entries() -> Vec<RobocopyLogEntry> {
    let when = local(Local.with_ymd_and_hms(2025, 8, 27, 22, 19, 37).unwrap());
    let mut expected: Vec<RobocopyLogEntry> = Vec::new();
    expected.push(RobocopyLogEntry::AccessDeniedError {
        when,
        path: r"J:\$RECYCLE.BIN\".to_string(),
    });
    expected.push(RobocopyLogEntry::AccessDeniedError {
        when,
        path: r"J:\System Volume Information\".to_string(),
    });
    push_new_file(
        &mut expected,
        Information::new::<mebibyte>(50),
        r"J:\nas-ds418j_1.hbk\Pool\0\17\0.bucket",
        &[5, 17, 23, 29, 35, 41, 53, 59, 65, 67, 75, 83, 89, 95, 100],
    );
    push_new_file(
        &mut expected,
        Information::new::<byte>(204_576),
        r"J:\nas-ds418j_1.hbk\Pool\0\17\0.index",
        &[100],
    );
    push_new_file(
        &mut expected,
        Information::new::<byte>(0),
        r"J:\nas-ds418j_1.hbk\Pool\0\17\0.lock",
        &[100],
    );
    push_new_file(
        &mut expected,
        Information::new::<mebibyte>(50),
        r"J:\nas-ds418j_1.hbk\Pool\0\17\1.bucket",
        &[91, 97, 100],
    );
    push_new_file(
        &mut expected,
        Information::new::<byte>(204_224),
        r"J:\nas-ds418j_1.hbk\Pool\0\17\1.index",
        &[100],
    );
    push_new_file(
        &mut expected,
        Information::new::<byte>(0),
        r"J:\nas-ds418j_1.hbk\Pool\0\17\1.lock",
        &[100],
    );
    push_new_file(
        &mut expected,
        Information::new::<mebibyte>(50),
        r"J:\nas-ds418j_1.hbk\Pool\0\17\10.bucket",
        &[],
    );
    expected
}

/// Feeds `text` in chunks of `size` bytes and collects what comes out.
fn run_in_chunks(
    text: &str,
    size: usize,
) -> Result<(Vec<RobocopyHeader>, Vec<RobocopyLogEntry>, usize), RobocopyParseError> {
    let mut parser = RobocopyLogParser::new();
    let mut headers = Vec::new();
    let mut entries = Vec::new();
    let mut entries_before_header = 0;
    for chunk in text.as_bytes().chunks(size) {
        parser.accept(std::str::from_utf8(chunk).unwrap());
        loop {
            match parser.advance()? {
                RobocopyParseAdvance::NeedMoreData => break,
                RobocopyParseAdvance::Header(h) => headers.push(h),
                RobocopyParseAdvance::LogEntry(entry) => {
                    if headers.is_empty() {
                        entries_before_header += 1;
                    }
                    entries.push(entry);
                }
            }
        }
    }
    Ok((headers, entries, entries_before_header))
}

#[test]
fn parse_date() {
    let s = "August 27, 2025 10:19:37 PM";
    let parsed = RobocopyStartDateTime::from_str(s).unwrap();
    let expected = local(Local.with_ymd_and_hms(2025, 8, 27, 22, 19, 37).unwrap());
    assert_eq!(*parsed.as_datetime(), expected);
    assert_eq!(parsed.to_string(), s);
}

#[test]
fn parse_header_from_sample() {
    let content = sample();
    let mut collected = Vec::new();
    let mut dash_count = 0;
    for line in content.lines() {
        collected.push(line);
        let trimmed = line.trim();
        if !trimmed.is_empty() && trimmed.chars().all(|c| c == '-') {
            dash_count += 1;
            if dash_count == 3 {
                break;
            }
        }
    }
    let header_str = collected.join("\n");
    let header = RobocopyHeader::from_str(&header_str).unwrap();

    let expected_started = local(Local.with_ymd_and_hms(2025, 8, 27, 22, 19, 37).unwrap());
    assert_eq!(*header.started.as_datetime(), expected_started);
    assert!(same_path(&header.source, "J:/"));
    assert!(same_path(&header.dest, "K:/"));
    assert_eq!(header.files.to_string(), "*.*");
    assert_eq!(
        header.options.to_string(),
        "*.* /TEE /S /E /DCOPY:DA /COPY:DAT /MT:16 /R:1000000 /W:5"
    );
    let expected_display = normalize(&header_str);
    let actual_display = normalize(&header.to_string());
    assert_eq!(actual_display, expected_display, "Display formatting mismatch");
}

#[test]
fn parse_header_and_first_entries_streaming() {
    let sample = sample();
    let mut parser = RobocopyLogParser::new();
    let mut header: Option<RobocopyHeader> = None;
    let mut entries: Vec<RobocopyLogEntry> = Vec::new();
    for chunk in sample.as_bytes().chunks(37) {
        parser.accept(std::str::from_utf8(chunk).unwrap());
        loop {
            let resp = parser.advance().unwrap();
            println!("{resp:?}");
            match resp {
                RobocopyParseAdvance::NeedMoreData => break,
                RobocopyParseAdvance::Header(h) => {
                    assert!(header.is_none(), "Header emitted twice");
                    assert!(same_path(&h.source, "J:/"));
                    header = Some(h);
                }
                RobocopyParseAdvance::LogEntry(entry) => entries.push(entry),
            }
        }
    }
    assert_eq!(entries, expected_entries(), "Parsed entries mismatch");
}

#[test]
fn header_scenario_fields() {
    let text = "-----\n ROBOCOPY :: x\n-----\n\n  Started : August 27, 2025 10:19:37 PM\n   Source : J:\\\n     Dest : K:\\\n\n    Files : *.*\n\n  Options : *.* /TEE\n\n------\n";
    let header = RobocopyHeader::from_str(text).unwrap();
    let c = header.started.as_datetime().civil;
    assert_eq!((c.year, c.month, c.day, c.hour, c.minute, c.second), (2025, 8, 27, 22, 19, 37));
    assert_eq!(header.source, "J:\\");
    assert_eq!(header.dest, "K:\\");
    assert_eq!(header.files.to_string(), "*.*");
    assert_eq!(header.options.to_string(), "*.* /TEE");
}

#[test]
fn new_file_progress_scenario() {
    let mut parser = RobocopyLogParser::new();
    parser.accept("---\n---\nStarted: August 27, 2025 10:19:37 PM\nSource: a\nDest: b\nFiles: c\nOptions: d\n---\n");
    assert!(matches!(parser.advance(), Ok(RobocopyParseAdvance::Header(_))));
    parser.accept("New File  \t  50.0 m\tJ:\\a.bucket\n");
    parser.accept("5%\r17%\r100%\n");
    let mut seen = Vec::new();
    loop {
        match parser.advance().unwrap() {
            RobocopyParseAdvance::NeedMoreData => break,
            RobocopyParseAdvance::LogEntry(RobocopyLogEntry::NewFile { size, path, percentages }) => {
                assert_eq!(size, 50 * 1024 * 1024);
                assert_eq!(path, "J:\\a.bucket");
                seen.push(percentages);
            }
            other => panic!("unexpected {other:?}"),
        }
    }
    assert_eq!(seen, vec![vec![], vec![5], vec![5, 17], vec![5, 17, 100]]);
}

#[test]
fn access_denied_without_confirmation_scenario() {
    let mut parser = RobocopyLogParser::new();
    parser.accept("---\n---\nStarted: August 27, 2025 10:19:37 PM\nSource: a\nDest: b\nFiles: c\nOptions: d\n---\n");
    assert!(matches!(parser.advance(), Ok(RobocopyParseAdvance::Header(_))));
    parser.accept("2025/08/27 22:19:37 ERROR 5 (0x00000005) Copying Directory J:\\x\\\n");
    assert_eq!(parser.advance(), Ok(RobocopyParseAdvance::NeedMoreData));
    parser.accept("\tNew File\t12\tJ:\\y\n");
    let when = local(Local.with_ymd_and_hms(2025, 8, 27, 22, 19, 37).unwrap());
    assert_eq!(
        parser.advance(),
        Ok(RobocopyParseAdvance::LogEntry(RobocopyLogEntry::AccessDeniedError {
            when,
            path: "J:\\x\\".to_string(),
        }))
    );
    assert_eq!(
        parser.advance(),
        Ok(RobocopyParseAdvance::LogEntry(RobocopyLogEntry::NewFile {
            size: 12,
            path: "J:\\y".to_string(),
            percentages: vec![],
        }))
    );
    assert_eq!(parser.advance(), Ok(RobocopyParseAdvance::NeedMoreData));
}

#[test]
fn chunk_size_does_not_matter() {
    let text = sample();
    let whole = run_in_chunks(&text, text.len()).unwrap();
    for size in [1, 2, 3, 7, 37, 64, 1000] {
        let chunked = run_in_chunks(&text, size).unwrap();
        assert_eq!(chunked.0, whole.0, "headers differ at chunk size {size}");
        assert_eq!(chunked.1, whole.1, "entries differ at chunk size {size}");
    }
    assert_eq!(whole.1, expected_entries());
}

#[test]
fn one_header_before_all_entries() {
    let text = sample();
    let (headers, entries, entries_before_header) = run_in_chunks(&text, 5).unwrap();
    assert_eq!(headers.len(), 1);
    assert_eq!(entries_before_header, 0);
    assert!(!entries.is_empty());
    // A second header block in the entry phase is noise.
    let mut twice = text.clone();
    twice.push_str(&text);
    let (headers, _, _) = run_in_chunks(&twice, 11).unwrap();
    assert_eq!(headers.len(), 1);
}

#[test]
fn progress_grows_by_one_value() {
    let text = sample();
    let (_, entries, _) = run_in_chunks(&text, 13).unwrap();
    let mut previous: Option<(usize, String, Vec<u8>)> = None;
    for entry in entries {
        if let RobocopyLogEntry::NewFile { size, path, percentages } = entry {
            match &previous {
                Some((s, p, seen)) if *s == size && *p == path && !percentages.is_empty() => {
                    assert_eq!(percentages.len(), seen.len() + 1);
                    assert_eq!(&percentages[..seen.len()], &seen[..]);
                    assert!(*percentages.last().unwrap() <= 100);
                }
                _ => assert!(percentages.is_empty()),
            }
            previous = Some((size, path, percentages));
        }
    }
}

#[test]
fn header_round_trip() {
    let text = sample();
    let (headers, _, _) = run_in_chunks(&text, 50).unwrap();
    let header = &headers[0];
    let again = RobocopyHeader::from_str(&header.to_string()).unwrap();
    assert_eq!(&again, header);
}

#[test]
fn superseded_file_is_reported_as_it_stands() {
    let mut parser = RobocopyLogParser::new();
    parser.accept("-\n-\nStarted: August 27, 2025 10:19:37 PM\nSource: a\nDest: b\nFiles: c\nOptions: d\n-\n");
    assert!(matches!(parser.advance(), Ok(RobocopyParseAdvance::Header(_))));
    parser.accept("New File\t1 k\tfirst\n 40%\rnoise\n  New File\t2\tsecond  \n");
    let mut seen = Vec::new();
    loop {
        match parser.advance().unwrap() {
            RobocopyParseAdvance::NeedMoreData => break,
            RobocopyParseAdvance::LogEntry(e) => seen.push(e),
            other => panic!("unexpected {other:?}"),
        }
    }
    let file = |size: usize, path: &str, percentages: Vec<u8>| RobocopyLogEntry::NewFile {
        size,
        path: path.to_string(),
        percentages,
    };
    assert_eq!(
        seen,
        vec![
            file(1024, "first", vec![]),
            file(1024, "first", vec![40]),
            file(1024, "first", vec![40]),
            file(2, "second", vec![]),
        ]
    );
}

#[test]
fn header_errors() {
    let parse = |s: &str| RobocopyHeader::from_str(s).map(|_| ());
    let good = "Started: August 27, 2025 10:19:37 PM\nSource: a\nDest: b\nFiles: c\nOptions: d\n";
    assert_eq!(parse(good), Ok(()));
    assert_eq!(
        parse("Source: a\nDest: b\nFiles: c\nOptions: d\n"),
        Err(RobocopyParseError::MissingStarted)
    );
    assert_eq!(
        parse("Started: yesterday\nDest: b\n"),
        Err(RobocopyParseError::InvalidStartDateTime)
    );
    assert_eq!(
        parse("Started: August 27, 2025 10:19:37 PM\nDest: b\nFiles: c\nOptions: d\n"),
        Err(RobocopyParseError::MissingSource)
    );
    assert_eq!(
        parse("Started: August 27, 2025 10:19:37 PM\nSource: a\nFiles: c\nOptions: d\n"),
        Err(RobocopyParseError::MissingDest)
    );
    assert_eq!(
        parse("Started: August 27, 2025 10:19:37 PM\nSource: a\nDest: b\nOptions: d\n"),
        Err(RobocopyParseError::MissingFiles)
    );
    assert_eq!(
        parse("Started: August 27, 2025 10:19:37 PM\nSource: a\nDest: b\nFiles: c\n"),
        Err(RobocopyParseError::MissingOptions)
    );
}

#[test]
fn header_keys_ignore_case_and_first_wins() {
    let text = "STARTED : August 27, 2025 10:19:37 PM\nsOuRcE:  first  \nSource: second\nunknown: x\nDest:K:\\\nFILES:\nOptions: /A:B\n";
    let header = RobocopyHeader::from_str(text).unwrap();
    assert_eq!(header.source, "first");
    assert_eq!(header.dest, "K:\\");
    assert_eq!(header.files.to_string(), "");
    assert_eq!(header.options.to_string(), "/A:B");
}

#[test]
fn entry_errors() {
    let start = "-\n-\nStarted: August 27, 2025 10:19:37 PM\nSource: a\nDest: b\nFiles: c\nOptions: d\n-\n";
    let mut parser = RobocopyLogParser::new();
    parser.accept(start);
    assert!(matches!(parser.advance(), Ok(RobocopyParseAdvance::Header(_))));
    parser.accept("New File with no columns\n");
    assert_eq!(parser.advance(), Err(RobocopyParseError::InvalidNewFileLine));

    let mut parser = RobocopyLogParser::new();
    parser.accept(start);
    assert!(matches!(parser.advance(), Ok(RobocopyParseAdvance::Header(_))));
    parser.accept("20xx/08/27 22:19:37 ERROR 5 (0x00000005) Copying Directory J:\\x\\\nz\n");
    assert_eq!(parser.advance(), Err(RobocopyParseError::InvalidAccessDeniedTimestamp));

    let mut parser = RobocopyLogParser::new();
    parser.accept(start);
    assert!(matches!(parser.advance(), Ok(RobocopyParseAdvance::Header(_))));
    parser.accept("2025/02/30 22:19:37 ERROR 5 (0x00000005) Copying Directory J:\\x\\\nz\n");
    assert_eq!(parser.advance(), Err(RobocopyParseError::InvalidAccessDeniedTimestamp));

    let mut parser = RobocopyLogParser::new();
    parser.accept("-\n-\nStarted: never\n-\n");
    assert_eq!(parser.advance(), Err(RobocopyParseError::InvalidStartDateTime));
}

#[test]
fn header_waits_for_third_dash_line() {
    let mut parser = RobocopyLogParser::default();
    assert_eq!(parser.advance(), Ok(RobocopyParseAdvance::NeedMoreData));
    parser.accept("----\n  ROBOCOPY\n --- \nStarted: August 27, 2025 10:19:37 PM\n");
    assert_eq!(parser.advance(), Ok(RobocopyParseAdvance::NeedMoreData));
    parser.accept("Source: a\nDest: b\nFiles: c\nOptions: d\n-- -\n----");
    assert_eq!(parser.advance(), Ok(RobocopyParseAdvance::NeedMoreData));
    parser.accept("\n5%\n");
    assert!(matches!(parser.advance(), Ok(RobocopyParseAdvance::Header(_))));
    // A percentage with no file open is noise.
    assert_eq!(parser.advance(), Ok(RobocopyParseAdvance::NeedMoreData));
}

#[test]
fn header_text_is_exact() {
    let header = RobocopyHeader::from_str(
        "Started: August 7, 2025 1:02:03 am\nSource: J:\\\nDest: K:\\\nFiles: *.*\nOptions: /S /E\n",
    )
    .unwrap();
    assert_eq!(
        header.to_string(),
        "-------------------------------------------------------------------------------\n   ROBOCOPY     ::     Robust File Copy for Windows                              \n-------------------------------------------------------------------------------\n\n  Started : August 07, 2025 01:02:03 AM\n   Source : J:\\\n     Dest : K:\\\n\n    Files : *.*\n\t    \n  Options : /S /E \n\n------------------------------------------------------------------------------"
    );
}

#[test]
fn start_time_reads_and_writes() {
    let noon = RobocopyStartDateTime::from_str("  January 1, 2000 12:00:00 PM \n").unwrap();
    let c = noon.as_datetime().civil;
    assert_eq!((c.year, c.month, c.day, c.hour, c.minute, c.second), (2000, 1, 1, 12, 0, 0));
    assert_eq!(noon.to_string(), "January 01, 2000 12:00:00 PM");
    let midnight = RobocopyStartDateTime::from_str("December 31, 1999 12:00:00 AM").unwrap();
    assert_eq!(midnight.as_datetime().civil.hour, 0);
    assert_eq!(midnight.to_string(), "December 31, 1999 12:00:00 AM");
    for bad in ["", "August 27, 2025", "27/08/2025 10:19:37 PM", "August 32, 2025 10:19:37 PM",
        "August 27, 2025 13:19:37 PM", "August 27, 2025 10:19:37"]
    {
        assert_eq!(
            RobocopyStartDateTime::from_str(bad),
            Err(RobocopyParseError::InvalidStartDateTime),
            "{bad:?}"
        );
    }
}

fn civil(year: i32, month: u32, day: u32, hour: u32, minute: u32, second: u32) -> CivilDateTime {
    CivilDateTime { year, month, day, hour, minute, second, nanosecond: 0 }
}

#[test]
fn the_zone_decides_the_offset() {
    let c = civil(2025, 11, 2, 1, 30, 0);
    let once = RobocopyStartDateTime::from_resolution(c, LocalResolution::Single(-4 * 3600));
    assert_eq!(
        once.map(|t| *t.as_datetime()),
        Ok(LocalDateTime { civil: c, utc_offset_seconds: -14_400 })
    );
    let twice =
        RobocopyStartDateTime::from_resolution(c, LocalResolution::Ambiguous(-14_400, -18_000));
    assert_eq!(
        twice.map(|t| *t.as_datetime()),
        Ok(LocalDateTime { civil: c, utc_offset_seconds: -14_400 })
    );
    // The earlier moment has the larger offset, whichever comes first.
    let other_order =
        RobocopyStartDateTime::from_resolution(c, LocalResolution::Ambiguous(-18_000, -14_400));
    assert_eq!(
        other_order.map(|t| *t.as_datetime()),
        Ok(LocalDateTime { civil: c, utc_offset_seconds: -14_400 })
    );
    let east =
        RobocopyStartDateTime::from_resolution(c, LocalResolution::Ambiguous(3600, 7200));
    assert_eq!(
        east.map(|t| *t.as_datetime()),
        Ok(LocalDateTime { civil: c, utc_offset_seconds: 7200 })
    );
    let same = RobocopyStartDateTime::from_resolution(c, LocalResolution::Ambiguous(0, 0));
    assert_eq!(same.map(|t| *t.as_datetime()), Ok(LocalDateTime { civil: c, utc_offset_seconds: 0 }));
    let never = RobocopyStartDateTime::from_resolution(c, LocalResolution::Nonexistent);
    assert_eq!(never, Err(RobocopyParseError::NonexistentLocalTime));

    let fields =
        TimeFields { year: 2025, month: 11, day: 2, hour: 1, minute: 30, second: 0 };
    assert_eq!(
        access_denied_when(&fields, LocalResolution::Single(3600)),
        Ok(LocalDateTime { civil: c, utc_offset_seconds: 3600 })
    );
    assert_eq!(
        access_denied_when(&fields, LocalResolution::Ambiguous(-14_400, -18_000)),
        Err(RobocopyParseError::InvalidAccessDeniedTimestamp)
    );
    assert_eq!(
        access_denied_when(&fields, LocalResolution::Nonexistent),
        Err(RobocopyParseError::InvalidAccessDeniedTimestamp)
    );
}

#[test]
fn only_valid_times_are_start_times() {
    let at = |c: CivilDateTime, offset: i32| LocalDateTime { civil: c, utc_offset_seconds: offset };
    assert!(RobocopyStartDateTime::new(at(civil(2024, 2, 29, 23, 59, 59), 0)).is_some());
    assert!(RobocopyStartDateTime::new(at(civil(2000, 2, 29, 0, 0, 0), 86_399)).is_some());
    assert!(RobocopyStartDateTime::new(at(civil(-4, 2, 29, 0, 0, 0), -86_399)).is_some());
    assert!(RobocopyStartDateTime::new(at(civil(2023, 2, 29, 0, 0, 0), 0)).is_none());
    assert!(RobocopyStartDateTime::new(at(civil(1900, 2, 29, 0, 0, 0), 0)).is_none());
    assert!(RobocopyStartDateTime::new(at(civil(2025, 4, 31, 0, 0, 0), 0)).is_none());
    assert!(RobocopyStartDateTime::new(at(civil(2025, 0, 1, 0, 0, 0), 0)).is_none());
    assert!(RobocopyStartDateTime::new(at(civil(2025, 13, 1, 0, 0, 0), 0)).is_none());
    assert!(RobocopyStartDateTime::new(at(civil(2025, 1, 0, 0, 0, 0), 0)).is_none());
    assert!(RobocopyStartDateTime::new(at(civil(2025, 1, 1, 24, 0, 0), 0)).is_none());
    assert!(RobocopyStartDateTime::new(at(civil(2025, 1, 1, 0, 60, 0), 0)).is_none());
    assert!(RobocopyStartDateTime::new(at(civil(2025, 1, 1, 0, 0, 60), 0)).is_none());
    assert!(RobocopyStartDateTime::new(at(civil(2025, 1, 1, 0, 0, 0), 86_400)).is_none());
    assert!(RobocopyStartDateTime::new(at(civil(262_143, 1, 1, 0, 0, 0), 0)).is_none());
    let leap = CivilDateTime { nanosecond: 1_500_000_000, ..civil(2016, 12, 31, 23, 59, 59) };
    assert!(RobocopyStartDateTime::new(at(leap, 0)).is_some());
    let not_leap = CivilDateTime { nanosecond: 1_500_000_000, ..civil(2016, 12, 31, 23, 59, 58) };
    assert!(RobocopyStartDateTime::new(at(not_leap, 0)).is_none());
    // What is valid here is what the calendar library takes.
    for year in [-262_144, -262_143, -1, 0, 1900, 2000, 2023, 2024, 262_142, 262_143] {
        for month in 0..14 {
            for day in [0, 1, 28, 29, 30, 31, 32] {
                let valid = civil(year, month, day, 0, 0, 0).is_valid();
                let known = chrono::NaiveDate::from_ymd_opt(year, month, day).is_some();
                assert_eq!(valid, known, "{year}-{month}-{day}");
            }
        }
    }
}

#[test]
fn pattern_and_options_keep_their_text() {
    let pattern = RobocopyFilePattern::from_str(" *.* ").unwrap();
    assert_eq!(pattern.to_string(), " *.* ");
    assert_eq!(pattern, RobocopyFilePattern::from_chars(&[' ', '*', '.', '*', ' ']));
    let options = RobocopyOptions::from_str("/S \t/E").unwrap();
    assert_eq!(options.to_string(), "/S \t/E");
    assert_eq!(RobocopyOptions::from_chars(&[]).to_string(), "");
}

#[test]
fn noise_and_blank_lines_are_passed_over() {
    let mut parser = RobocopyLogParser::new();
    parser.accept("-\n-\nStarted: August 27, 2025 10:19:37 PM\nSource: a\nDest: b\nFiles: c\nOptions: d\n-\n");
    assert!(matches!(parser.advance(), Ok(RobocopyParseAdvance::Header(_))));
    parser.accept("\r\n\r\n   \nsome noise\r50%\n\tNew File\t\t3\tz\r\n\r\nmore noise\n  7%");
    assert_eq!(
        parser.advance(),
        Ok(RobocopyParseAdvance::LogEntry(RobocopyLogEntry::NewFile {
            size: 3,
            path: "z".to_string(),
            percentages: vec![],
        }))
    );
    assert_eq!(parser.advance(), Ok(RobocopyParseAdvance::NeedMoreData));
    parser.accept("\r");
    assert_eq!(
        parser.advance(),
        Ok(RobocopyParseAdvance::LogEntry(RobocopyLogEntry::NewFile {
            size: 3,
            path: "z".to_string(),
            percentages: vec![7],
        }))
    );
    assert_eq!(parser.advance(), Ok(RobocopyParseAdvance::NeedMoreData));
}

#[test]
fn confirmation_line_is_taken_with_the_denial() {
    let start = "-\n-\nStarted: August 27, 2025 10:19:37 PM\nSource: a\nDest: b\nFiles: c\nOptions: d\n-\n";
    let denied = "2025/08/27 22:19:37 ERROR 5 (0x00000005) Copying Directory J:\\x\\\n";
    let entries = |rest: &str| {
        let mut text = String::from(start);
        text.push_str(denied);
        text.push_str(rest);
        run_in_chunks(&text, 9).unwrap().1
    };
    assert_eq!(entries("ACCESS IS DENIED.\n").len(), 1);
    assert_eq!(entries("   \n").len(), 1);
    assert_eq!(entries("Access is denied\n").len(), 1);
    assert_eq!(entries("\tNew File\t1\tp\n").len(), 2);
    assert_eq!(entries("Access is denied.\n\tNew File\t1\tp\n").len(), 2);
    assert_eq!(entries("").len(), 0);
}

#[test]
fn percentage_needs_its_sign_directly_behind() {
    let mut parser = RobocopyLogParser::new();
    parser.accept("-\n-\nStarted: August 27, 2025 10:19:37 PM\nSource: a\nDest: b\nFiles: c\nOptions: d\n-\n");
    assert!(matches!(parser.advance(), Ok(RobocopyParseAdvance::Header(_))));
    parser.accept("New File\t9\tp\n 5 %\r 6%\r");
    assert_eq!(
        parser.advance(),
        Ok(RobocopyParseAdvance::LogEntry(RobocopyLogEntry::NewFile {
            size: 9,
            path: "p".to_string(),
            percentages: vec![],
        }))
    );
    assert_eq!(
        parser.advance(),
        Ok(RobocopyParseAdvance::LogEntry(RobocopyLogEntry::NewFile {
            size: 9,
            path: "p".to_string(),
            percentages: vec![6],
        }))
    );
    assert_eq!(parser.advance(), Ok(RobocopyParseAdvance::NeedMoreData));
}
