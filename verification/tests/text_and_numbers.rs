use teamy_robocopy::number::{decimal_capped, read_signed, read_unsigned, scale_fraction, u32_text};
use teamy_robocopy::robocopy::robocopy_log_line::{
    is_new_file_line, parse_access_denied_first_line, parse_new_file_line, parse_percentage_line,
    parse_size_to_bytes,
};
use teamy_robocopy::text::{
    chars_of, equals_ignore_case, find_terminator, find_text, is_whitespace, split_tab_fields,
    split_tokens, string_of, trimmed,
};

fn cs(s: &str) -> Vec<char> {
    s.chars().collect()
}

#[test]
fn chars_and_strings_convert_both_ways() {
    assert_eq!(chars_of("a\u{e9}z"), vec!['a', '\u{e9}', 'z']);
    assert_eq!(string_of(&['J', ':', '\\']), "J:\\");
    assert_eq!(string_of(&[]), "");
}

#[test]
fn white_space_is_unicode_white_space() {
    for c in ['\t', '\n', '\u{b}', '\u{c}', '\r', ' ', '\u{85}', '\u{a0}', '\u{1680}', '\u{2000}',
        '\u{200a}', '\u{2028}', '\u{2029}', '\u{202f}', '\u{205f}', '\u{3000}']
    {
        assert!(is_whitespace(c), "{c:?}");
    }
    for c in ['a', '-', '\u{200b}', '\u{feff}', '\u{8}', '\u{e}', '\u{1f}', '0'] {
        assert!(!is_whitespace(c), "{c:?}");
    }
    let mut n = 0u32;
    while n < 0x11000 {
        if let Some(c) = char::from_u32(n) {
            assert_eq!(is_whitespace(c), c.is_whitespace(), "{n:#x}");
        }
        n += 1;
    }
}

#[test]
fn trimming_matches_std() {
    for s in ["", " ", "  a b \t", "\r\nx\r\n", "\u{3000}y\u{a0}", "none"] {
        assert_eq!(string_of(&trimmed(&cs(s))), s.trim(), "{s:?}");
    }
}

#[test]
fn tokens_and_fields() {
    let words: Vec<String> =
        split_tokens(&cs("  a  bc\td \n")).iter().map(|w| string_of(w)).collect();
    assert_eq!(words, vec!["a", "bc", "d"]);
    assert!(split_tokens(&cs(" \t ")).is_empty());
    let fields: Vec<String> =
        split_tab_fields(&cs(" New File \t\t 5 k \t x y \t")).iter().map(|w| string_of(w)).collect();
    assert_eq!(fields, vec!["New File", "5 k", "x y"]);
}

#[test]
fn searching() {
    assert_eq!(find_text(&cs("a Directory Directory"), &cs("Directory")), Some(2));
    assert_eq!(find_text(&cs("abc"), &cs("")), Some(0));
    assert_eq!(find_text(&cs("abc"), &cs("abcd")), None);
    assert_eq!(find_terminator(&cs("ab\rc\n")), 2);
    assert_eq!(find_terminator(&cs("abc")), 3);
    assert!(equals_ignore_case(&cs("Access IS denied."), &cs("access is DENIED.")));
    assert!(!equals_ignore_case(&cs("k"), &cs("\u{212a}")));
}

#[test]
fn percentages() {
    assert_eq!(parse_percentage_line(&cs("5%")), Some(5));
    assert_eq!(parse_percentage_line(&cs("  17%  ")), Some(17));
    assert_eq!(parse_percentage_line(&cs("\t100%\r\n")), Some(100));
    // White space between the digits and the sign makes it noise.
    assert_eq!(parse_percentage_line(&cs("  17 %  ")), None);
    assert_eq!(parse_percentage_line(&cs("5 %")), None);
    assert_eq!(parse_percentage_line(&cs("5\t%")), None);
    assert_eq!(parse_percentage_line(&cs("1 7%")), None);
    assert_eq!(parse_percentage_line(&cs(" %")), None);
    assert_eq!(parse_percentage_line(&cs("100%")), Some(100));
    assert_eq!(parse_percentage_line(&cs("0%")), Some(0));
    assert_eq!(parse_percentage_line(&cs("000000000000000000000000100%")), Some(100));
    assert_eq!(parse_percentage_line(&cs("101%")), None);
    assert_eq!(parse_percentage_line(&cs("99999999999999999999999999%")), None);
    assert_eq!(parse_percentage_line(&cs("%")), None);
    assert_eq!(parse_percentage_line(&cs("5")), None);
    assert_eq!(parse_percentage_line(&cs("+5%")), None);
    assert_eq!(parse_percentage_line(&cs("5.0%")), None);
    assert_eq!(parse_percentage_line(&cs("")), None);
}

#[test]
fn sizes() {
    assert_eq!(parse_size_to_bytes(&cs("204576")), Some(204_576));
    assert_eq!(parse_size_to_bytes(&cs("0")), Some(0));
    assert_eq!(parse_size_to_bytes(&cs("50.0 m")), Some(50 * 1024 * 1024));
    assert_eq!(parse_size_to_bytes(&cs("1k")), Some(1024));
    assert_eq!(parse_size_to_bytes(&cs("1.5 K")), Some(1536));
    assert_eq!(parse_size_to_bytes(&cs("0.1 k")), Some(102));
    assert_eq!(parse_size_to_bytes(&cs("0.999 k")), Some(1022));
    assert_eq!(parse_size_to_bytes(&cs("2 G")), Some(2 * 1024 * 1024 * 1024));
    assert_eq!(parse_size_to_bytes(&cs("3.25 t")), Some(3_573_412_790_272));
    assert_eq!(parse_size_to_bytes(&cs("7.")), Some(7));
    assert_eq!(parse_size_to_bytes(&cs(".5 k")), Some(512));
    assert_eq!(parse_size_to_bytes(&cs("12.9")), Some(12));
    assert_eq!(
        parse_size_to_bytes(&cs("0.00000000000000000000000000000000000000000000000001 t")),
        Some(0)
    );
    assert_eq!(
        parse_size_to_bytes(&cs("99999999999999999999999999999999999999999999 t")),
        Some(usize::MAX)
    );
    assert_eq!(parse_size_to_bytes(&cs("")), None);
    assert_eq!(parse_size_to_bytes(&cs("m")), None);
    assert_eq!(parse_size_to_bytes(&cs(".")), None);
    assert_eq!(parse_size_to_bytes(&cs("5 x")), None);
    assert_eq!(parse_size_to_bytes(&cs("5 kk")), None);
    assert_eq!(parse_size_to_bytes(&cs("1.2.3")), None);
    assert_eq!(parse_size_to_bytes(&cs("-5")), None);
}

#[test]
fn new_file_lines() {
    assert!(is_new_file_line(&cs("\t    New File  \t\t  50.0 m\tJ:\\a")));
    assert!(!is_new_file_line(&cs("new file\t1\tx")));
    assert_eq!(
        parse_new_file_line(&cs("New File  \t  50.0 m\tJ:\\a.bucket")),
        Some((52_428_800, cs("J:\\a.bucket")))
    );
    assert_eq!(parse_new_file_line(&cs("NEW FILE\tx\t7\tp q")), Some((7, cs("p q"))));
    assert_eq!(parse_new_file_line(&cs("New File\t7")), None);
    assert_eq!(parse_new_file_line(&cs("Old\tNew File\t7\tp")), None);
    assert_eq!(parse_new_file_line(&cs("New File\tseven\tp")), None);
}

#[test]
fn access_denied_lines() {
    let line = cs("2025/08/27 22:19:37 ERROR 5 (0x00000005) Copying Directory J:\\System Volume Information\\");
    let (when, path) = parse_access_denied_first_line(&line).unwrap().unwrap();
    assert_eq!(string_of(&path), "J:\\System Volume Information\\");
    assert_eq!(
        (when.civil.year, when.civil.month, when.civil.day),
        (2025, 8, 27)
    );
    assert_eq!(
        (when.civil.hour, when.civil.minute, when.civil.second, when.civil.nanosecond),
        (22, 19, 37, 0)
    );
    for other in [
        "2025/08/27 22:19:37 ERROR 5 (0x00000005) Copying File J:\\x",
        "2025/08/27 22:19:37 ERROR 5 (0x00000005) Copying",
        "2025-08-27 22:19:37 ERROR 5 (0x00000005) Copying Directory J:\\x",
        "2025/08/27 22.19.37 ERROR 5 (0x00000005) Copying Directory J:\\x",
        "2025/08/27 22:19:37 WARN 5 (0x00000005) Copying Directory J:\\x",
        "2025/08/27 22:19:37 ERROR 5 0x00000005 Copying Directory J:\\x",
        "2025/08/27 22:19:37 ERROR 5 (0x5) Copying DIRECTORY J:\\x",
        "New File\t1\tx",
        "",
    ] {
        assert_eq!(parse_access_denied_first_line(&cs(other)), Ok(None), "{other:?}");
    }
    assert_eq!(
        parse_access_denied_first_line(&cs(
            "2025/08/27 22:19:37 error 5 (0x5) copying DIRECTORY J:\\Directory\\x"
        ))
        .unwrap()
        .map(|(_, p)| string_of(&p)),
        Some("\\x".to_string())
    );
}

#[test]
fn numerals() {
    assert_eq!(decimal_capped(&cs("0042"), 1000), 42);
    assert_eq!(decimal_capped(&cs("1001"), 1000), 1000);
    assert_eq!(decimal_capped(&cs(""), 1000), 0);
    assert_eq!(scale_fraction(&cs("5"), 1024), 512);
    assert_eq!(scale_fraction(&cs("999"), 1024), 1022);
    assert_eq!(scale_fraction(&cs(""), 1024), 0);
    assert_eq!(read_unsigned(&cs("+7")), Some(7));
    assert_eq!(read_unsigned(&cs("08")), Some(8));
    assert_eq!(read_unsigned(&cs("-7")), None);
    assert_eq!(read_unsigned(&cs("+")), None);
    assert_eq!(read_signed(&cs("-123")), Some(-123));
    assert_eq!(read_signed(&cs("2025")), Some(2025));
    assert_eq!(read_signed(&cs("2o25")), None);
    assert_eq!(read_unsigned(&cs("4294967295")), Some(u32::MAX));
    assert_eq!(read_unsigned(&cs("4294967296")), None);
    assert_eq!(read_unsigned(&cs("000000000000000000000012")), Some(12));
    assert_eq!(read_unsigned(&cs("99999999999999999999999999999999999999999999")), None);
    assert_eq!(read_signed(&cs("-2147483648")), Some(i32::MIN));
    assert_eq!(read_signed(&cs("-2147483649")), None);
    assert_eq!(read_signed(&cs("+2147483647")), Some(i32::MAX));
    assert_eq!(read_signed(&cs("2147483648")), None);
    assert_eq!(read_signed(&cs("-")), None);
    assert_eq!(read_signed(&cs("")), None);
    for s in ["0", "-0", "+0", "17", "-17", "+17", "1 ", " 1", "--1", "+-1", "1+", "0x10"] {
        assert_eq!(read_signed(&cs(s)), s.parse::<i32>().ok(), "{s:?}");
        assert_eq!(read_unsigned(&cs(s)), s.parse::<u32>().ok(), "{s:?}");
    }
    assert_eq!(string_of(&u32_text(0)), "0");
    assert_eq!(string_of(&u32_text(4_294_967_295)), "4294967295");
    assert_eq!(string_of(&u32_text(1000)), "1000");
}
