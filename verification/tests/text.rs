use rust_daemon::number::{i64_to_decimal, parse_i64, parse_u16, parse_u32, u64_to_decimal};
use rust_daemon::text::{char_is_whitespace, ends_with, split, starts_with, str_eq, trim};

#[test]
fn trim_removes_unicode_whitespace() {
    assert_eq!(trim("  a b \t\n"), "a b");
    assert_eq!(trim("\u{3000}x\u{a0}"), "x");
    assert_eq!(trim("   "), "");
    assert_eq!(trim(""), "");
    for c in ['\u{85}', '\u{1680}', '\u{2000}', '\u{200a}', '\u{2028}', '\u{2029}', '\u{202f}', '\u{205f}', ' ', 'x', '\u{200b}', '\u{180e}'] {
        assert_eq!(char_is_whitespace(c), c.is_whitespace(), "{:?}", c);
    }
}

#[test]
fn split_matches_str_split() {
    for (s, sep) in [("a;b;c", ';'), ("", ';'), (";", ';'), ("a;;b;", ';'), ("no sep", ',')] {
        let ours = split(s, sep);
        let std: Vec<String> = s.split(sep).map(|p| p.to_string()).collect();
        assert_eq!(ours, std);
    }
}

#[test]
fn prefixes_and_suffixes() {
    assert!(starts_with("/webui/app.js", "/webui/"));
    assert!(!starts_with("/web", "/webui/"));
    assert!(ends_with("a.json", ".json"));
    assert!(!ends_with("json", ".json"));
    assert!(str_eq("é", "é"));
    assert!(!str_eq("e", "é"));
}

#[test]
fn decimal_formatting() {
    assert_eq!(u64_to_decimal(0), "0");
    assert_eq!(u64_to_decimal(86400), "86400");
    assert_eq!(u64_to_decimal(u64::MAX), u64::MAX.to_string());
    assert_eq!(i64_to_decimal(-42), "-42");
    assert_eq!(i64_to_decimal(i64::MIN), i64::MIN.to_string());
}

#[test]
fn integer_parsing_matches_std() {
    let cases = ["0", "+7", "-7", "007", "", "+", "-", "12a", " 1", "9223372036854775807",
        "9223372036854775808", "-9223372036854775808", "-9223372036854775809", "65535", "65536",
        "4294967295", "4294967296", "-0", "99999999999999999999999"];
    for c in cases {
        assert_eq!(parse_i64(c), c.parse::<i64>().ok(), "i64 {:?}", c);
        assert_eq!(parse_u32(c), c.parse::<u32>().ok(), "u32 {:?}", c);
        assert_eq!(parse_u16(c), c.parse::<u16>().ok(), "u16 {:?}", c);
    }
}
