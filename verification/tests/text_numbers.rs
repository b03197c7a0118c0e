use sysray::numbers::{decimal_len, decimal_string, parse_i64, parse_u64, parse_u8, push_padded};
use sysray::text::{normalize, split_lines, trim_line_end};

fn chars(s: &str) -> Vec<char> {
    s.chars().collect()
}

#[test]
fn parse_integers_like_str_parse() {
    assert_eq!(parse_u64(&chars("42")), Some(42));
    assert_eq!(parse_u64(&chars("+42")), Some(42));
    assert_eq!(parse_u64(&chars("")), None);
    assert_eq!(parse_u64(&chars("+")), None);
    assert_eq!(parse_u64(&chars("-1")), None);
    assert_eq!(parse_u64(&chars("18446744073709551615")), Some(u64::MAX));
    assert_eq!(parse_u64(&chars("18446744073709551616")), None);
    assert_eq!(parse_u8(&chars("255")), Some(255));
    assert_eq!(parse_u8(&chars("256")), None);
    assert_eq!(parse_i64(&chars("-9223372036854775808")), Some(i64::MIN));
    assert_eq!(parse_i64(&chars("-9223372036854775809")), None);
    assert_eq!(parse_i64(&chars("12a")), None);
}

#[test]
fn decimal_rendering() {
    assert_eq!(decimal_string(0), "0");
    assert_eq!(decimal_string(1234567890), "1234567890");
    assert_eq!(decimal_string(u64::MAX), "18446744073709551615");
    assert_eq!(decimal_len(0), 1);
    assert_eq!(decimal_len(99), 2);
    assert_eq!(decimal_len(100), 3);
    let mut s = String::new();
    push_padded(&mut s, 7, 3);
    push_padded(&mut s, 12345, 2);
    assert_eq!(s, "00712345");
    for n in [0u64, 9, 10, 65_535, u64::MAX] {
        assert_eq!(parse_u64(&chars(&decimal_string(n))), Some(n));
    }
}

#[test]
fn normalization_for_search() {
    assert_eq!(normalize("  Disk--Latency!! 99 "), chars("disk latency 99"));
    assert_eq!(normalize(""), chars(""));
    assert_eq!(normalize("é"), chars(""));
    let once: String = normalize("A  b").into_iter().collect();
    assert_eq!(normalize(&once), normalize("A  b"));
}

#[test]
fn lines_and_line_ends() {
    assert_eq!(split_lines("a\nb\r\n\nc"), vec!["a", "b", "", "c"]);
    assert_eq!(split_lines("a\n"), vec!["a"]);
    assert!(split_lines("").is_empty());
    assert_eq!(trim_line_end("x\r\n"), "x");
    assert_eq!(trim_line_end("x\n\r\n"), "x");
    assert_eq!(trim_line_end("x"), "x");
}
