use openkakao_cli::text::{
    chars_of, contains_chars, lines_of, parse_i32, parse_i64, push_decimal, push_signed_decimal,
    split_chars, trim_chars, utf8_len_at_least,
};

fn chars(s: &str) -> Vec<char> {
    s.chars().collect()
}

fn text(v: &[char]) -> String {
    v.iter().collect()
}

#[test]
fn parse_i64_accepts_what_str_parse_accepts() {
    for s in ["0", "42", "-42", "+42", "007", "9223372036854775807", "-9223372036854775808"] {
        assert_eq!(parse_i64(&chars(s)), s.parse::<i64>().ok(), "{s}");
    }
}

#[test]
fn parse_i64_rejects_what_str_parse_rejects() {
    for s in [
        "", "+", "-", " 1", "1 ", "1a", "9223372036854775808", "-9223372036854775809",
        "99999999999999999999999", "--1", "١",
    ] {
        assert_eq!(parse_i64(&chars(s)), None, "{s}");
        assert!(s.parse::<i64>().is_err());
    }
}

#[test]
fn parse_i32_bounds() {
    assert_eq!(parse_i32(&chars("2147483647")), Some(i32::MAX));
    assert_eq!(parse_i32(&chars("-2147483648")), Some(i32::MIN));
    assert_eq!(parse_i32(&chars("2147483648")), None);
    assert_eq!(parse_i32(&chars("12345")), Some(12345));
}

#[test]
fn decimal_formatting_matches_display() {
    for n in [0u64, 7, 10, 99, 100, 1234567890, u64::MAX] {
        let mut s = String::new();
        push_decimal(&mut s, n);
        assert_eq!(s, n.to_string());
    }
    for n in [0i64, -1, 5, -987654321, i64::MIN, i64::MAX] {
        let mut s = String::from("x");
        push_signed_decimal(&mut s, n);
        assert_eq!(s, format!("x{n}"));
    }
}

#[test]
fn trim_matches_str_trim() {
    for s in ["  a b  ", "\t\n x\r\n", "", "   ", "\u{3000}id\u{a0}", "no-space"] {
        assert_eq!(text(&trim_chars(&chars(s))), s.trim(), "{s:?}");
    }
}

#[test]
fn lines_match_str_lines() {
    for s in ["", "a", "a\n", "a\nb", "a\r\nb\r\n", "\n\n", "x\r", "one\ntwo\r\nthree"] {
        let got: Vec<String> = lines_of(&chars(s)).iter().map(|l| text(l)).collect();
        let want: Vec<String> = s.lines().map(|l| l.to_string()).collect();
        assert_eq!(got, want, "{s:?}");
    }
}

#[test]
fn split_matches_str_split() {
    for s in ["", "\"", "a\"b\"c", "\"IOPlatformUUID\" = \"X\"", "no quotes"] {
        let got: Vec<String> = split_chars(&chars(s), '"').iter().map(|l| text(l)).collect();
        let want: Vec<String> = s.split('"').map(|l| l.to_string()).collect();
        assert_eq!(got, want, "{s:?}");
    }
}

#[test]
fn contains_finds_substrings() {
    assert!(contains_chars(&chars("abcdef"), &chars("cde")));
    assert!(contains_chars(&chars("abc"), &chars("")));
    assert!(!contains_chars(&chars("abc"), &chars("abd")));
    assert!(!contains_chars(&chars("ab"), &chars("abc")));
}

#[test]
fn utf8_length_threshold() {
    assert!(utf8_len_at_least(&chars("abc"), 3));
    assert!(!utf8_len_at_least(&chars("abc"), 4));
    assert!(utf8_len_at_least(&chars("한"), 3));
    assert!(!utf8_len_at_least(&chars("한"), 4));
    assert!(utf8_len_at_least(&chars(""), 0));
}

#[test]
fn chars_of_keeps_order() {
    assert_eq!(chars_of("héllo"), vec!['h', 'é', 'l', 'l', 'o']);
}
