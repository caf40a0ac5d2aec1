use naenae::text::{parse_i32, parse_u32, push_decimal, push_signed_decimal, replace_chars, trim_chars};

fn chars(s: &str) -> Vec<char> {
    s.chars().collect()
}

#[test]
fn parse_u32_accepts_plus_and_digits() {
    assert_eq!(parse_u32(&chars("1000")), Some(1000));
    assert_eq!(parse_u32(&chars("+7")), Some(7));
    assert_eq!(parse_u32(&chars("4294967295")), Some(u32::MAX));
}

#[test]
fn parse_u32_rejects_what_str_parse_rejects() {
    for s in ["", "+", "-1", "4294967296", "12a", " 1", "-0"] {
        assert_eq!(parse_u32(&chars(s)), s.parse::<u32>().ok(), "input {s:?}");
    }
}

#[test]
fn parse_i32_matches_str_parse() {
    for s in ["-2147483648", "2147483647", "2147483648", "-2147483649", "-", "+-1", "42", "+0"] {
        assert_eq!(parse_i32(&chars(s)), s.parse::<i32>().ok(), "input {s:?}");
    }
}

#[test]
fn decimal_round_trips() {
    for n in [0u64, 9, 10, 99, 1000, u32::MAX as u64] {
        let mut out = Vec::new();
        push_decimal(&mut out, n);
        let text: String = out.iter().collect();
        assert_eq!(text, n.to_string());
        if n <= u32::MAX as u64 {
            assert_eq!(parse_u32(&out), Some(n as u32));
        }
    }
}

#[test]
fn signed_decimal_matches_display() {
    for n in [i64::MIN, -1, 0, 1, i64::MAX] {
        let mut out = Vec::new();
        push_signed_decimal(&mut out, n);
        let text: String = out.iter().collect();
        assert_eq!(text, n.to_string());
    }
}

#[test]
fn replace_matches_str_replace() {
    for (s, p, r) in [("aaa", "aa", "b"), ("{job}-{job}", "{job}", "x"), ("abc", "z", "y")] {
        let out: String = replace_chars(&chars(s), &chars(p), &chars(r)).iter().collect();
        assert_eq!(out, s.replace(p, r));
    }
}

#[test]
fn trim_matches_str_trim() {
    for s in ["  a b  ", "\u{3000}x\u{85}", "", "   ", "\tName\r"] {
        let out: String = trim_chars(&chars(s)).iter().collect();
        assert_eq!(out, s.trim());
    }
}
