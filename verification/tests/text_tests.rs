use codex_goal_resumer::text::{
    chars_of, contains_chars, equal_ignoring_ascii_case, join_from, parse_i32_chars, parse_u32,
    parse_u8, push_decimal, split_lines, string_from_chars,
};

fn cs(s: &str) -> Vec<char> {
    s.chars().collect()
}

#[test]
fn lines_match_str_lines() {
    for text in ["", "\n", "a", "a\n", "a\nb", "a\r\nb\r\n", "a\n\nb\n\n", "x\r", "\r\n", "é\nü"] {
        let ours: Vec<String> = split_lines(&cs(text)).iter().map(|l| l.iter().collect()).collect();
        let std: Vec<String> = text.lines().map(|l| l.to_string()).collect();
        assert_eq!(ours, std, "text {text:?}");
    }
}

#[test]
fn joining_lines() {
    let parts = vec![cs("a"), cs("b"), cs("c")];
    assert_eq!(join_from(&parts, 0, &['\n']), cs("a\nb\nc"));
    assert_eq!(join_from(&parts, 2, &['\n']), cs("c"));
    assert_eq!(join_from(&parts, 3, &['\n']), cs(""));
}

#[test]
fn numbers_parse_like_std() {
    for s in ["0", "42", "+7", "255", "256", "", "+", "-1", "12a", "007", "\u{0663}"] {
        assert_eq!(parse_u8(&cs(s)), s.parse::<u8>().ok(), "u8 {s:?}");
    }
    for s in ["4294967295", "4294967296", "99999999999999999999", "+0"] {
        assert_eq!(parse_u32(&cs(s)), s.parse::<u32>().ok(), "u32 {s:?}");
    }
    for s in ["2026", "-2147483648", "2147483647", "2147483648", "-2147483649", "-", "-0", "+5"] {
        assert_eq!(parse_i32_chars(&cs(s)), s.parse::<i32>().ok(), "i32 {s:?}");
    }
}

#[test]
fn decimal_formatting() {
    for n in [0u64, 9, 10, 1800, u64::MAX] {
        let mut out = Vec::new();
        push_decimal(&mut out, n);
        assert_eq!(out.iter().collect::<String>(), n.to_string());
    }
}

#[test]
fn substrings_and_case() {
    assert!(contains_chars(&cs("weekly limit"), &cs("weekly")));
    assert!(contains_chars(&cs("abc"), &cs("")));
    assert!(!contains_chars(&cs("ab"), &cs("abc")));
    assert!(equal_ignoring_ascii_case(&cs("SeP"), &cs("sep")));
    assert!(!equal_ignoring_ascii_case(&cs("sép"), &cs("sep")));
    assert_eq!(chars_of("héllo"), cs("héllo"));
    assert_eq!(string_from_chars(&cs("héllo")), "héllo");
}
