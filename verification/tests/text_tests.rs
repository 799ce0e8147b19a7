use cc2_monitor::keyed::{find_key, set_key};
use cc2_monitor::text::{
    ascii_lowercase, blank, chars_of, hex8, i64_text, next_token, parse_i64, text_lt, trim_str,
    u64_text,
};

#[test]
fn trimming_uses_unicode_whitespace() {
    assert_eq!(trim_str("  a b \t\n"), "a b");
    assert_eq!(trim_str("\u{a0}x\u{3000}"), "x");
    assert_eq!(trim_str("   "), "");
    assert!(blank(" \t\r\n"));
    assert!(!blank(" . "));
}

#[test]
fn numbers_as_text() {
    assert_eq!(u64_text(0), "0");
    assert_eq!(u64_text(18446744073709551615), "18446744073709551615");
    assert_eq!(i64_text(-42), "-42");
    assert_eq!(i64_text(i64::MIN), "-9223372036854775808");
    assert_eq!(hex8(0xabc), "00000abc");
    assert_eq!(hex8(u32::MAX), "ffffffff");
}

#[test]
fn parsing_integers() {
    assert_eq!(parse_i64("123"), Some(123));
    assert_eq!(parse_i64("+7"), Some(7));
    assert_eq!(parse_i64("-9223372036854775808"), Some(i64::MIN));
    assert_eq!(parse_i64("9223372036854775808"), None);
    assert_eq!(parse_i64(""), None);
    assert_eq!(parse_i64("-"), None);
    assert_eq!(parse_i64(" 1"), None);
    assert_eq!(parse_i64("1a"), None);
}

#[test]
fn ordering_and_case() {
    assert!(text_lt("abc", "abd"));
    assert!(text_lt("ab", "abc"));
    assert!(!text_lt("abc", "abc"));
    assert!(!text_lt("b", "abc"));
    assert_eq!(ascii_lowercase("AbÇ-Z"), "abÇ-z");
}

#[test]
fn words() {
    let v = chars_of("  inet 10.0.0.1/8 x");
    let (a, b) = next_token(&v, 0).unwrap();
    assert_eq!((a, b), (2, 6));
    let (c, d) = next_token(&v, b).unwrap();
    assert_eq!(v[c..d].iter().collect::<String>(), "10.0.0.1/8");
    assert_eq!(next_token(&chars_of("   "), 0), None);
}

#[test]
fn keyed_tables() {
    let mut t: Vec<(String, u64)> = Vec::new();
    set_key(&mut t, "a".to_string(), 1);
    set_key(&mut t, "b".to_string(), 2);
    set_key(&mut t, "a".to_string(), 3);
    assert_eq!(t.len(), 2);
    assert_eq!(find_key(&t, "a"), Some(0));
    assert_eq!(t[0].1, 3);
    assert_eq!(find_key(&t, "c"), None);
}
