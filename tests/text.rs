use minikv::text::{parse_u64, push_decimal, same_text, split_words};

#[test]
fn split_words_drops_empty_tokens() {
    assert_eq!(split_words("  a  bc\td\n"), vec!["a".to_string(), "bc".to_string(), "d".to_string()]);
    assert!(split_words("").is_empty());
    assert!(split_words(" \t\r\n").is_empty());
    assert_eq!(split_words("x\u{a0}y"), vec!["x".to_string(), "y".to_string()]);
}

#[test]
fn parse_u64_accepts_decimal_only() {
    assert_eq!(parse_u64("10"), Some(10));
    assert_eq!(parse_u64("+10"), Some(10));
    assert_eq!(parse_u64("007"), Some(7));
    assert_eq!(parse_u64("18446744073709551615"), Some(u64::MAX));
    assert_eq!(parse_u64("18446744073709551616"), None);
    assert_eq!(parse_u64(""), None);
    assert_eq!(parse_u64("+"), None);
    assert_eq!(parse_u64("-1"), None);
    assert_eq!(parse_u64("1a"), None);
    assert_eq!(parse_u64(" 1"), None);
}

#[test]
fn push_decimal_writes_digits() {
    let mut s = "n=".to_string();
    push_decimal(&mut s, 0);
    assert_eq!(s, "n=0");
    let mut s = String::new();
    push_decimal(&mut s, 1_234_567_890);
    assert_eq!(s, "1234567890");
    let mut s = String::new();
    push_decimal(&mut s, u64::MAX);
    assert_eq!(s, "18446744073709551615");
}

#[test]
fn same_text_compares_characters() {
    assert!(same_text("abc", "abc"));
    assert!(!same_text("abc", "abd"));
    assert!(!same_text("abc", "ab"));
    assert!(same_text("", ""));
    assert!(!same_text("\u{e9}", "e"));
}
