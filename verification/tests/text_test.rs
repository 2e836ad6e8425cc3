use bmw::text::{parse_unsigned, str_contains, str_equals, to_decimal, trim_braces, trim_brackets};

#[test]
fn trim_brackets_removes_one_pair() {
    assert_eq!(trim_brackets(&"  [abc]  ".to_string()), "abc".to_string());
    assert_eq!(trim_brackets(&"[[x]]".to_string()), "[x]".to_string());
    assert_eq!(trim_brackets(&"abc".to_string()), "abc".to_string());
    assert_eq!(trim_brackets(&"[abc".to_string()), "abc".to_string());
    assert_eq!(trim_brackets(&"".to_string()), "".to_string());
}

#[test]
fn trim_braces_removes_one_pair() {
    assert_eq!(trim_braces(&"\t{ a: 1 }\n".to_string()), " a: 1 ".to_string());
    assert_eq!(trim_braces(&"{}".to_string()), "".to_string());
}

#[test]
fn trim_brackets_keeps_closing_bracket_after_non_ascii() {
    // the closing bracket is cut by byte length, which only reaches it
    // when all characters are one byte long
    assert_eq!(trim_brackets(&"[é]".to_string()), "é]".to_string());
}

#[test]
fn parse_unsigned_decimal_and_hex() {
    let b = b"x1234y";
    assert_eq!(parse_unsigned(b, 1, 5, 10), Some(1234));
    assert_eq!(parse_unsigned(b"1A", 0, 2, 16), Some(26));
    assert_eq!(parse_unsigned(b"ff", 0, 2, 16), Some(255));
    assert_eq!(parse_unsigned(b"+7", 0, 2, 10), Some(7));
    assert_eq!(parse_unsigned(b"+", 0, 1, 10), None);
    assert_eq!(parse_unsigned(b"", 0, 0, 10), None);
    assert_eq!(parse_unsigned(b"12a", 0, 3, 10), None);
    assert_eq!(parse_unsigned(b"99999999999999999999999", 0, 23, 10), None);
    assert_eq!(
        parse_unsigned(b"18446744073709551615", 0, 20, 10),
        Some(usize::MAX)
    );
}

#[test]
fn number_formatting() {
    assert_eq!(to_decimal(0), "0".to_string());
    assert_eq!(to_decimal(8080), "8080".to_string());
    assert_eq!(to_decimal(u64::MAX), u64::MAX.to_string());
}

#[test]
fn string_comparisons() {
    assert!(str_equals("abc", "abc"));
    assert!(!str_equals("abc", "abd"));
    assert!(!str_equals("abc", "ab"));
    assert!(str_contains("gzip, chunked", "chunked"));
    assert!(!str_contains("chunk", "chunked"));
    assert!(str_contains("x", ""));
}

#[test]
fn white_space_around_does_not_change_trimming() {
    let s = "{a b}".to_string();
    assert_eq!(trim_braces(&format!(" \t\n{}\r ", s)), trim_braces(&s));
    assert_eq!(trim_braces(&s), "a b".to_string());
    let t = "[x]".to_string();
    assert_eq!(trim_brackets(&format!("\u{3000}{}  ", t)), trim_brackets(&t));
}
