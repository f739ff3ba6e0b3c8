use bdd::text::{
    contains_text, is_whitespace, join, lower, parse_u8, parse_uint, repeat, split,
    split_whitespace, str_eq, strip_prefix, trim, u8_to_string,
};

#[test]
fn trim_both_ends() {
    assert_eq!(trim("  a b \t\n"), "a b");
    assert_eq!(trim(""), "");
    assert_eq!(trim("   "), "");
    assert_eq!(trim("x"), "x");
}

#[test]
fn split_keeps_empty_pieces() {
    assert_eq!(split("a,,b", ','), vec!["a", "", "b"]);
    assert_eq!(split("", ','), vec![""]);
    assert_eq!(split("a,", ','), vec!["a", ""]);
    assert_eq!(split("192.168.0.7", '.'), vec!["192", "168", "0", "7"]);
}

#[test]
fn split_whitespace_gives_words() {
    assert_eq!(split_whitespace("  a  bc\td\n"), vec!["a", "bc", "d"]);
    assert!(split_whitespace(" \t ").is_empty());
}

#[test]
fn join_with_separator() {
    let parts = vec!["N1".to_string(), "N2".to_string()];
    assert_eq!(join(&parts, " e "), "N1 e N2");
    assert_eq!(join(&Vec::new(), ","), "");
    assert_eq!(join(&vec!["x".to_string()], ","), "x");
}

#[test]
fn repeat_text() {
    assert_eq!(repeat("ab", 3), "ababab");
    assert_eq!(repeat("-", 0), "");
}

#[test]
fn numbers_to_text_and_back() {
    assert_eq!(u8_to_string(0), "0");
    assert_eq!(u8_to_string(7), "7");
    assert_eq!(u8_to_string(42), "42");
    assert_eq!(u8_to_string(255), "255");
    assert_eq!(parse_u8("255"), Some(255));
    assert_eq!(parse_u8("08"), Some(8));
    assert_eq!(parse_u8("256"), None);
    assert_eq!(parse_u8(""), None);
    assert_eq!(parse_u8("1a"), None);
    assert_eq!(parse_uint("4294967295", 4294967295), Some(4294967295));
    assert_eq!(parse_uint("4294967296", 4294967295), None);
}

#[test]
fn substrings_and_prefixes() {
    assert!(contains_text("abc", "bc"));
    assert!(contains_text("abc", ""));
    assert!(!contains_text("a", "ab"));
    assert!(contains_text(" 10.0.0.2 192.168.1.2 ", " 192.168.1.2 "));
    assert_eq!(strip_prefix("H:mgm", "H:"), Some("mgm"));
    assert_eq!(strip_prefix("I:", "H:"), None);
    assert_eq!(strip_prefix("H", "H:"), None);
}

#[test]
fn lowercase_and_equality() {
    assert_eq!(lower("MgM"), "mgm");
    assert_eq!(lower("ÁB"), "áb");
    assert!(str_eq("a", "a"));
    assert!(!str_eq("a", "A"));
    assert!(is_whitespace(' '));
    assert!(is_whitespace('\t'));
    assert!(!is_whitespace('x'));
}
