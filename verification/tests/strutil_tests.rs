use httpautomate::errors::FileNotFoundError;
use httpautomate::strutil::split_whitespace_vec;
use httpautomate::strutil::str_eq;
use httpautomate::strutil::trim_str;
use httpautomate::strutil::u32_to_string;
use httpautomate::strutil::u64_to_string;

#[test]
fn str_eq_compares_contents() {
    assert!(str_eq("abc", "abc"));
    assert!(!str_eq("abc", "abd"));
    assert!(!str_eq("abc", "ab"));
    assert!(str_eq("", ""));
}

#[test]
fn trim_removes_surrounding_whitespace() {
    assert_eq!(trim_str("  a b  "), "a b");
    assert_eq!(trim_str("\t\r\nx\n"), "x");
    assert_eq!(trim_str("   "), "");
    assert_eq!(trim_str(""), "");
    assert_eq!(trim_str("inner"), "inner");
}

#[test]
fn split_whitespace_yields_tokens() {
    assert_eq!(split_whitespace_vec("GET https://x"), vec!["GET", "https://x"]);
    assert_eq!(split_whitespace_vec("  a  \t b "), vec!["a", "b"]);
    assert!(split_whitespace_vec("   ").is_empty());
    assert!(split_whitespace_vec("").is_empty());
    assert_eq!(split_whitespace_vec("one"), vec!["one"]);
}

#[test]
fn decimal_rendering_is_exact() {
    assert_eq!(u32_to_string(0), "0");
    assert_eq!(u32_to_string(7), "7");
    assert_eq!(u32_to_string(1234567890), "1234567890");
    assert_eq!(u32_to_string(u32::MAX), "4294967295");
    assert_eq!(u64_to_string(18446744073709551615), "18446744073709551615");
}

#[test]
fn file_not_found_message_text() {
    let e = FileNotFoundError("x.http".to_string());
    assert_eq!(e.message(), "file \"x.http\" not found");
}
