use winusb_switcher_lite::text::{i32_to_string, str_contains, str_trim, u32_to_string};

#[test]
fn trim_uses_unicode_whitespace() {
    assert_eq!(str_trim("\u{3000} abc\u{85}\t"), "abc");
    assert_eq!(str_trim("   "), "");
    assert_eq!(str_trim("a b"), "a b");
    assert_eq!(str_trim(""), "");
}

#[test]
fn decimal_rendering() {
    assert_eq!(i32_to_string(0), "0");
    assert_eq!(i32_to_string(-7), "-7");
    assert_eq!(i32_to_string(i32::MAX), "2147483647");
    assert_eq!(i32_to_string(i32::MIN), "-2147483648");
    assert_eq!(u32_to_string(u32::MAX), "4294967295");
    assert_eq!(u32_to_string(10), "10");
}

#[test]
fn contains_substrings() {
    assert!(str_contains("abc", ""));
    assert!(str_contains("Permission denied (os error 13)", "os error 13"));
    assert!(!str_contains("ab", "abc"));
    assert!(!str_contains("", "a"));
}
