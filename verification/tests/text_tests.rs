use driver_updater::text::{
    chars_of, decimal_string, str_contains, str_eq, str_eq_ignore_ascii_case, str_less,
    str_starts_with, trim,
};

#[test]
fn trim_removes_unicode_white_space_at_both_ends() {
    assert_eq!(trim("  \t hello world \n"), "hello world");
    assert_eq!(trim("\u{3000}\u{a0}x\u{2028}"), "x");
    assert_eq!(trim("   "), "");
    assert_eq!(trim(""), "");
    assert_eq!(trim("a b"), "a b");
}

#[test]
fn trim_agrees_with_std() {
    for s in ["", " ", " a ", "\u{85}ab\u{200a}", "x\u{200b}", "\r\nnull\r\n", "ü ü"] {
        assert_eq!(trim(s), s.trim());
    }
}

#[test]
fn contains_and_starts_with() {
    assert!(str_contains("NVIDIA GeForce RTX", "GeForce"));
    assert!(!str_contains("NVIDIA", "AMD"));
    assert!(str_contains("abc", ""));
    assert!(!str_contains("ab", "abc"));
    assert!(str_starts_with("SWD\\PRINT", "SWD\\"));
    assert!(!str_starts_with("USB\\SWD\\", "SWD\\"));
    assert!(str_starts_with("x", ""));
}

#[test]
fn equality_and_ascii_case() {
    assert!(str_eq("Net", "Net"));
    assert!(!str_eq("Net", "NET"));
    assert!(str_eq_ignore_ascii_case("TRUE", "true"));
    assert!(str_eq_ignore_ascii_case("True", "true"));
    assert!(!str_eq_ignore_ascii_case("truee", "true"));
    assert!(!str_eq_ignore_ascii_case("Ü", "ü"));
}

#[test]
fn order_is_the_order_of_strings() {
    let words = ["", "a", "B", "b", "ab", "abc", "é", "z", "Z", "Net", "NET", "Überall"];
    for x in words {
        for y in words {
            assert_eq!(str_less(x, y), x < y, "{x:?} < {y:?}");
        }
    }
}

#[test]
fn decimal_rendering() {
    assert_eq!(decimal_string(0), "0");
    assert_eq!(decimal_string(7), "7");
    assert_eq!(decimal_string(10), "10");
    assert_eq!(decimal_string(1234567890), "1234567890");
    assert_eq!(decimal_string(u64::MAX), u64::MAX.to_string());
}

#[test]
fn characters_in_order() {
    assert_eq!(chars_of("aé€"), vec!['a', 'é', '€']);
}
