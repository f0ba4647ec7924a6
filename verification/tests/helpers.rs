//! The small pure helpers: alignment, decimal rendering, string equality.

use a64c::general_functions::{align_memory, i32_to_dec, str_eq, usize_to_dec};

#[test]
fn alignment_is_the_least_fitting_multiple() {
    assert_eq!(align_memory(0, 8), 0);
    assert_eq!(align_memory(5, 8), 8);
    assert_eq!(align_memory(8, 8), 8);
    assert_eq!(align_memory(9, 8), 16);
    assert_eq!(align_memory(15, 16), 16);
    assert_eq!(align_memory(100, 16), 112);
}

#[test]
fn decimal_rendering_is_exact() {
    assert_eq!(usize_to_dec(0), "0");
    assert_eq!(usize_to_dec(7), "7");
    assert_eq!(usize_to_dec(16), "16");
    assert_eq!(usize_to_dec(1048576), "1048576");
    assert_eq!(i32_to_dec(0), "0");
    assert_eq!(i32_to_dec(42), "42");
    assert_eq!(i32_to_dec(-1), "-1");
    assert_eq!(i32_to_dec(-2147483648), "-2147483648");
    assert_eq!(i32_to_dec(2147483647), "2147483647");
}

#[test]
fn string_equality_is_by_text() {
    assert!(str_eq("", ""));
    assert!(str_eq("abc", "abc"));
    assert!(!str_eq("abc", "abd"));
    assert!(!str_eq("abc", "abcd"));
    assert!(!str_eq("abcd", "abc"));
}
