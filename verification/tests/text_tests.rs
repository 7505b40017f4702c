use godot_rapier::text::{compare_str, push_decimal, str_equal};
use std::cmp::Ordering;

#[test]
fn string_equality() {
    assert!(str_equal("abc", "abc"));
    assert!(!str_equal("abc", "abd"));
    assert!(!str_equal("ab", "abc"));
    assert!(str_equal("", ""));
}

#[test]
fn string_order() {
    assert_eq!(compare_str("abc", "abd"), Ordering::Less);
    assert_eq!(compare_str("b", "abc"), Ordering::Greater);
    assert_eq!(compare_str("ab", "abc"), Ordering::Less);
    assert_eq!(compare_str("same", "same"), Ordering::Equal);
    assert_eq!(compare_str("", "a"), Ordering::Less);
}

#[test]
fn decimal_digits() {
    let mut s = String::from("n=");
    push_decimal(&mut s, 0);
    assert_eq!(s, "n=0");
    let mut s = String::new();
    push_decimal(&mut s, 4294967295);
    assert_eq!(s, "4294967295");
    let mut s = String::new();
    push_decimal(&mut s, 105);
    assert_eq!(s, "105");
}
