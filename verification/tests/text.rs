use ferric_alpha::sorted::{insert_sorted_text, insert_sorted_u32};
use ferric_alpha::text::{chars_of, decimal_string, parse_unsigned, starts_with, str_eq, str_less};

#[test]
fn decimal_string_writes_digits() {
    assert_eq!(decimal_string(0), "0");
    assert_eq!(decimal_string(7), "7");
    assert_eq!(decimal_string(1234567890), "1234567890");
    assert_eq!(decimal_string(u64::MAX), u64::MAX.to_string());
}

#[test]
fn parse_unsigned_reads_a_range_within_a_limit() {
    let chars = chars_of("x+42y");
    assert_eq!(parse_unsigned(&chars, 1, 4, 100), Some(42));
    assert_eq!(parse_unsigned(&chars, 2, 4, 41), None);
    assert_eq!(parse_unsigned(&chars, 0, 4, 100), None);
    assert_eq!(parse_unsigned(&chars, 2, 2, 100), None);
    let digits = chars_of("18446744073709551615");
    assert_eq!(parse_unsigned(&digits, 0, digits.len(), u64::MAX), Some(u64::MAX));
}

#[test]
fn text_comparisons_follow_string_order() {
    assert!(str_eq("abc", "abc"));
    assert!(!str_eq("abc", "abd"));
    assert!(str_less("abc", "abd"));
    assert!(str_less("ab", "abc"));
    assert!(!str_less("abc", "abc"));
    assert!(!str_less("b", "abc"));
    assert_eq!(str_less("Z", "a"), "Z" < "a");
    assert!(starts_with(&chars_of("forward_return_5D"), "forward_return_"));
    assert!(!starts_with(&chars_of("forward"), "forward_return_"));
}

#[test]
fn sorted_inserts_keep_order_without_repeats() {
    let mut numbers = vec![1, 4, 9];
    insert_sorted_u32(&mut numbers, 5);
    insert_sorted_u32(&mut numbers, 4);
    insert_sorted_u32(&mut numbers, 0);
    assert_eq!(numbers, vec![0, 1, 4, 5, 9]);

    let mut words = vec!["b".to_string(), "d".to_string()];
    insert_sorted_text(&mut words, "c".to_string());
    insert_sorted_text(&mut words, "d".to_string());
    insert_sorted_text(&mut words, "a".to_string());
    assert_eq!(words, vec!["a", "b", "c", "d"]);
}
