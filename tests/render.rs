use mylib::render::{decimal_text, format_slice};

#[test]
fn empty_list_is_brackets() {
    assert_eq!(format_slice(&[]), "[]");
}

#[test]
fn single_element_list() {
    assert_eq!(format_slice(&[7]), "[7]");
}

#[test]
fn list_keeps_elements_in_order() {
    assert_eq!(format_slice(&[1, 20, 300]), "[1, 20, 300]");
    assert_eq!(format_slice(&[300, 20, 1]), "[300, 20, 1]");
}

#[test]
fn list_matches_debug_format() {
    let v: Vec<u64> = vec![0, 9, 10, 99, 100, 4096, u64::MAX, 5];
    assert_eq!(format_slice(&v), format!("{:?}", v));
}

#[test]
fn list_with_equal_elements() {
    assert_eq!(format_slice(&[3, 3, 3]), "[3, 3, 3]");
}

#[test]
fn decimal_of_zero() {
    assert_eq!(decimal_text(0), "0");
}

#[test]
fn decimal_of_multi_digit_numbers() {
    assert_eq!(decimal_text(10), "10");
    assert_eq!(decimal_text(1234567890), "1234567890");
}

#[test]
fn decimal_of_largest_u64() {
    assert_eq!(decimal_text(u64::MAX), "18446744073709551615");
}
