use mylib::foo;

#[test]
fn foo_adds_small_positives() {
    assert_eq!(foo(2, 3), 5);
}

#[test]
fn foo_adds_opposites_to_zero() {
    assert_eq!(foo(-5, 5), 0);
}

#[test]
fn foo_sum_at_the_bounds() {
    assert_eq!(foo(i32::MAX, 0), i32::MAX);
    assert_eq!(foo(i32::MIN, 0), i32::MIN);
    assert_eq!(foo(i32::MAX, i32::MIN), -1);
}

#[test]
fn foo_wraps_above_max() {
    assert_eq!(foo(i32::MAX, 1), i32::MIN);
    assert_eq!(foo(i32::MAX, i32::MAX), -2);
}

#[test]
fn foo_wraps_below_min() {
    assert_eq!(foo(i32::MIN, -1), i32::MAX);
    assert_eq!(foo(i32::MIN, i32::MIN), 0);
}

#[test]
fn foo_agrees_with_plain_sum_where_it_fits() {
    for a in [-1000i32, -7, 0, 1, 42, 65535] {
        for b in [-300i32, -1, 0, 9, 123456] {
            assert_eq!(foo(a, b), a + b);
        }
    }
}
