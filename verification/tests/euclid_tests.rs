use mandelbrot::gcd;

#[test]
fn test_gcd() {
    assert_eq!(gcd(14, 15), 1);
    assert_eq!(gcd(2 * 3 * 5 * 11 * 17, 3 * 7 * 11 * 13 * 19), 3 * 11);
}

#[test]
fn gcd_of_equal_values_is_the_value() {
    assert_eq!(gcd(42, 42), 42);
}

#[test]
fn gcd_divides_both_arguments() {
    let r = gcd(48, 36);
    assert_eq!(r, 12);
    assert_eq!(48 % r, 0);
    assert_eq!(36 % r, 0);
}

#[test]
fn gcd_with_one_is_one() {
    assert_eq!(gcd(1, 999), 1);
    assert_eq!(gcd(999, 1), 1);
}
