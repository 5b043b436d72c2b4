use rush::numbers::{big_add, big_cmp, check_int_str, check_uint_str, i32_to_dec, neg_int_str,
    parse_i32};

#[test]
fn big_add_small_values() {
    assert_eq!(big_add("2", "3"), "5");
    assert_eq!(big_add("0", "0"), "0");
    assert_eq!(big_add("-2", "3"), "1");
    assert_eq!(big_add("2", "-3"), "-1");
}

#[test]
fn big_add_beyond_machine_integers() {
    // a carry across the whole number: the result differs from both inputs
    assert_eq!(big_add("999999999999999999999999", "1"), "1000000000000000000000000");
    assert_eq!(
        big_add("18446744073709551615", "18446744073709551615"),
        "36893488147419103230"
    );
}

#[test]
fn big_cmp_orders_as_integers() {
    assert_eq!(big_cmp("2", "10"), -1);
    assert_eq!(big_cmp("10", "2"), 1);
    assert_eq!(big_cmp("007", "7"), 0);
    assert_eq!(big_cmp("-5", "3"), -1);
    assert_eq!(big_cmp("18446744073709551616", "18446744073709551615"), 1);
}

#[test]
fn integer_string_checks() {
    assert!(check_uint_str("0"));
    assert!(check_uint_str("12345"));
    assert!(!check_uint_str(""));
    assert!(!check_uint_str("-3"));
    assert!(!check_uint_str("12a"));
    assert!(check_int_str("-3"));
    assert!(check_int_str("42"));
    assert!(!check_int_str("-"));
    assert!(!check_int_str("3.5"));
}

#[test]
fn neg_int_str_flips_sign() {
    assert_eq!(neg_int_str("5"), "-5");
    assert_eq!(neg_int_str("-5"), "5");
    assert_eq!(neg_int_str("0"), "-0");
}

#[test]
fn parse_i32_exact_bounds() {
    assert_eq!(parse_i32("0"), Some(0));
    assert_eq!(parse_i32("2147483647"), Some(2147483647));
    assert_eq!(parse_i32("-2147483648"), Some(-2147483648));
    assert_eq!(parse_i32("2147483648"), None);
    assert_eq!(parse_i32("-2147483649"), None);
    assert_eq!(parse_i32("0002147483647"), Some(2147483647));
    assert_eq!(parse_i32("99999999999999999999"), None);
    assert_eq!(parse_i32("twelve"), None);
    assert_eq!(parse_i32(""), None);
}

#[test]
fn i32_to_dec_renders_decimal() {
    assert_eq!(i32_to_dec(0), "0");
    assert_eq!(i32_to_dec(7), "7");
    assert_eq!(i32_to_dec(1234567), "1234567");
    assert_eq!(i32_to_dec(-42), "-42");
    assert_eq!(i32_to_dec(i32::MIN), "-2147483648");
    assert_eq!(i32_to_dec(i32::MAX), "2147483647");
}
