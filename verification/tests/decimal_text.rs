use coyote::decimal::{i32_to_decimal, parse_i32};

#[test]
fn decimal_matches_to_string() {
    for n in [0, 1, -1, 9, 10, -10, 42, 12345, -98765, i32::MAX, i32::MIN, i32::MIN + 1] {
        assert_eq!(i32_to_decimal(n), n.to_string());
    }
}

#[test]
fn decimal_exact_values() {
    assert_eq!(i32_to_decimal(0), "0");
    assert_eq!(i32_to_decimal(-2147483648), "-2147483648");
    assert_eq!(i32_to_decimal(2147483647), "2147483647");
    assert_eq!(i32_to_decimal(305), "305");
}

#[test]
fn parse_matches_std() {
    let cases = [
        "", "+", "-", "0", "12", "+12", "-12", "007", "-007", "2147483647", "2147483648",
        "-2147483648", "-2147483649", " 1", "1 ", "1a", "a1", "--1", "+-1",
        "99999999999999999999", "-99999999999999999999", "\u{663}", "00000000000000000042",
    ];
    for s in cases {
        assert_eq!(parse_i32(s), s.parse::<i32>().ok(), "input {:?}", s);
    }
}

#[test]
fn parse_exact_values() {
    assert_eq!(parse_i32("42"), Some(42));
    assert_eq!(parse_i32("-42"), Some(-42));
    assert_eq!(parse_i32("+7"), Some(7));
    assert_eq!(parse_i32("2147483648"), None);
    assert_eq!(parse_i32("-2147483648"), Some(i32::MIN));
    assert_eq!(parse_i32("4x"), None);
    assert_eq!(parse_i32(""), None);
}

#[test]
fn decimal_text_reads_back() {
    let mut n: i64 = i32::MIN as i64;
    while n <= i32::MAX as i64 {
        let v = n as i32;
        assert_eq!(parse_i32(&i32_to_decimal(v)), Some(v));
        n += 104_729;
    }
    for v in [i32::MIN, -1, 0, 1, i32::MAX] {
        assert_eq!(parse_i32(&i32_to_decimal(v)), Some(v));
    }
}
