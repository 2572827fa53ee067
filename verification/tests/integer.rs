use django_rusty_templates::integer::Integer;
use num_bigint::{BigInt, Sign};

fn parse(s: &str) -> Integer {
    let (sign, digits) = BigInt::parse_bytes(s.as_bytes(), 10).unwrap().to_u32_digits();
    Integer::from_parts(sign == Sign::Minus, digits)
}

#[test]
fn from_parts_is_canonical() {
    let a = Integer::from_parts(false, vec![7, 0, 0]);
    assert_eq!(a.magnitude(), &vec![7]);
    assert_eq!(a, Integer::from_i64(7));
    let zero = Integer::from_parts(true, vec![0, 0]);
    assert!(!zero.is_negative());
    assert!(zero.magnitude().is_empty());
    assert_eq!(zero, Integer::from_i64(0));
    assert!(zero.is_zero());
}

#[test]
fn from_i64_and_usize_digits() {
    let n = Integer::from_i64(-4294967296);
    assert!(n.is_negative());
    assert_eq!(n.magnitude(), &vec![0, 1]);
    assert_eq!(Integer::from_usize(4294967297), Integer::from_i64(4294967297));
    assert_eq!(Integer::from_i64(i64::MIN).to_decimal(), "-9223372036854775808");
}

#[test]
fn plus_carries_and_changes_sign() {
    assert_eq!(Integer::from_i64(4294967295).plus(&Integer::from_i64(1)).magnitude(), &vec![0, 1]);
    assert_eq!(Integer::from_i64(2).plus(&Integer::from_i64(-5)), Integer::from_i64(-3));
    let big = parse("123456789012345678901234567890");
    assert_eq!(big.plus(&big).to_decimal(), "246913578024691357802469135780");
    assert!(big.plus(&parse("-123456789012345678901234567890")).is_zero());
}

#[test]
fn rem_takes_the_sign_of_the_dividend() {
    assert_eq!(Integer::from_i64(7).rem(&Integer::from_i64(3)), Integer::from_i64(1));
    assert_eq!(Integer::from_i64(-7).rem(&Integer::from_i64(3)), Integer::from_i64(-1));
    assert_eq!(Integer::from_i64(7).rem(&Integer::from_i64(-3)), Integer::from_i64(1));
    assert_eq!(Integer::from_i64(-7).rem(&Integer::from_i64(-3)), Integer::from_i64(-1));
    assert!(parse("123456789012345678901234567890").rem(&Integer::from_i64(10)).is_zero());
}

#[test]
fn decimal_and_isize() {
    assert_eq!(Integer::from_i64(0).to_decimal(), "0");
    assert_eq!(Integer::from_i64(-120).to_decimal(), "-120");
    assert_eq!(Integer::from_i64(-120).to_isize(), Some(-120));
    assert_eq!(parse("123456789012345678901234567890").to_isize(), None);
    assert_eq!(parse("-123456789012345678901234567890").to_isize(), None);
}

#[test]
fn clone_keeps_the_value() {
    let big = parse("-98765432109876543210");
    assert_eq!(big.clone(), big);
    assert_eq!(big.clone().to_decimal(), "-98765432109876543210");
}
