use kabaddi_raid::decimal::{is_digit, parse_thousandths};
use kabaddi_raid::fixed::{div_toward_zero, isqrt, saturate_i32, saturate_i64, UNIT};

#[test]
fn digits_are_digits() {
    for c in b'0'..=b'9' {
        assert!(is_digit(c));
    }
    assert!(!is_digit(b'/'));
    assert!(!is_digit(b':'));
    assert!(!is_digit(b'a'));
    assert!(!is_digit(b'.'));
    assert!(!is_digit(0));
    assert!(!is_digit(255));
}

#[test]
fn whole_numbers() {
    assert_eq!(parse_thousandths(b"0"), Some(0));
    assert_eq!(parse_thousandths(b"1"), Some(1000));
    assert_eq!(parse_thousandths(b"7"), Some(7000));
    assert_eq!(parse_thousandths(b"42"), Some(42000));
    assert_eq!(parse_thousandths(b"007"), Some(7000));
    assert_eq!(parse_thousandths(b"2147483"), Some(2147483000));
}

#[test]
fn fractions() {
    assert_eq!(parse_thousandths(b"0.1"), Some(100));
    assert_eq!(parse_thousandths(b"0.9"), Some(900));
    assert_eq!(parse_thousandths(b"1.0"), Some(1000));
    assert_eq!(parse_thousandths(b"0.995"), Some(995));
    assert_eq!(parse_thousandths(b"0.05"), Some(50));
    assert_eq!(parse_thousandths(b"0.005"), Some(5));
    assert_eq!(parse_thousandths(b"12.34"), Some(12340));
    assert_eq!(parse_thousandths(b"1.750"), Some(1750));
}

#[test]
fn a_point_at_either_end() {
    assert_eq!(parse_thousandths(b".5"), Some(500));
    assert_eq!(parse_thousandths(b"5."), Some(5000));
    assert_eq!(parse_thousandths(b"-.25"), Some(-250));
    assert_eq!(parse_thousandths(b"+3."), Some(3000));
}

#[test]
fn signs() {
    assert_eq!(parse_thousandths(b"+0.5"), Some(500));
    assert_eq!(parse_thousandths(b"-0.5"), Some(-500));
    assert_eq!(parse_thousandths(b"-2"), Some(-2000));
    assert_eq!(parse_thousandths(b"-0"), Some(0));
    assert_eq!(parse_thousandths(b"+0.000"), Some(0));
}

#[test]
fn digits_after_the_third_place_are_dropped() {
    assert_eq!(parse_thousandths(b"0.9999"), Some(999));
    assert_eq!(parse_thousandths(b"0.12345678901234567890"), Some(123));
    assert_eq!(parse_thousandths(b"-0.0009"), Some(0));
    assert_eq!(parse_thousandths(b"-1.2349"), Some(-1234));
}

#[test]
fn what_is_no_number() {
    assert_eq!(parse_thousandths(b""), None);
    assert_eq!(parse_thousandths(b"."), None);
    assert_eq!(parse_thousandths(b"+"), None);
    assert_eq!(parse_thousandths(b"-"), None);
    assert_eq!(parse_thousandths(b"+."), None);
    assert_eq!(parse_thousandths(b"-."), None);
    assert_eq!(parse_thousandths(b"abc"), None);
    assert_eq!(parse_thousandths(b"1e3"), None);
    assert_eq!(parse_thousandths(b"1.5e-3"), None);
    assert_eq!(parse_thousandths(b" 1"), None);
    assert_eq!(parse_thousandths(b"1 "), None);
    assert_eq!(parse_thousandths(b"1.2.3"), None);
    assert_eq!(parse_thousandths(b"1..2"), None);
    assert_eq!(parse_thousandths(b"--1"), None);
    assert_eq!(parse_thousandths(b"+-1"), None);
    assert_eq!(parse_thousandths(b"1-"), None);
    assert_eq!(parse_thousandths(b"1,5"), None);
    assert_eq!(parse_thousandths(b"0x10"), None);
    assert_eq!(parse_thousandths(b"inf"), None);
    assert_eq!(parse_thousandths(b"NaN"), None);
    assert_eq!(parse_thousandths(b"1.5f"), None);
    assert_eq!(parse_thousandths(b"1\0"), None);
    assert_eq!(parse_thousandths("１".as_bytes()), None);
}

#[test]
fn the_ends_of_the_range() {
    assert_eq!(parse_thousandths(b"2147483.647"), Some(i32::MAX));
    assert_eq!(parse_thousandths(b"2147483.6479"), Some(i32::MAX));
    assert_eq!(parse_thousandths(b"2147483.648"), None);
    assert_eq!(parse_thousandths(b"2147483.999"), None);
    assert_eq!(parse_thousandths(b"2147484"), None);
    assert_eq!(parse_thousandths(b"-2147483.647"), Some(-i32::MAX));
    assert_eq!(parse_thousandths(b"-2147483.648"), Some(i32::MIN));
    assert_eq!(parse_thousandths(b"-2147483.649"), None);
    assert_eq!(parse_thousandths(b"-2147484"), None);
    assert_eq!(parse_thousandths(b"99999999999999999999999999999999999999"), None);
    assert_eq!(parse_thousandths(b"-99999999999999999999999999999999999999.5"), None);
    assert_eq!(parse_thousandths(b"00000000000000000000000000000000000001.5"), Some(1500));
    // too large, and no number either
    assert_eq!(parse_thousandths(b"9999999999x"), None);
}

#[test]
fn one_unit_is_a_thousand() {
    assert_eq!(UNIT, 1000);
}

#[test]
fn division_rounds_toward_zero() {
    assert_eq!(div_toward_zero(7, 2), 3);
    assert_eq!(div_toward_zero(-7, 2), -3);
    assert_eq!(div_toward_zero(999, 1000), 0);
    assert_eq!(div_toward_zero(-999, 1000), 0);
    assert_eq!(div_toward_zero(-1000, 1000), -1);
    assert_eq!(div_toward_zero(0, 5), 0);
    assert_eq!(div_toward_zero(i128::MIN, 1), i128::MIN);
    assert_eq!(div_toward_zero(i128::MAX, i128::MAX), 1);
}

#[test]
fn saturation_keeps_what_fits() {
    assert_eq!(saturate_i32(0), 0);
    assert_eq!(saturate_i32(-5), -5);
    assert_eq!(saturate_i32(i32::MAX as i64), i32::MAX);
    assert_eq!(saturate_i32(i32::MAX as i64 + 1), i32::MAX);
    assert_eq!(saturate_i32(i32::MIN as i64), i32::MIN);
    assert_eq!(saturate_i32(i32::MIN as i64 - 1), i32::MIN);
    assert_eq!(saturate_i32(i64::MAX), i32::MAX);
    assert_eq!(saturate_i32(i64::MIN), i32::MIN);
    assert_eq!(saturate_i64(0), 0);
    assert_eq!(saturate_i64(i64::MAX as i128), i64::MAX);
    assert_eq!(saturate_i64(i64::MAX as i128 + 1), i64::MAX);
    assert_eq!(saturate_i64(i64::MIN as i128), i64::MIN);
    assert_eq!(saturate_i64(i64::MIN as i128 - 1), i64::MIN);
    assert_eq!(saturate_i64(i128::MAX), i64::MAX);
    assert_eq!(saturate_i64(i128::MIN), i64::MIN);
}

#[test]
fn square_roots_are_rounded_down() {
    assert_eq!(isqrt(0), 0);
    assert_eq!(isqrt(1), 1);
    assert_eq!(isqrt(2), 1);
    assert_eq!(isqrt(3), 1);
    assert_eq!(isqrt(4), 2);
    assert_eq!(isqrt(8), 2);
    assert_eq!(isqrt(9), 3);
    assert_eq!(isqrt(999_999), 999);
    assert_eq!(isqrt(1_000_000), 1000);
    assert_eq!(isqrt(1_000_000_000_000), 1_000_000);
    assert_eq!(isqrt(u64::MAX as u128), u32::MAX as u64);
    assert_eq!(isqrt(u64::MAX as u128 + 1), 1 << 32);
    assert_eq!(isqrt(u128::MAX), u64::MAX);
    for n in 0..5000u128 {
        let r = isqrt(n) as u128;
        assert!(r * r <= n && n < (r + 1) * (r + 1));
    }
}
