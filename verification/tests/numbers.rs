use rsbtc::decimal::{from_decimal, scale, to_decimal};
use rsbtc::text::{decimal_text, read_number, trim, white_space};
use rsbtc::types::blockchain::retarget;
use rsbtc::u256::U256;

fn big(n: u128) -> U256 {
    U256 { hi: 0, lo: n }
}

const LARGEST: U256 = U256 { hi: u128::MAX, lo: u128::MAX };

#[test]
fn big_endian_bytes_are_read_back() {
    let value = U256 { hi: 0x0102_0304, lo: 0x0506_0708_090a_0b0c };
    let bytes = value.to_big_endian();
    assert_eq!(bytes[12..16], [1, 2, 3, 4]);
    assert_eq!(bytes[24..32], [5, 6, 7, 8, 9, 10, 11, 12]);
    assert_eq!(U256::from_big_endian(&bytes), value);
    assert_eq!(U256::from_big_endian(&[1, 0]), big(256));
    assert_eq!(U256::from_big_endian(&[]), big(0));
    assert_eq!(U256::from_big_endian(&[255; 32]), LARGEST);
}

#[test]
fn integers_are_ordered() {
    assert!(U256 { hi: 0, lo: u128::MAX }.less_than(&U256 { hi: 1, lo: 0 }));
    assert!(!big(5).less_than(&big(5)));
    assert!(big(5).at_most(&big(5)));
    assert_eq!(big(5).min(big(4)), big(4));
    assert_eq!(big(4).min(big(5)), big(4));
}

#[test]
fn integers_are_divided() {
    assert_eq!(U256 { hi: 1, lo: 3 }.quarter(), big(1 << 126));
    assert_eq!(U256 { hi: 1, lo: 3 }.div_sixteen(), (big(1 << 124), 3));
    assert_eq!(big(12345).div_ten(), (big(1234), 5));
    let (quotient, digit) = LARGEST.div_ten();
    assert_eq!(digit, 5);
    assert_eq!(quotient.times_ten_plus(5), Some(LARGEST));
    assert_eq!(quotient.times_ten_plus(6), None);
    assert_eq!(LARGEST.times_ten_plus(0), None);
}

#[test]
fn quadruple_saturates() {
    assert_eq!(big(1 << 126).saturating_quadruple(), U256 { hi: 1, lo: 0 });
    assert_eq!(U256 { hi: 1 << 126, lo: 0 }.saturating_quadruple(), LARGEST);
    assert_eq!(U256 { hi: (1 << 126) - 1, lo: 1 }.saturating_quadruple(), U256 { hi: u128::MAX - 3, lo: 4 });
}

#[test]
fn decimal_numerals() {
    assert_eq!(to_decimal(&big(0)), b"0".to_vec());
    assert_eq!(to_decimal(&U256 { hi: 1, lo: 0 }), b"340282366920938463463374607431768211456".to_vec());
    assert_eq!(
        to_decimal(&LARGEST),
        b"115792089237316195423570985008687907853269984665640564039457584007913129639935".to_vec()
    );
    assert_eq!(from_decimal(b"340282366920938463463374607431768211456"), Some(U256 { hi: 1, lo: 0 }));
    assert_eq!(
        from_decimal(b"115792089237316195423570985008687907853269984665640564039457584007913129639936"),
        None
    );
    assert_eq!(decimal_text(0), "0");
    assert_eq!(decimal_text(u128::MAX), u128::MAX.to_string());
    assert_eq!(decimal_text(4_899_999_000), "4899999000");
}

#[test]
fn numbers_are_scaled_and_rounded_down() {
    assert_eq!(scale(&big(1000), 1, 500), Some(big(2)));
    assert_eq!(scale(&big(1001), 1, 500), Some(big(2)));
    assert_eq!(scale(&big(499), 1, 500), Some(big(0)));
    assert_eq!(scale(&big(7), 499, 500), Some(big(6)));
    assert_eq!(scale(&big(123_456_789), 0, 500), Some(big(0)));
    assert_eq!(scale(&big(0), 17, 500), Some(big(0)));
    assert_eq!(scale(&rsbtc::min_target(), 500, 500), Some(rsbtc::min_target()));
    assert_eq!(scale(&LARGEST, 2, 1), None);
    assert_eq!(scale(&big(3), 7, 1000), Some(big(0)));
    assert_eq!(scale(&big(3_000), 7, 1000), Some(big(21)));
}

#[test]
fn scaling_agrees_with_integer_arithmetic() {
    let mut value: u128 = 1;
    for _ in 0..60 {
        for elapsed in [0i64, 1, 2, 3, 125, 250, 333, 499, 500, 501, 777, 1000, 1999, 2001, 5000] {
            let expected = value * elapsed as u128 / 500;
            assert_eq!(scale(&big(value), elapsed, 500), Some(big(expected)));
        }
        value = value * 3 + 1;
    }
}

#[test]
fn target_follows_the_time() {
    let target = big(1_000_000);
    assert_eq!(retarget(&target, 500), target);
    assert_eq!(retarget(&target, 250), big(500_000));
    assert_eq!(retarget(&target, 1000), big(2_000_000));
    assert_eq!(retarget(&target, 501), big(1_002_000));
}

#[test]
fn target_moves_by_a_factor_of_four_at_most() {
    let target = big(1_000_000);
    assert_eq!(retarget(&target, 125), big(250_000));
    assert_eq!(retarget(&target, 124), big(250_000));
    assert_eq!(retarget(&target, 0), big(250_000));
    assert_eq!(retarget(&target, -7), big(250_000));
    assert_eq!(retarget(&target, i64::MIN), big(250_000));
    assert_eq!(retarget(&target, 2000), big(4_000_000));
    assert_eq!(retarget(&target, 2001), big(4_000_000));
    assert_eq!(retarget(&target, i64::MAX), big(4_000_000));
}

#[test]
fn target_is_never_easier_than_the_easiest() {
    let easiest = rsbtc::min_target();
    assert_eq!(easiest, U256 { hi: u128::MAX >> 16, lo: u128::MAX });
    assert_eq!(retarget(&easiest, 1000), easiest);
    assert_eq!(retarget(&easiest, i64::MAX), easiest);
    assert_eq!(retarget(&LARGEST, i64::MAX), easiest);
}

#[test]
fn amounts_are_read_as_the_standard_library_does() {
    for text in [
        "0", "7", "+7", "007", "18446744073709551615", "18446744073709551616", "", "+", "-1", " 7",
        "7 ", "++7", "1_000", "1.0", "0x10", "٣", "99999999999999999999999999", "+0",
        "00000000000000000000000000000001",
    ] {
        assert_eq!(read_number(text, u64::MAX), text.parse::<u64>().ok(), "{}", text);
    }
    assert_eq!(read_number("256", 255), None);
    assert_eq!(read_number("255", 255), Some(255));
}

#[test]
fn texts_are_trimmed_as_the_standard_library_does() {
    for text in ["", " ", "a", " a ", "\t a b\u{a0}\u{3000}\n", "\u{2003}x", "x\u{200b}", "é "] {
        assert_eq!(trim(text), text.trim());
    }
    for n in 0..0x3100u32 {
        if let Some(c) = char::from_u32(n) {
            assert_eq!(white_space(c), c.is_whitespace(), "{}", n);
        }
    }
}
