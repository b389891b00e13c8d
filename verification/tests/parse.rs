use btoi::{btoi, btoi_radix, btou, btou_radix};

#[test]
fn empty_input_is_absent_strict() {
    for radix in [2u8, 8, 10, 16, 36] {
        assert_eq!(btou_radix::<u32>(b"", radix), None);
        assert_eq!(btoi_radix::<i32>(b"", radix), None);
    }
    assert_eq!(btou::<u32>(b""), None);
    assert_eq!(btoi::<i32>(b""), None);
}

#[test]
fn invalid_digit_is_absent_strict() {
    assert_eq!(btou_radix::<u32>(b"g", 16), None);
    assert_eq!(btou_radix::<u32>(b"2", 2), None);
    assert_eq!(btou_radix::<u32>(b"1g1", 16), None);
    assert_eq!(btou::<u32>(b"12 3"), None);
    assert_eq!(btoi::<i32>(b"1x"), None);
}

#[test]
fn plus_sign_delegates_to_unsigned() {
    assert_eq!(btoi::<i32>(b"+123"), btou::<i32>(b"123"));
    assert_eq!(btoi::<i32>(b"+123"), Some(123));
}

#[test]
fn lone_sign_is_absent() {
    assert_eq!(btoi::<i32>(b"+"), None);
    assert_eq!(btoi::<i32>(b"-"), None);
}

#[test]
fn double_minus_is_absent() {
    assert_eq!(btoi::<i32>(b"--5"), None);
}

#[test]
fn leading_zeros_are_tolerated() {
    assert_eq!(btou::<u32>(b"007"), Some(7));
    assert_eq!(btoi::<i32>(b"-007"), Some(-7));
    assert_eq!(btou::<u8>(b"00000000255"), Some(255));
}

#[test]
fn radix_boundaries_are_accepted() {
    assert_eq!(btou_radix::<u32>(b"10", 2), Some(2));
    assert_eq!(btou_radix::<u32>(b"z", 36), Some(35));
    assert_eq!(btou_radix::<u32>(b"Z", 36), Some(35));
    assert_eq!(btou_radix::<u32>(b"10", 36), Some(36));
}

#[test]
fn hex_ff_is_255_for_u8() {
    assert_eq!(btou_radix::<u8>(b"ff", 16), Some(255));
    assert_eq!(btou_radix::<u8>(b"FF", 16), Some(255));
}

#[test]
fn hex_minus_80_is_i8_minimum() {
    assert_eq!(btoi_radix::<i8>(b"-80", 16), Some(-128));
}

#[test]
fn minus_129_overflows_i8() {
    assert_eq!(btoi::<i8>(b"-129"), None);
}

#[test]
fn unsigned_overflow_is_absent_strict() {
    assert_eq!(btou::<u8>(b"256"), None);
    assert_eq!(btou::<u8>(b"255"), Some(255));
    assert_eq!(btou::<u16>(b"65536"), None);
    assert_eq!(btou::<u16>(b"65535"), Some(65535));
    assert_eq!(btou::<u64>(b"18446744073709551616"), None);
    assert_eq!(btou::<u64>(b"18446744073709551615"), Some(u64::MAX));
}

#[test]
fn signed_bounds_parse_exactly() {
    assert_eq!(btoi::<i8>(b"-128"), Some(i8::MIN));
    assert_eq!(btoi::<i8>(b"127"), Some(i8::MAX));
    assert_eq!(btoi::<i8>(b"128"), None);
    assert_eq!(btoi::<i32>(b"-2147483648"), Some(i32::MIN));
    assert_eq!(btoi::<i32>(b"2147483647"), Some(i32::MAX));
    assert_eq!(btoi::<i32>(b"-2147483649"), None);
    assert_eq!(btoi::<i64>(b"-9223372036854775808"), Some(i64::MIN));
}

#[test]
fn minus_builds_negative_values() {
    assert_eq!(btoi::<i32>(b"-42"), Some(-42));
    assert_eq!(btoi_radix::<i32>(b"-101", 2), Some(-5));
    assert_eq!(btoi_radix::<i32>(b"-ff", 16), Some(-255));
}

#[test]
fn every_width_parses() {
    assert_eq!(btou::<u8>(b"200"), Some(200u8));
    assert_eq!(btou::<u16>(b"60000"), Some(60000u16));
    assert_eq!(btou::<u32>(b"4000000000"), Some(4000000000u32));
    assert_eq!(btou::<u64>(b"18000000000000000000"), Some(18000000000000000000u64));
    assert_eq!(
        btou::<u128>(b"340282366920938463463374607431768211455"),
        Some(u128::MAX)
    );
    assert_eq!(btou::<usize>(b"12345"), Some(12345usize));
    assert_eq!(btoi::<i8>(b"-100"), Some(-100i8));
    assert_eq!(btoi::<i16>(b"-30000"), Some(-30000i16));
    assert_eq!(btoi::<i32>(b"-2000000000"), Some(-2000000000i32));
    assert_eq!(btoi::<i64>(b"-9000000000000000000"), Some(-9000000000000000000i64));
    assert_eq!(
        btoi::<i128>(b"-170141183460469231731687303715884105728"),
        Some(i128::MIN)
    );
    assert_eq!(btoi::<isize>(b"-12345"), Some(-12345isize));
}

#[test]
fn zero_parses_everywhere() {
    assert_eq!(btou::<u8>(b"0"), Some(0));
    assert_eq!(btoi::<i8>(b"0"), Some(0));
    assert_eq!(btoi::<i8>(b"-0"), Some(0));
    assert_eq!(btoi::<i8>(b"+0"), Some(0));
    for radix in 2u8..=36 {
        assert_eq!(btou_radix::<u32>(b"0", radix), Some(0));
    }
}
