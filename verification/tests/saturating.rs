use btoi::{
    btoi, btoi_radix, btoi_saturating, btoi_saturating_radix, btou, btou_radix, btou_saturating,
    btou_saturating_radix,
};

#[test]
fn empty_input_is_absent_saturating() {
    for radix in [2u8, 8, 10, 16, 36] {
        assert_eq!(btou_saturating_radix::<u32>(b"", radix), None);
        assert_eq!(btoi_saturating_radix::<i32>(b"", radix), None);
    }
    assert_eq!(btou_saturating::<u32>(b""), None);
    assert_eq!(btoi_saturating::<i32>(b""), None);
}

#[test]
fn invalid_digit_is_absent_saturating() {
    assert_eq!(btou_saturating_radix::<u32>(b"g", 16), None);
    assert_eq!(btou_saturating_radix::<u32>(b"2", 2), None);
    assert_eq!(btoi_saturating::<i32>(b"--5"), None);
    assert_eq!(btoi_saturating::<i32>(b"+"), None);
    assert_eq!(btoi_saturating::<i32>(b"-"), None);
}

#[test]
fn overflow_clamps_to_maximum() {
    assert_eq!(btou_saturating::<u8>(b"999999999999"), Some(255));
    assert_eq!(btou_saturating::<u8>(b"256"), Some(255));
    assert_eq!(btou_saturating::<u16>(b"70000"), Some(u16::MAX));
    assert_eq!(btoi_saturating::<i8>(b"128"), Some(127));
    assert_eq!(btoi_saturating::<i8>(b"+2000"), Some(127));
}

#[test]
fn overflow_clamps_to_minimum() {
    assert_eq!(btoi_saturating::<i8>(b"-129"), Some(-128));
    assert_eq!(btoi_saturating::<i8>(b"-99999"), Some(-128));
    assert_eq!(btoi_saturating_radix::<i16>(b"-8001", 16), Some(i16::MIN));
}

#[test]
fn saturating_agrees_with_strict_when_present() {
    let cases: [&[u8]; 8] = [
        b"0", b"7", b"007", b"255", b"123", b"65535", b"42", b"99",
    ];
    for bytes in cases {
        assert_eq!(btou::<u32>(bytes), btou_saturating::<u32>(bytes));
    }
    let signed_cases: [&[u8]; 7] = [b"0", b"-0", b"+7", b"-128", b"127", b"-1", b"42"];
    for bytes in signed_cases {
        assert_eq!(btoi::<i8>(bytes), btoi_saturating::<i8>(bytes));
    }
    assert_eq!(
        btou_radix::<u8>(b"ff", 16),
        btou_saturating_radix::<u8>(b"ff", 16)
    );
    assert_eq!(
        btoi_radix::<i8>(b"-80", 16),
        btoi_saturating_radix::<i8>(b"-80", 16)
    );
}

#[test]
fn bytes_after_the_overflow_point_are_not_validated() {
    // Once the accumulator would pass the bound, the remaining bytes are
    // never decoded, so trailing non-digits after that point are ignored.
    assert_eq!(btou_saturating::<u8>(b"999x"), Some(255));
    assert_eq!(btoi_saturating::<i8>(b"-999x"), Some(-128));
    // Before the overflow point they still count.
    assert_eq!(btou_saturating::<u8>(b"9x99"), None);
}

#[test]
fn saturating_exact_values_pass_through() {
    assert_eq!(btou_saturating::<u8>(b"255"), Some(255));
    assert_eq!(btoi_saturating::<i8>(b"-128"), Some(-128));
    assert_eq!(btou_saturating_radix::<u32>(b"zz", 36), Some(35 * 36 + 35));
}
