use btoi::{btoi, btoi_saturating, btou, btou_radix, btou_saturating};

#[test]
fn btou_identity() {
    let values: [u32; 7] = [0, 1, 7, 42, 65536, 4000000000, u32::MAX];
    for n in values {
        assert_eq!(Some(n), btou(n.to_string().as_bytes()));
    }
}

#[test]
fn btou_binary_identity() {
    let values: [u64; 6] = [0, 1, 2, 1023, 1024, u64::MAX];
    for n in values {
        assert_eq!(Some(n), btou_radix(format!("{:b}", n).as_bytes(), 2));
    }
}

#[test]
fn btou_octal_identity() {
    let values: [u64; 6] = [0, 1, 8, 511, 512, u64::MAX];
    for n in values {
        assert_eq!(Some(n), btou_radix(format!("{:o}", n).as_bytes(), 8));
    }
}

#[test]
fn btou_lower_hex_identity() {
    let values: [u64; 6] = [0, 1, 15, 16, 0xdeadbeef, u64::MAX];
    for n in values {
        assert_eq!(Some(n), btou_radix(format!("{:x}", n).as_bytes(), 16));
    }
}

#[test]
fn btou_upper_hex_identity() {
    let values: [u64; 6] = [0, 1, 15, 16, 0xDEADBEEF, u64::MAX];
    for n in values {
        assert_eq!(Some(n), btou_radix(format!("{:X}", n).as_bytes(), 16));
    }
}

#[test]
fn btoi_identity() {
    let values: [i32; 8] = [0, 1, -1, 42, -42, i32::MIN, i32::MAX, -65536];
    for n in values {
        assert_eq!(Some(n), btoi(n.to_string().as_bytes()));
    }
}

#[test]
fn btoi_identity_at_every_width() {
    assert_eq!(Some(i8::MIN), btoi(i8::MIN.to_string().as_bytes()));
    assert_eq!(Some(i16::MIN), btoi(i16::MIN.to_string().as_bytes()));
    assert_eq!(Some(i64::MIN), btoi(i64::MIN.to_string().as_bytes()));
    assert_eq!(Some(i128::MIN), btoi(i128::MIN.to_string().as_bytes()));
    assert_eq!(Some(isize::MIN), btoi(isize::MIN.to_string().as_bytes()));
}

#[test]
fn btou_saturating_identity() {
    let values: [u32; 5] = [0, 1, 42, 65536, u32::MAX];
    for n in values {
        assert_eq!(Some(n), btou_saturating(n.to_string().as_bytes()));
    }
}

#[test]
fn btoi_saturating_identity() {
    let values: [i32; 7] = [0, 1, -1, 42, -42, i32::MIN, i32::MAX];
    for n in values {
        assert_eq!(Some(n), btoi_saturating(n.to_string().as_bytes()));
    }
}
