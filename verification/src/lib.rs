//! Parse integers from ASCII byte strings in any radix from 2 to 36, without
//! panicking on overflow: strict entry points report absence on malformed
//! input or overflow, saturating entry points clamp to the representable
//! bounds on overflow instead.

use vstd::prelude::*;

pub mod digits;
pub mod fixed_int;
pub mod laws;

verus! {

use crate::digits::{
    digit_of,
    is_digit,
    all_digits,
    base_value,
    parse_unsigned,
    lemma_base_value_nonneg,
    lemma_base_value_step,
    lemma_base_value_take_mono,
    ZERO_BYTE,
    NINE_BYTE,
    LOWER_A_BYTE,
    LOWER_Z_BYTE,
    UPPER_A_BYTE,
    UPPER_Z_BYTE,
    PLUS_BYTE,
    MINUS_BYTE,
};
use crate::digits::{parse_signed, parse_unsigned_saturating, parse_signed_saturating, sat_scan_unsigned, sat_scan_negative};
use vstd::slice::slice_subrange;
use crate::fixed_int::FixedInt;

/// The mathematical value carried by an optional machine integer.
pub open spec fn opt_value<I: FixedInt>(r: Option<I>) -> Option<int> {
    match r {
        Some(v) => Some(v.as_int()),
        None => None,
    }
}

/// Decode one ASCII byte as a digit under `radix`, or report that it is none.
fn ascii_to_digit<I: FixedInt>(ch: u8, radix: u8) -> (r: Option<I>)
    requires
        2 <= radix <= 36,
    ensures
        r is Some <==> digit_of(ch, radix) is Some,
        r matches Some(d) ==> d.as_int() == digit_of(ch, radix)->0,
{
    proof {
        I::lemma_range_shape();
    }
    if ZERO_BYTE <= ch && ch <= NINE_BYTE && ch - ZERO_BYTE < radix {
        Some(I::from_u8(ch - ZERO_BYTE))
    } else if LOWER_A_BYTE <= ch && ch <= LOWER_Z_BYTE && ch - LOWER_A_BYTE + 10 < radix {
        Some(I::from_u8(ch - LOWER_A_BYTE + 10))
    } else if UPPER_A_BYTE <= ch && ch <= UPPER_Z_BYTE && ch - UPPER_A_BYTE + 10 < radix {
        Some(I::from_u8(ch - UPPER_A_BYTE + 10))
    } else {
        None
    }
}

/// Strict unsigned parsing under an explicit radix: the value of `bytes`
/// read as digits, or absence when `bytes` is empty, holds a byte that is
/// no digit under `radix`, or overflows the type.
pub fn btou_radix<I: FixedInt>(bytes: &[u8], radix: u8) -> (r: Option<I>)
    requires
        2 <= radix <= 36,
    ensures
        opt_value(r) == parse_unsigned(bytes@, radix, I::max_spec()),
{
    proof {
        I::lemma_range_shape();
    }
    let n = bytes.len();
    if n == 0 {
        return None;
    }
    let base: I = I::from_u8(radix);
    let mut result: I = I::zero();
    let mut i: usize = 0;
    while i < n
        invariant
            0 <= i <= n,
            n == bytes@.len(),
            2 <= radix <= 36,
            base.as_int() == radix,
            I::min_spec() <= 0,
            I::max_spec() >= 36,
            all_digits(bytes@.take(i as int), radix),
            result.as_int() == base_value(bytes@.take(i as int), radix),
        decreases n - i,
    {
        let ghost prefix = bytes@.take(i as int);
        let d: I = match ascii_to_digit::<I>(bytes[i], radix) {
            Some(d) => d,
            None => {
                assert(!is_digit(bytes@[i as int], radix));
                return None;
            },
        };
        proof {
            lemma_base_value_step(bytes@, radix, i as int);
            lemma_base_value_nonneg(prefix, radix);
        }
        result = match result.checked_mul(base) {
            Some(v) => v,
            None => {
                proof {
                    assert(base_value(prefix, radix) * radix > I::max_spec());
                    if all_digits(bytes@, radix) {
                        lemma_base_value_take_mono(bytes@, radix, i as int + 1, n as int);
                        assert(bytes@.take(n as int) =~= bytes@);
                    }
                }
                return None;
            },
        };
        result = match result.checked_add(d) {
            Some(v) => v,
            None => {
                proof {
                    if all_digits(bytes@, radix) {
                        lemma_base_value_take_mono(bytes@, radix, i as int + 1, n as int);
                        assert(bytes@.take(n as int) =~= bytes@);
                    }
                }
                return None;
            },
        };
        proof {
            assert forall|k: int| 0 <= k < i as int + 1 implies is_digit(
                #[trigger] bytes@.take(i as int + 1)[k],
                radix,
            ) by {
                if k < i as int {
                    assert(is_digit(prefix[k], radix));
                }
            }
        }
        i = i + 1;
    }
    proof {
        assert(bytes@.take(n as int) =~= bytes@);
        result.lemma_in_range();
    }
    Some(result)
}

/// Strict unsigned parsing in decimal.
pub fn btou<I: FixedInt>(bytes: &[u8]) -> (r: Option<I>)
    ensures
        opt_value(r) == parse_unsigned(bytes@, 10, I::max_spec()),
{
    btou_radix(bytes, 10)
}

/// Strict signed parsing under an explicit radix: a leading `'+'` is
/// consumed, a leading `'-'` builds the negative value directly by
/// multiply-then-subtract (so the type's most negative value parses), and
/// anything malformed or out of range yields absence.
pub fn btoi_radix<I: FixedInt>(bytes: &[u8], radix: u8) -> (r: Option<I>)
    requires
        2 <= radix <= 36,
    ensures
        opt_value(r) == parse_signed(bytes@, radix, I::min_spec(), I::max_spec()),
{
    proof {
        I::lemma_range_shape();
    }
    let n = bytes.len();
    if n == 0 {
        return None;
    }
    let first = bytes[0];
    if first == PLUS_BYTE {
        let r = btou_radix::<I>(slice_subrange(bytes, 1, n), radix);
        proof {
            assert(bytes@.subrange(1, n as int) =~= bytes@.skip(1));
        }
        return r;
    }
    if first != MINUS_BYTE {
        return btou_radix::<I>(bytes, radix);
    }
    let digits = slice_subrange(bytes, 1, n);
    proof {
        assert(bytes@.subrange(1, n as int) =~= bytes@.skip(1));
    }
    let m = digits.len();
    if m == 0 {
        return None;
    }
    let base: I = I::from_u8(radix);
    let mut result: I = I::zero();
    let mut i: usize = 0;
    while i < m
        invariant
            0 <= i <= m,
            1 <= m == digits@.len(),
            bytes@.len() == m + 1,
            bytes@[0] == MINUS_BYTE,
            digits@ == bytes@.skip(1),
            2 <= radix <= 36,
            base.as_int() == radix,
            I::min_spec() <= 0,
            I::max_spec() >= 36,
            all_digits(digits@.take(i as int), radix),
            result.as_int() == -base_value(digits@.take(i as int), radix),
        decreases m - i,
    {
        let ghost prefix = digits@.take(i as int);
        let d: I = match ascii_to_digit::<I>(digits[i], radix) {
            Some(d) => d,
            None => {
                assert(!is_digit(digits@[i as int], radix));
                return None;
            },
        };
        proof {
            lemma_base_value_step(digits@, radix, i as int);
            lemma_base_value_nonneg(prefix, radix);
            assert((-base_value(prefix, radix)) * radix == -(base_value(prefix, radix) * radix)
                && base_value(prefix, radix) * radix >= 0) by (nonlinear_arith)
                requires
                    base_value(prefix, radix) >= 0,
                    radix >= 2,
            ;
        }
        result = match result.checked_mul(base) {
            Some(v) => v,
            None => {
                proof {
                    assert(result.as_int() * base.as_int() == -(base_value(prefix, radix)
                        * radix));
                    assert(-(base_value(prefix, radix) * radix) < I::min_spec());
                    assert(base_value(digits@.take(i as int + 1), radix) >= base_value(
                        prefix,
                        radix,
                    ) * radix);
                    if all_digits(digits@, radix) {
                        lemma_base_value_take_mono(digits@, radix, i as int + 1, m as int);
                        assert(digits@.take(m as int) =~= digits@);
                        assert(-base_value(digits@, radix) < I::min_spec());
                    }
                }
                return None;
            },
        };
        result = match result.checked_sub(d) {
            Some(v) => v,
            None => {
                proof {
                    assert(result.as_int() - d.as_int() == -base_value(
                        digits@.take(i as int + 1),
                        radix,
                    ));
                    assert(-base_value(digits@.take(i as int + 1), radix) < I::min_spec());
                    if all_digits(digits@, radix) {
                        lemma_base_value_take_mono(digits@, radix, i as int + 1, m as int);
                        assert(digits@.take(m as int) =~= digits@);
                        assert(-base_value(digits@, radix) < I::min_spec());
                    }
                }
                return None;
            },
        };
        proof {
            assert forall|k: int| 0 <= k < i as int + 1 implies is_digit(
                #[trigger] digits@.take(i as int + 1)[k],
                radix,
            ) by {
                if k < i as int {
                    assert(is_digit(prefix[k], radix));
                }
            }
        }
        i = i + 1;
    }
    proof {
        assert(digits@.take(m as int) =~= digits@);
        result.lemma_in_range();
    }
    Some(result)
}

/// Strict signed parsing in decimal.
pub fn btoi<I: FixedInt>(bytes: &[u8]) -> (r: Option<I>)
    ensures
        opt_value(r) == parse_signed(bytes@, 10, I::min_spec(), I::max_spec()),
{
    btoi_radix(bytes, 10)
}

/// Saturating unsigned parsing under an explicit radix: as the strict form,
/// except that when a multiply would pass the type's maximum the maximum is
/// returned at once and the remaining bytes are not looked at.
pub fn btou_saturating_radix<I: FixedInt>(bytes: &[u8], radix: u8) -> (r: Option<I>)
    requires
        2 <= radix <= 36,
    ensures
        opt_value(r) == parse_unsigned_saturating(bytes@, radix, I::max_spec()),
{
    proof {
        I::lemma_range_shape();
    }
    let n = bytes.len();
    if n == 0 {
        return None;
    }
    let base: I = I::from_u8(radix);
    let mut result: I = I::zero();
    let mut i: usize = 0;
    proof {
        assert(bytes@.skip(0) =~= bytes@);
    }
    while i < n
        invariant
            0 <= i <= n,
            1 <= n == bytes@.len(),
            2 <= radix <= 36,
            base.as_int() == radix,
            I::min_spec() <= 0,
            I::max_spec() >= 36,
            result.as_int() >= 0,
            sat_scan_unsigned(bytes@.skip(i as int), radix, result.as_int(), I::max_spec())
                == sat_scan_unsigned(bytes@, radix, 0, I::max_spec()),
        decreases n - i,
    {
        let ghost rest = bytes@.skip(i as int);
        proof {
            assert(rest[0] == bytes@[i as int]);
            assert(rest.skip(1) =~= bytes@.skip(i as int + 1));
        }
        let d: I = match ascii_to_digit::<I>(bytes[i], radix) {
            Some(d) => d,
            None => {
                assert(sat_scan_unsigned(rest, radix, result.as_int(), I::max_spec()) is None);
                return None;
            },
        };
        let p: I = match result.checked_mul(base) {
            Some(v) => v,
            None => {
                proof {
                    assert(result.as_int() * base.as_int() >= 0) by (nonlinear_arith)
                        requires
                            result.as_int() >= 0,
                            base.as_int() >= 0,
                    ;
                    assert(sat_scan_unsigned(rest, radix, result.as_int(), I::max_spec())
                        == Some(I::max_spec()));
                }
                return Some(I::max_value());
            },
        };
        result = p.saturating_add(d);
        i = i + 1;
    }
    proof {
        assert(bytes@.skip(n as int) =~= Seq::<u8>::empty());
    }
    Some(result)
}

/// Saturating unsigned parsing in decimal.
pub fn btou_saturating<I: FixedInt>(bytes: &[u8]) -> (r: Option<I>)
    ensures
        opt_value(r) == parse_unsigned_saturating(bytes@, 10, I::max_spec()),
{
    btou_saturating_radix(bytes, 10)
}

/// Saturating signed parsing under an explicit radix: sign handling as in
/// the strict form, with the negative accumulation clamping to the type's
/// minimum when a multiply would pass below it, again without looking at the
/// remaining bytes.
pub fn btoi_saturating_radix<I: FixedInt>(bytes: &[u8], radix: u8) -> (r: Option<I>)
    requires
        2 <= radix <= 36,
    ensures
        opt_value(r) == parse_signed_saturating(bytes@, radix, I::min_spec(), I::max_spec()),
{
    proof {
        I::lemma_range_shape();
    }
    let n = bytes.len();
    if n == 0 {
        return None;
    }
    let first = bytes[0];
    if first == PLUS_BYTE {
        let r = btou_saturating_radix::<I>(slice_subrange(bytes, 1, n), radix);
        proof {
            assert(bytes@.subrange(1, n as int) =~= bytes@.skip(1));
        }
        return r;
    }
    if first != MINUS_BYTE {
        return btou_saturating_radix::<I>(bytes, radix);
    }
    let digits = slice_subrange(bytes, 1, n);
    proof {
        assert(bytes@.subrange(1, n as int) =~= bytes@.skip(1));
    }
    let m = digits.len();
    if m == 0 {
        return None;
    }
    let base: I = I::from_u8(radix);
    let mut result: I = I::zero();
    let mut i: usize = 0;
    proof {
        assert(digits@.skip(0) =~= digits@);
    }
    while i < m
        invariant
            0 <= i <= m,
            1 <= m == digits@.len(),
            bytes@.len() == m + 1,
            bytes@[0] == MINUS_BYTE,
            digits@ == bytes@.skip(1),
            2 <= radix <= 36,
            base.as_int() == radix,
            I::min_spec() <= 0,
            I::max_spec() >= 36,
            result.as_int() <= 0,
            sat_scan_negative(digits@.skip(i as int), radix, result.as_int(), I::min_spec())
                == sat_scan_negative(digits@, radix, 0, I::min_spec()),
        decreases m - i,
    {
        let ghost rest = digits@.skip(i as int);
        proof {
            assert(rest[0] == digits@[i as int]);
            assert(rest.skip(1) =~= digits@.skip(i as int + 1));
        }
        let d: I = match ascii_to_digit::<I>(digits[i], radix) {
            Some(d) => d,
            None => {
                assert(sat_scan_negative(rest, radix, result.as_int(), I::min_spec()) is None);
                return None;
            },
        };
        let p: I = match result.checked_mul(base) {
            Some(v) => v,
            None => {
                proof {
                    assert(result.as_int() * base.as_int() <= 0) by (nonlinear_arith)
                        requires
                            result.as_int() <= 0,
                            base.as_int() >= 0,
                    ;
                    assert(sat_scan_negative(rest, radix, result.as_int(), I::min_spec())
                        == Some(I::min_spec()));
                }
                return Some(I::min_value());
            },
        };
        proof {
            assert(result.as_int() * base.as_int() <= 0) by (nonlinear_arith)
                requires
                    result.as_int() <= 0,
                    base.as_int() >= 0,
            ;
        }
        result = p.saturating_sub(d);
        i = i + 1;
    }
    proof {
        assert(digits@.skip(m as int) =~= Seq::<u8>::empty());
    }
    Some(result)
}

/// Saturating signed parsing in decimal.
pub fn btoi_saturating<I: FixedInt>(bytes: &[u8]) -> (r: Option<I>)
    ensures
        opt_value(r) == parse_signed_saturating(bytes@, 10, I::min_spec(), I::max_spec()),
{
    btoi_saturating_radix(bytes, 10)
}

} // verus!
