//! The mathematical model of radix parsing: what a digit byte is worth, what a
//! digit string is worth, and what each parsing mode returns.

use vstd::prelude::*;

verus! {

/// ASCII `'0'`.
pub const ZERO_BYTE: u8 = 48;

/// ASCII `'9'`.
pub const NINE_BYTE: u8 = 57;

/// ASCII `'a'`.
pub const LOWER_A_BYTE: u8 = 97;

/// ASCII `'z'`.
pub const LOWER_Z_BYTE: u8 = 122;

/// ASCII `'A'`.
pub const UPPER_A_BYTE: u8 = 65;

/// ASCII `'Z'`.
pub const UPPER_Z_BYTE: u8 = 90;

/// ASCII `'+'`.
pub const PLUS_BYTE: u8 = 43;

/// ASCII `'-'`.
pub const MINUS_BYTE: u8 = 45;

/// The numeric value of one ASCII byte under `radix`: `'0'..='9'` stand for
/// 0 through 9, and letters (either case) for 10 through 35, accepted only
/// while the value stays below `radix`.
pub open spec fn digit_of(b: u8, radix: u8) -> Option<u8> {
    if ZERO_BYTE <= b <= NINE_BYTE && b - ZERO_BYTE < radix {
        Some((b - ZERO_BYTE) as u8)
    } else if LOWER_A_BYTE <= b <= LOWER_Z_BYTE && b - LOWER_A_BYTE + 10 < radix {
        Some((b - LOWER_A_BYTE + 10) as u8)
    } else if UPPER_A_BYTE <= b <= UPPER_Z_BYTE && b - UPPER_A_BYTE + 10 < radix {
        Some((b - UPPER_A_BYTE + 10) as u8)
    } else {
        None
    }
}

/// Whether `b` denotes a digit under `radix`.
pub open spec fn is_digit(b: u8, radix: u8) -> bool {
    digit_of(b, radix) is Some
}

/// Whether every byte of `s` denotes a digit under `radix`.
pub open spec fn all_digits(s: Seq<u8>, radix: u8) -> bool {
    forall|i: int| 0 <= i < s.len() ==> is_digit(s[i], radix)
}

/// The value of a digit string, most significant digit first.
/// Meaningful when `all_digits(s, radix)` holds.
pub open spec fn base_value(s: Seq<u8>, radix: u8) -> int
    decreases s.len(),
{
    if s.len() == 0 {
        0
    } else {
        base_value(s.drop_last(), radix) * radix + digit_of(s.last(), radix)->0
    }
}

/// What strict unsigned parsing returns on `s`: the value of the digit
/// string when it is nonempty, made of digits only, and fits below `max`;
/// absence otherwise.
pub open spec fn parse_unsigned(s: Seq<u8>, radix: u8, max: int) -> Option<int> {
    if s.len() > 0 && all_digits(s, radix) && base_value(s, radix) <= max {
        Some(base_value(s, radix))
    } else {
        None
    }
}

/// What strict signed parsing returns on `s`: a leading `'+'` is consumed and
/// the rest read as an unsigned string; a leading `'-'` negates the value of
/// the rest, which must reach down to `min` at worst; without a sign the whole
/// string is read as unsigned.
pub open spec fn parse_signed(s: Seq<u8>, radix: u8, min: int, max: int) -> Option<int> {
    if s.len() == 0 {
        None
    } else if s[0] == PLUS_BYTE {
        parse_unsigned(s.skip(1), radix, max)
    } else if s[0] == MINUS_BYTE {
        if s.len() > 1 && all_digits(s.skip(1), radix) && -base_value(s.skip(1), radix) >= min {
            Some(-base_value(s.skip(1), radix))
        } else {
            None
        }
    } else {
        parse_unsigned(s, radix, max)
    }
}

/// One left-to-right pass of saturating unsigned accumulation, starting from
/// `acc`: an invalid byte still yields absence, but a multiply that would pass
/// `max` ends the pass at `max` at once, without looking at the remaining
/// bytes; an addition that would pass `max` clamps and the pass goes on.
pub open spec fn sat_scan_unsigned(s: Seq<u8>, radix: u8, acc: int, max: int) -> Option<int>
    decreases s.len(),
{
    if s.len() == 0 {
        Some(acc)
    } else {
        match digit_of(s[0], radix) {
            None => None,
            Some(d) => if acc * radix > max {
                Some(max)
            } else if acc * radix + d > max {
                sat_scan_unsigned(s.skip(1), radix, max, max)
            } else {
                sat_scan_unsigned(s.skip(1), radix, acc * radix + d, max)
            },
        }
    }
}

/// The mirror pass for a negative magnitude: multiply then subtract, ending
/// the pass at `min` when the multiply would pass below it.
pub open spec fn sat_scan_negative(s: Seq<u8>, radix: u8, acc: int, min: int) -> Option<int>
    decreases s.len(),
{
    if s.len() == 0 {
        Some(acc)
    } else {
        match digit_of(s[0], radix) {
            None => None,
            Some(d) => if acc * radix < min {
                Some(min)
            } else if acc * radix - d < min {
                sat_scan_negative(s.skip(1), radix, min, min)
            } else {
                sat_scan_negative(s.skip(1), radix, acc * radix - d, min)
            },
        }
    }
}

/// What saturating unsigned parsing returns on `s`.
pub open spec fn parse_unsigned_saturating(s: Seq<u8>, radix: u8, max: int) -> Option<int> {
    if s.len() == 0 {
        None
    } else {
        sat_scan_unsigned(s, radix, 0, max)
    }
}

/// What saturating signed parsing returns on `s`: sign handling as in
/// `parse_signed`, with the negative pass clamping at `min`.
pub open spec fn parse_signed_saturating(s: Seq<u8>, radix: u8, min: int, max: int) -> Option<
    int,
> {
    if s.len() == 0 {
        None
    } else if s[0] == PLUS_BYTE {
        parse_unsigned_saturating(s.skip(1), radix, max)
    } else if s[0] == MINUS_BYTE {
        if s.len() > 1 {
            sat_scan_negative(s.skip(1), radix, 0, min)
        } else {
            None
        }
    } else {
        parse_unsigned_saturating(s, radix, max)
    }
}

/// The value of a digit string is never negative.
pub proof fn lemma_base_value_nonneg(s: Seq<u8>, radix: u8)
    ensures
        base_value(s, radix) >= 0,
    decreases s.len(),
{
    if s.len() > 0 {
        lemma_base_value_nonneg(s.drop_last(), radix);
        assert(base_value(s.drop_last(), radix) * radix >= 0) by (nonlinear_arith)
            requires
                base_value(s.drop_last(), radix) >= 0,
                radix >= 0,
        ;
    }
}

/// Extending a prefix of `s` by its next byte multiplies the prefix value by
/// the radix and adds the next digit.
pub proof fn lemma_base_value_step(s: Seq<u8>, radix: u8, i: int)
    requires
        0 <= i < s.len(),
    ensures
        base_value(s.take(i + 1), radix) == base_value(s.take(i), radix) * radix + digit_of(
            s[i],
            radix,
        )->0,
{
    assert(s.take(i + 1).drop_last() =~= s.take(i));
    assert(s.take(i + 1).last() == s[i]);
}

/// Prefix values only grow as the prefix grows.
pub proof fn lemma_base_value_take_mono(s: Seq<u8>, radix: u8, i: int, j: int)
    requires
        2 <= radix,
        0 <= i <= j <= s.len(),
    ensures
        base_value(s.take(i), radix) <= base_value(s.take(j), radix),
    decreases j - i,
{
    if i < j {
        lemma_base_value_take_mono(s, radix, i, j - 1);
        lemma_base_value_step(s, radix, j - 1);
        lemma_base_value_nonneg(s.take(j - 1), radix);
        assert(base_value(s.take(j - 1), radix) * radix >= base_value(s.take(j - 1), radix))
            by (nonlinear_arith)
            requires
                base_value(s.take(j - 1), radix) >= 0,
                radix >= 1,
        ;
    }
}

} // verus!
