//! The laws of the parsing family: canonical digit strings parse back to the
//! number they were formed from (in any radix, lower or upper case, signed or
//! unsigned), and the saturating modes agree with the strict modes wherever
//! the strict modes return a value.

use vstd::prelude::*;

verus! {

use vstd::arithmetic::div_mod::{
    lemma_div_decreases,
    lemma_div_pos_is_pos,
    lemma_mod_bound,
    lemma_fundamental_div_mod,
};
use crate::digits::{
    digit_of,
    is_digit,
    all_digits,
    base_value,
    parse_unsigned,
    parse_signed,
    parse_unsigned_saturating,
    parse_signed_saturating,
    sat_scan_unsigned,
    sat_scan_negative,
    lemma_base_value_nonneg,
    lemma_base_value_step,
    lemma_base_value_take_mono,
    ZERO_BYTE,
    LOWER_A_BYTE,
    LOWER_Z_BYTE,
    PLUS_BYTE,
    MINUS_BYTE,
};

/// The ASCII byte that denotes digit value `v`, using lower-case letters
/// from 10 upward.
pub open spec fn digit_byte(v: int) -> u8
    recommends
        0 <= v < 36,
{
    if v < 10 {
        (ZERO_BYTE + v) as u8
    } else {
        (LOWER_A_BYTE + (v - 10)) as u8
    }
}

/// The canonical digit string of a nonnegative number under `radix`: most
/// significant digit first, no sign, no leading zero except for zero itself.
pub open spec fn canonical_digits(n: int, radix: u8) -> Seq<u8>
    recommends
        0 <= n,
        2 <= radix <= 36,
    decreases n,
    when n >= 0 && 2 <= radix
    via canonical_digits_decreases
{
    if n < radix {
        seq![digit_byte(n)]
    } else {
        canonical_digits(n / (radix as int), radix).push(digit_byte(n % (radix as int)))
    }
}

#[via_fn]
proof fn canonical_digits_decreases(n: int, radix: u8) {
    if n >= radix {
        lemma_div_decreases(n, radix as int);
        lemma_div_pos_is_pos(n, radix as int);
    }
}

/// The canonical digit string of any number under `radix`: a leading `'-'`
/// before the magnitude when the number is negative.
pub open spec fn canonical_signed(n: int, radix: u8) -> Seq<u8>
    recommends
        2 <= radix <= 36,
{
    if n >= 0 {
        canonical_digits(n, radix)
    } else {
        seq![MINUS_BYTE] + canonical_digits(-n, radix)
    }
}

/// The canonical digit string of `n` is nonempty, made of digits valid under
/// `radix`, and worth exactly `n`.
pub proof fn lemma_canonical_digits(n: int, radix: u8)
    requires
        0 <= n,
        2 <= radix <= 36,
    ensures
        canonical_digits(n, radix).len() >= 1,
        all_digits(canonical_digits(n, radix), radix),
        base_value(canonical_digits(n, radix), radix) == n,
    decreases n,
{
    let r = radix as int;
    let s = canonical_digits(n, radix);
    if n < r {
        assert(digit_of(digit_byte(n), radix) == Some(n as u8));
        assert(base_value(Seq::<u8>::empty(), radix) == 0);
        assert(s.len() == 1);
        assert(s.last() == digit_byte(n));
        assert(s.drop_last() =~= Seq::<u8>::empty());
        assert(base_value(s, radix) == base_value(s.drop_last(), radix) * radix + digit_of(
            s.last(),
            radix,
        )->0);
        assert(base_value(s, radix) == n);
        assert forall|k: int| 0 <= k < s.len() implies is_digit(#[trigger] s[k], radix) by {
            assert(s[k] == digit_byte(n));
        }
    } else {
        lemma_div_decreases(n, r);
        lemma_div_pos_is_pos(n, r);
        lemma_mod_bound(n, r);
        lemma_canonical_digits(n / r, radix);
        let q = canonical_digits(n / r, radix);
        assert(s == q.push(digit_byte(n % r)));
        assert(s.drop_last() =~= q);
        assert(s.last() == digit_byte(n % r));
        assert(digit_of(digit_byte(n % r), radix) == Some((n % r) as u8));
        lemma_fundamental_div_mod(n, r);
        assert(base_value(s, radix) == base_value(s.drop_last(), radix) * radix + digit_of(
            s.last(),
            radix,
        )->0);
        assert(base_value(s.drop_last(), radix) == n / r);
        assert(base_value(s, radix) == (n / r) * r + (n % r));
        assert(base_value(s, radix) == n);
        assert forall|k: int| 0 <= k < s.len() implies is_digit(#[trigger] s[k], radix) by {
            if k < q.len() {
                assert(s[k] == q[k]);
                assert(is_digit(q[k], radix));
            } else {
                assert(s[k] == digit_byte(n % r));
            }
        }
    }
}

/// Parsing the canonical digit string of `n` under `radix` in strict
/// unsigned mode returns exactly `n`, for every `n` the type can hold.
pub proof fn lemma_parse_canonical_unsigned(n: int, radix: u8, max: int)
    requires
        2 <= radix <= 36,
        0 <= n <= max,
    ensures
        parse_unsigned(canonical_digits(n, radix), radix, max) == Some(n),
{
    lemma_canonical_digits(n, radix);
}

/// The upper-case form of one ASCII byte: letters are raised, anything else
/// is left alone.
pub open spec fn to_upper(b: u8) -> u8 {
    if LOWER_A_BYTE <= b <= LOWER_Z_BYTE {
        (b - 32) as u8
    } else {
        b
    }
}

/// A byte string with every letter raised to upper case.
pub open spec fn seq_to_upper(s: Seq<u8>) -> Seq<u8> {
    s.map_values(|b: u8| to_upper(b))
}

/// Raising a digit string to upper case keeps every digit valid and keeps
/// its value: the decoder reads both cases alike.
pub proof fn lemma_base_value_to_upper(s: Seq<u8>, radix: u8)
    ensures
        seq_to_upper(s).len() == s.len(),
        all_digits(s, radix) ==> all_digits(seq_to_upper(s), radix),
        base_value(seq_to_upper(s), radix) == base_value(s, radix),
    decreases s.len(),
{
    let u = seq_to_upper(s);
    assert forall|k: int| 0 <= k < s.len() implies #[trigger] u[k] == to_upper(s[k]) by {}
    assert forall|b: u8| #[trigger] digit_of(to_upper(b), radix) == digit_of(b, radix) by {}
    if s.len() > 0 {
        lemma_base_value_to_upper(s.drop_last(), radix);
        assert(u.drop_last() =~= seq_to_upper(s.drop_last()));
        assert(u.last() == to_upper(s.last()));
        assert(digit_of(u.last(), radix) == digit_of(s.last(), radix));
    }
    if all_digits(s, radix) {
        assert forall|k: int| 0 <= k < u.len() implies is_digit(#[trigger] u[k], radix) by {
            assert(is_digit(s[k], radix));
        }
    }
}

/// Parsing the canonical digit string of `n` with its letters raised to
/// upper case still returns exactly `n`.
pub proof fn lemma_parse_canonical_unsigned_upper(n: int, radix: u8, max: int)
    requires
        2 <= radix <= 36,
        0 <= n <= max,
    ensures
        parse_unsigned(seq_to_upper(canonical_digits(n, radix)), radix, max) == Some(n),
{
    lemma_canonical_digits(n, radix);
    lemma_base_value_to_upper(canonical_digits(n, radix), radix);
}

/// Parsing the canonical signed digit string of `n` in strict signed mode
/// returns exactly `n`, for every `n` the type can hold — the most negative
/// value included.
pub proof fn lemma_parse_canonical_signed(n: int, radix: u8, min: int, max: int)
    requires
        2 <= radix <= 36,
        min <= n <= max,
        min <= 0 <= max,
    ensures
        parse_signed(canonical_signed(n, radix), radix, min, max) == Some(n),
{
    let s = canonical_signed(n, radix);
    if n >= 0 {
        lemma_canonical_digits(n, radix);
        assert(is_digit(s[0], radix));
        assert(s[0] != PLUS_BYTE && s[0] != MINUS_BYTE);
    } else {
        lemma_canonical_digits(-n, radix);
        assert(s[0] == MINUS_BYTE);
        assert(s.skip(1) =~= canonical_digits(-n, radix));
    }
}

/// From any split point of an all-digit string whose value fits, the
/// saturating pass neither clamps nor stops early, and ends on the exact
/// value.
proof fn lemma_scan_unsigned_exact(s: Seq<u8>, radix: u8, i: int, max: int)
    requires
        2 <= radix <= 36,
        0 <= i <= s.len(),
        all_digits(s, radix),
        base_value(s, radix) <= max,
    ensures
        sat_scan_unsigned(s.skip(i), radix, base_value(s.take(i), radix), max) == Some(
            base_value(s, radix),
        ),
    decreases s.len() - i,
{
    if i == s.len() {
        assert(s.skip(i) =~= Seq::<u8>::empty());
        assert(s.take(i) =~= s);
    } else {
        assert(is_digit(s[i], radix));
        lemma_base_value_step(s, radix, i);
        lemma_base_value_nonneg(s.take(i), radix);
        lemma_base_value_take_mono(s, radix, i + 1, s.len() as int);
        assert(s.take(s.len() as int) =~= s);
        assert(s.skip(i)[0] == s[i]);
        assert(s.skip(i).skip(1) =~= s.skip(i + 1));
        lemma_scan_unsigned_exact(s, radix, i + 1, max);
    }
}

/// Wherever strict unsigned parsing returns a value, saturating unsigned
/// parsing returns the same value.
pub proof fn lemma_saturating_agrees_unsigned(s: Seq<u8>, radix: u8, max: int)
    requires
        2 <= radix <= 36,
        0 <= max,
    ensures
        parse_unsigned(s, radix, max) is Some ==> parse_unsigned_saturating(s, radix, max)
            == parse_unsigned(s, radix, max),
{
    if parse_unsigned(s, radix, max) is Some {
        lemma_scan_unsigned_exact(s, radix, 0, max);
        assert(s.skip(0) =~= s);
        assert(s.take(0) =~= Seq::<u8>::empty());
    }
}

/// The negative-direction counterpart of `lemma_scan_unsigned_exact`.
proof fn lemma_scan_negative_exact(s: Seq<u8>, radix: u8, i: int, min: int)
    requires
        2 <= radix <= 36,
        0 <= i <= s.len(),
        all_digits(s, radix),
        -base_value(s, radix) >= min,
        min <= 0,
    ensures
        sat_scan_negative(s.skip(i), radix, -base_value(s.take(i), radix), min) == Some(
            -base_value(s, radix),
        ),
    decreases s.len() - i,
{
    if i == s.len() {
        assert(s.skip(i) =~= Seq::<u8>::empty());
        assert(s.take(i) =~= s);
    } else {
        assert(is_digit(s[i], radix));
        lemma_base_value_step(s, radix, i);
        lemma_base_value_nonneg(s.take(i), radix);
        lemma_base_value_take_mono(s, radix, i + 1, s.len() as int);
        assert(s.take(s.len() as int) =~= s);
        assert((-base_value(s.take(i), radix)) * radix == -(base_value(s.take(i), radix)
            * radix) && base_value(s.take(i), radix) * radix >= 0) by (nonlinear_arith)
            requires
                base_value(s.take(i), radix) >= 0,
                radix >= 2,
        ;
        assert(s.skip(i)[0] == s[i]);
        assert(s.skip(i).skip(1) =~= s.skip(i + 1));
        lemma_scan_negative_exact(s, radix, i + 1, min);
    }
}

/// The empty byte string parses to absence in every mode, under every radix
/// and every bound.
pub proof fn lemma_empty_is_absent(radix: u8, min: int, max: int)
    ensures
        parse_unsigned(Seq::<u8>::empty(), radix, max) is None,
        parse_signed(Seq::<u8>::empty(), radix, min, max) is None,
        parse_unsigned_saturating(Seq::<u8>::empty(), radix, max) is None,
        parse_signed_saturating(Seq::<u8>::empty(), radix, min, max) is None,
{
}

/// A byte that is no digit under the radix makes strict unsigned parsing
/// absent wherever it stands, and saturating unsigned parsing absent when it
/// stands first — later positions are only reached in saturating mode while
/// no overflow has ended the pass.
pub proof fn lemma_invalid_digit_is_absent(s: Seq<u8>, radix: u8, i: int, max: int)
    requires
        0 <= i < s.len(),
        !is_digit(s[i], radix),
    ensures
        parse_unsigned(s, radix, max) is None,
        i == 0 ==> parse_unsigned_saturating(s, radix, max) is None,
{
    assert(!all_digits(s, radix));
}

/// A leading `'+'` has no effect beyond consuming one byte: signed parsing
/// of `'+'` followed by `s` is unsigned parsing of `s`, in both modes.
pub proof fn lemma_plus_delegates(s: Seq<u8>, radix: u8, min: int, max: int)
    ensures
        parse_signed(seq![PLUS_BYTE] + s, radix, min, max) == parse_unsigned(s, radix, max),
        parse_signed_saturating(seq![PLUS_BYTE] + s, radix, min, max)
            == parse_unsigned_saturating(s, radix, max),
{
    let t = seq![PLUS_BYTE] + s;
    assert(t[0] == PLUS_BYTE);
    assert(t.skip(1) =~= s);
}

/// Prepending the digit zero leaves the value of a digit string unchanged.
proof fn lemma_base_value_cons_zero(s: Seq<u8>, radix: u8)
    requires
        2 <= radix,
    ensures
        (seq![ZERO_BYTE] + s).len() == s.len() + 1,
        base_value(seq![ZERO_BYTE] + s, radix) == base_value(s, radix),
    decreases s.len(),
{
    let t = seq![ZERO_BYTE] + s;
    if s.len() == 0 {
        assert(t =~= seq![ZERO_BYTE]);
        assert(t.drop_last() =~= Seq::<u8>::empty());
        assert(base_value(Seq::<u8>::empty(), radix) == 0);
        assert(digit_of(ZERO_BYTE, radix) == Some(0u8));
    } else {
        lemma_base_value_cons_zero(s.drop_last(), radix);
        assert(t.drop_last() =~= seq![ZERO_BYTE] + s.drop_last());
        assert(t.last() == s.last());
    }
}

/// A leading zero is tolerated: it changes neither presence nor value of
/// strict unsigned parsing.
pub proof fn lemma_leading_zero_is_tolerated(s: Seq<u8>, radix: u8, max: int)
    requires
        2 <= radix <= 36,
        s.len() > 0,
    ensures
        parse_unsigned(seq![ZERO_BYTE] + s, radix, max) == parse_unsigned(s, radix, max),
{
    let t = seq![ZERO_BYTE] + s;
    lemma_base_value_cons_zero(s, radix);
    assert(digit_of(ZERO_BYTE, radix) == Some(0u8));
    if all_digits(s, radix) {
        assert forall|k: int| 0 <= k < t.len() implies is_digit(#[trigger] t[k], radix) by {
            if k > 0 {
                assert(t[k] == s[k - 1]);
                assert(is_digit(s[k - 1], radix));
            }
        }
    } else {
        let k = choose|k: int| 0 <= k < s.len() && !is_digit(s[k], radix);
        assert(t[k + 1] == s[k]);
        assert(!all_digits(t, radix));
    }
}

/// A value held below `max`, or `max` itself once passed.
spec fn clip_at_max(x: int, max: int) -> int {
    if x > max {
        max
    } else {
        x
    }
}

/// A value held above `min`, or `min` itself once passed below.
spec fn clip_at_min(x: int, min: int) -> int {
    if x < min {
        min
    } else {
        x
    }
}

/// From any split point of an all-digit string whose value passes `max`, the
/// saturating pass ends on `max`.
proof fn lemma_scan_unsigned_clamped(s: Seq<u8>, radix: u8, i: int, max: int)
    requires
        2 <= radix <= 36,
        0 <= i <= s.len(),
        all_digits(s, radix),
        base_value(s, radix) > max,
        1 <= max,
    ensures
        sat_scan_unsigned(s.skip(i), radix, clip_at_max(base_value(s.take(i), radix), max), max)
            == Some(max),
    decreases s.len() - i,
{
    if i == s.len() {
        assert(s.skip(i) =~= Seq::<u8>::empty());
        assert(s.take(i) =~= s);
    } else {
        assert(is_digit(s[i], radix));
        lemma_base_value_step(s, radix, i);
        lemma_base_value_nonneg(s.take(i), radix);
        assert(s.skip(i)[0] == s[i]);
        assert(s.skip(i).skip(1) =~= s.skip(i + 1));
        if base_value(s.take(i), radix) > max {
            assert(max * radix > max) by (nonlinear_arith)
                requires
                    1 <= max,
                    2 <= radix,
            ;
        } else if clip_at_max(base_value(s.take(i), radix), max) * radix > max {
        } else {
            lemma_scan_unsigned_clamped(s, radix, i + 1, max);
        }
    }
}

/// When a nonempty all-digit string is worth more than the type can hold,
/// saturating unsigned parsing returns exactly the maximum.
pub proof fn lemma_saturating_clamps_unsigned(s: Seq<u8>, radix: u8, max: int)
    requires
        2 <= radix <= 36,
        1 <= max,
        s.len() > 0,
        all_digits(s, radix),
        base_value(s, radix) > max,
    ensures
        parse_unsigned_saturating(s, radix, max) == Some(max),
{
    lemma_scan_unsigned_clamped(s, radix, 0, max);
    assert(s.skip(0) =~= s);
    assert(s.take(0) =~= Seq::<u8>::empty());
}

/// The negative-direction counterpart of `lemma_scan_unsigned_clamped`.
proof fn lemma_scan_negative_clamped(s: Seq<u8>, radix: u8, i: int, min: int)
    requires
        2 <= radix <= 36,
        0 <= i <= s.len(),
        all_digits(s, radix),
        -base_value(s, radix) < min,
        min <= -1,
    ensures
        sat_scan_negative(
            s.skip(i),
            radix,
            clip_at_min(-base_value(s.take(i), radix), min),
            min,
        ) == Some(min),
    decreases s.len() - i,
{
    if i == s.len() {
        assert(s.skip(i) =~= Seq::<u8>::empty());
        assert(s.take(i) =~= s);
    } else {
        assert(is_digit(s[i], radix));
        lemma_base_value_step(s, radix, i);
        lemma_base_value_nonneg(s.take(i), radix);
        assert(s.skip(i)[0] == s[i]);
        assert(s.skip(i).skip(1) =~= s.skip(i + 1));
        assert((-base_value(s.take(i), radix)) * radix == -(base_value(s.take(i), radix)
            * radix) && base_value(s.take(i), radix) * radix >= 0) by (nonlinear_arith)
            requires
                base_value(s.take(i), radix) >= 0,
                radix >= 2,
        ;
        if -base_value(s.take(i), radix) < min {
            assert(min * radix < min) by (nonlinear_arith)
                requires
                    min <= -1,
                    2 <= radix,
            ;
        } else if clip_at_min(-base_value(s.take(i), radix), min) * radix < min {
        } else {
            lemma_scan_negative_clamped(s, radix, i + 1, min);
        }
    }
}

/// When a `'-'`-signed all-digit string reaches below what the type can
/// hold, saturating signed parsing returns exactly the minimum.
pub proof fn lemma_saturating_clamps_signed(s: Seq<u8>, radix: u8, min: int, max: int)
    requires
        2 <= radix <= 36,
        min <= -1,
        s.len() > 1,
        s[0] == MINUS_BYTE,
        all_digits(s.skip(1), radix),
        -base_value(s.skip(1), radix) < min,
    ensures
        parse_signed_saturating(s, radix, min, max) == Some(min),
{
    lemma_scan_negative_clamped(s.skip(1), radix, 0, min);
    assert(s.skip(1).skip(0) =~= s.skip(1));
    assert(s.skip(1).take(0) =~= Seq::<u8>::empty());
}

/// Wherever strict signed parsing returns a value, saturating signed parsing
/// returns the same value.
pub proof fn lemma_saturating_agrees_signed(s: Seq<u8>, radix: u8, min: int, max: int)
    requires
        2 <= radix <= 36,
        min <= 0 <= max,
    ensures
        parse_signed(s, radix, min, max) is Some ==> parse_signed_saturating(s, radix, min, max)
            == parse_signed(s, radix, min, max),
{
    if parse_signed(s, radix, min, max) is Some {
        if s[0] == PLUS_BYTE {
            lemma_saturating_agrees_unsigned(s.skip(1), radix, max);
        } else if s[0] == MINUS_BYTE {
            lemma_scan_negative_exact(s.skip(1), radix, 0, min);
            assert(s.skip(1).skip(0) =~= s.skip(1));
            assert(s.skip(1).take(0) =~= Seq::<u8>::empty());
        } else {
            lemma_saturating_agrees_unsigned(s, radix, max);
        }
    }
}

} // verus!
