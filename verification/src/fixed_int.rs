//! The capability a fixed-width integer type must offer to serve as the
//! parsing accumulator: a zero, checked multiply/add/subtract, saturating
//! add/subtract, and its representable bounds — each tied to the value the
//! machine integer stands for.

use vstd::prelude::*;

verus! {

/// A fixed-width machine integer, seen through its mathematical value
/// `as_int()` and its representable range `[min_spec(), max_spec()]`.
pub trait FixedInt: Copy + Sized {
    /// The mathematical value this machine integer stands for.
    spec fn as_int(self) -> int;

    /// The smallest representable value.
    spec fn min_spec() -> int;

    /// The largest representable value.
    spec fn max_spec() -> int;

    /// Every value lies within the representable range.
    proof fn lemma_in_range(self)
        ensures
            Self::min_spec() <= self.as_int() <= Self::max_spec(),
    ;

    /// The range always covers zero and every radix up to 36.
    proof fn lemma_range_shape()
        ensures
            Self::min_spec() <= 0,
            Self::max_spec() >= 36,
    ;

    /// The zero value.
    fn zero() -> (r: Self)
        ensures
            r.as_int() == 0,
    ;

    /// The value of a small nonnegative quantity, which must fit.
    fn from_u8(v: u8) -> (r: Self)
        requires
            v as int <= Self::max_spec(),
        ensures
            r.as_int() == v as int,
    ;

    /// Multiplication that reports absence instead of wrapping.
    fn checked_mul(self, rhs: Self) -> (r: Option<Self>)
        ensures
            r matches Some(v) ==> Self::min_spec() <= self.as_int() * rhs.as_int()
                <= Self::max_spec() && v.as_int() == self.as_int() * rhs.as_int(),
            r is None ==> !(Self::min_spec() <= self.as_int() * rhs.as_int()
                <= Self::max_spec()),
    ;

    /// Addition that reports absence instead of wrapping.
    fn checked_add(self, rhs: Self) -> (r: Option<Self>)
        ensures
            r matches Some(v) ==> Self::min_spec() <= self.as_int() + rhs.as_int()
                <= Self::max_spec() && v.as_int() == self.as_int() + rhs.as_int(),
            r is None ==> !(Self::min_spec() <= self.as_int() + rhs.as_int()
                <= Self::max_spec()),
    ;

    /// Subtraction that reports absence instead of wrapping.
    fn checked_sub(self, rhs: Self) -> (r: Option<Self>)
        ensures
            r matches Some(v) ==> Self::min_spec() <= self.as_int() - rhs.as_int()
                <= Self::max_spec() && v.as_int() == self.as_int() - rhs.as_int(),
            r is None ==> !(Self::min_spec() <= self.as_int() - rhs.as_int()
                <= Self::max_spec()),
    ;

    /// Addition that clamps to the representable bounds instead of wrapping.
    fn saturating_add(self, rhs: Self) -> (r: Self)
        ensures
            self.as_int() + rhs.as_int() > Self::max_spec() ==> r.as_int() == Self::max_spec(),
            self.as_int() + rhs.as_int() < Self::min_spec() ==> r.as_int() == Self::min_spec(),
            Self::min_spec() <= self.as_int() + rhs.as_int() <= Self::max_spec() ==> r.as_int()
                == self.as_int() + rhs.as_int(),
    ;

    /// Subtraction that clamps to the representable bounds instead of wrapping.
    fn saturating_sub(self, rhs: Self) -> (r: Self)
        ensures
            self.as_int() - rhs.as_int() > Self::max_spec() ==> r.as_int() == Self::max_spec(),
            self.as_int() - rhs.as_int() < Self::min_spec() ==> r.as_int() == Self::min_spec(),
            Self::min_spec() <= self.as_int() - rhs.as_int() <= Self::max_spec() ==> r.as_int()
                == self.as_int() - rhs.as_int(),
    ;

    /// The largest representable value.
    fn max_value() -> (r: Self)
        ensures
            r.as_int() == Self::max_spec(),
    ;

    /// The smallest representable value.
    fn min_value() -> (r: Self)
        ensures
            r.as_int() == Self::min_spec(),
    ;
}

impl FixedInt for u8 {
    open spec fn as_int(self) -> int {
        self as int
    }

    open spec fn min_spec() -> int {
        u8::MIN as int
    }

    open spec fn max_spec() -> int {
        u8::MAX as int
    }

    proof fn lemma_in_range(self) {
    }

    proof fn lemma_range_shape() {
    }

    fn zero() -> Self {
        0
    }

    fn from_u8(v: u8) -> Self {
        v
    }

    fn checked_mul(self, rhs: Self) -> Option<Self> {
        u8::checked_mul(self, rhs)
    }

    fn checked_add(self, rhs: Self) -> Option<Self> {
        u8::checked_add(self, rhs)
    }

    fn checked_sub(self, rhs: Self) -> Option<Self> {
        u8::checked_sub(self, rhs)
    }

    fn saturating_add(self, rhs: Self) -> Self {
        u8::saturating_add(self, rhs)
    }

    fn saturating_sub(self, rhs: Self) -> Self {
        u8::saturating_sub(self, rhs)
    }

    fn max_value() -> Self {
        u8::MAX
    }

    fn min_value() -> Self {
        u8::MIN
    }
}

impl FixedInt for i8 {
    open spec fn as_int(self) -> int {
        self as int
    }

    open spec fn min_spec() -> int {
        i8::MIN as int
    }

    open spec fn max_spec() -> int {
        i8::MAX as int
    }

    proof fn lemma_in_range(self) {
    }

    proof fn lemma_range_shape() {
    }

    fn zero() -> Self {
        0
    }

    fn from_u8(v: u8) -> Self {
        v as i8
    }

    fn checked_mul(self, rhs: Self) -> Option<Self> {
        i8::checked_mul(self, rhs)
    }

    fn checked_add(self, rhs: Self) -> Option<Self> {
        i8::checked_add(self, rhs)
    }

    fn checked_sub(self, rhs: Self) -> Option<Self> {
        i8::checked_sub(self, rhs)
    }

    fn saturating_add(self, rhs: Self) -> Self {
        match i8::checked_add(self, rhs) {
            Some(v) => v,
            None => if rhs >= 0 {
                i8::MAX
            } else {
                i8::MIN
            },
        }
    }

    fn saturating_sub(self, rhs: Self) -> Self {
        match i8::checked_sub(self, rhs) {
            Some(v) => v,
            None => if rhs >= 0 {
                i8::MIN
            } else {
                i8::MAX
            },
        }
    }

    fn max_value() -> Self {
        i8::MAX
    }

    fn min_value() -> Self {
        i8::MIN
    }
}

impl FixedInt for u16 {
    open spec fn as_int(self) -> int {
        self as int
    }

    open spec fn min_spec() -> int {
        u16::MIN as int
    }

    open spec fn max_spec() -> int {
        u16::MAX as int
    }

    proof fn lemma_in_range(self) {
    }

    proof fn lemma_range_shape() {
    }

    fn zero() -> Self {
        0
    }

    fn from_u8(v: u8) -> Self {
        v as u16
    }

    fn checked_mul(self, rhs: Self) -> Option<Self> {
        u16::checked_mul(self, rhs)
    }

    fn checked_add(self, rhs: Self) -> Option<Self> {
        u16::checked_add(self, rhs)
    }

    fn checked_sub(self, rhs: Self) -> Option<Self> {
        u16::checked_sub(self, rhs)
    }

    fn saturating_add(self, rhs: Self) -> Self {
        u16::saturating_add(self, rhs)
    }

    fn saturating_sub(self, rhs: Self) -> Self {
        u16::saturating_sub(self, rhs)
    }

    fn max_value() -> Self {
        u16::MAX
    }

    fn min_value() -> Self {
        u16::MIN
    }
}

impl FixedInt for u32 {
    open spec fn as_int(self) -> int {
        self as int
    }

    open spec fn min_spec() -> int {
        u32::MIN as int
    }

    open spec fn max_spec() -> int {
        u32::MAX as int
    }

    proof fn lemma_in_range(self) {
    }

    proof fn lemma_range_shape() {
    }

    fn zero() -> Self {
        0
    }

    fn from_u8(v: u8) -> Self {
        v as u32
    }

    fn checked_mul(self, rhs: Self) -> Option<Self> {
        u32::checked_mul(self, rhs)
    }

    fn checked_add(self, rhs: Self) -> Option<Self> {
        u32::checked_add(self, rhs)
    }

    fn checked_sub(self, rhs: Self) -> Option<Self> {
        u32::checked_sub(self, rhs)
    }

    fn saturating_add(self, rhs: Self) -> Self {
        u32::saturating_add(self, rhs)
    }

    fn saturating_sub(self, rhs: Self) -> Self {
        u32::saturating_sub(self, rhs)
    }

    fn max_value() -> Self {
        u32::MAX
    }

    fn min_value() -> Self {
        u32::MIN
    }
}

impl FixedInt for u64 {
    open spec fn as_int(self) -> int {
        self as int
    }

    open spec fn min_spec() -> int {
        u64::MIN as int
    }

    open spec fn max_spec() -> int {
        u64::MAX as int
    }

    proof fn lemma_in_range(self) {
    }

    proof fn lemma_range_shape() {
    }

    fn zero() -> Self {
        0
    }

    fn from_u8(v: u8) -> Self {
        v as u64
    }

    fn checked_mul(self, rhs: Self) -> Option<Self> {
        u64::checked_mul(self, rhs)
    }

    fn checked_add(self, rhs: Self) -> Option<Self> {
        u64::checked_add(self, rhs)
    }

    fn checked_sub(self, rhs: Self) -> Option<Self> {
        u64::checked_sub(self, rhs)
    }

    fn saturating_add(self, rhs: Self) -> Self {
        u64::saturating_add(self, rhs)
    }

    fn saturating_sub(self, rhs: Self) -> Self {
        u64::saturating_sub(self, rhs)
    }

    fn max_value() -> Self {
        u64::MAX
    }

    fn min_value() -> Self {
        u64::MIN
    }
}

impl FixedInt for u128 {
    open spec fn as_int(self) -> int {
        self as int
    }

    open spec fn min_spec() -> int {
        u128::MIN as int
    }

    open spec fn max_spec() -> int {
        u128::MAX as int
    }

    proof fn lemma_in_range(self) {
    }

    proof fn lemma_range_shape() {
    }

    fn zero() -> Self {
        0
    }

    fn from_u8(v: u8) -> Self {
        v as u128
    }

    fn checked_mul(self, rhs: Self) -> Option<Self> {
        u128::checked_mul(self, rhs)
    }

    fn checked_add(self, rhs: Self) -> Option<Self> {
        u128::checked_add(self, rhs)
    }

    fn checked_sub(self, rhs: Self) -> Option<Self> {
        u128::checked_sub(self, rhs)
    }

    fn saturating_add(self, rhs: Self) -> Self {
        u128::saturating_add(self, rhs)
    }

    fn saturating_sub(self, rhs: Self) -> Self {
        u128::saturating_sub(self, rhs)
    }

    fn max_value() -> Self {
        u128::MAX
    }

    fn min_value() -> Self {
        u128::MIN
    }
}

impl FixedInt for usize {
    open spec fn as_int(self) -> int {
        self as int
    }

    open spec fn min_spec() -> int {
        usize::MIN as int
    }

    open spec fn max_spec() -> int {
        usize::MAX as int
    }

    proof fn lemma_in_range(self) {
    }

    proof fn lemma_range_shape() {
    }

    fn zero() -> Self {
        0
    }

    fn from_u8(v: u8) -> Self {
        v as usize
    }

    fn checked_mul(self, rhs: Self) -> Option<Self> {
        usize::checked_mul(self, rhs)
    }

    fn checked_add(self, rhs: Self) -> Option<Self> {
        usize::checked_add(self, rhs)
    }

    fn checked_sub(self, rhs: Self) -> Option<Self> {
        usize::checked_sub(self, rhs)
    }

    fn saturating_add(self, rhs: Self) -> Self {
        usize::saturating_add(self, rhs)
    }

    fn saturating_sub(self, rhs: Self) -> Self {
        usize::saturating_sub(self, rhs)
    }

    fn max_value() -> Self {
        usize::MAX
    }

    fn min_value() -> Self {
        usize::MIN
    }
}

impl FixedInt for i16 {
    open spec fn as_int(self) -> int {
        self as int
    }

    open spec fn min_spec() -> int {
        i16::MIN as int
    }

    open spec fn max_spec() -> int {
        i16::MAX as int
    }

    proof fn lemma_in_range(self) {
    }

    proof fn lemma_range_shape() {
    }

    fn zero() -> Self {
        0
    }

    fn from_u8(v: u8) -> Self {
        v as i16
    }

    fn checked_mul(self, rhs: Self) -> Option<Self> {
        i16::checked_mul(self, rhs)
    }

    fn checked_add(self, rhs: Self) -> Option<Self> {
        i16::checked_add(self, rhs)
    }

    fn checked_sub(self, rhs: Self) -> Option<Self> {
        i16::checked_sub(self, rhs)
    }

    fn saturating_add(self, rhs: Self) -> Self {
        match i16::checked_add(self, rhs) {
            Some(v) => v,
            None => if rhs >= 0 {
                i16::MAX
            } else {
                i16::MIN
            },
        }
    }

    fn saturating_sub(self, rhs: Self) -> Self {
        match i16::checked_sub(self, rhs) {
            Some(v) => v,
            None => if rhs >= 0 {
                i16::MIN
            } else {
                i16::MAX
            },
        }
    }

    fn max_value() -> Self {
        i16::MAX
    }

    fn min_value() -> Self {
        i16::MIN
    }
}

impl FixedInt for i32 {
    open spec fn as_int(self) -> int {
        self as int
    }

    open spec fn min_spec() -> int {
        i32::MIN as int
    }

    open spec fn max_spec() -> int {
        i32::MAX as int
    }

    proof fn lemma_in_range(self) {
    }

    proof fn lemma_range_shape() {
    }

    fn zero() -> Self {
        0
    }

    fn from_u8(v: u8) -> Self {
        v as i32
    }

    fn checked_mul(self, rhs: Self) -> Option<Self> {
        i32::checked_mul(self, rhs)
    }

    fn checked_add(self, rhs: Self) -> Option<Self> {
        i32::checked_add(self, rhs)
    }

    fn checked_sub(self, rhs: Self) -> Option<Self> {
        i32::checked_sub(self, rhs)
    }

    fn saturating_add(self, rhs: Self) -> Self {
        match i32::checked_add(self, rhs) {
            Some(v) => v,
            None => if rhs >= 0 {
                i32::MAX
            } else {
                i32::MIN
            },
        }
    }

    fn saturating_sub(self, rhs: Self) -> Self {
        match i32::checked_sub(self, rhs) {
            Some(v) => v,
            None => if rhs >= 0 {
                i32::MIN
            } else {
                i32::MAX
            },
        }
    }

    fn max_value() -> Self {
        i32::MAX
    }

    fn min_value() -> Self {
        i32::MIN
    }
}

impl FixedInt for i64 {
    open spec fn as_int(self) -> int {
        self as int
    }

    open spec fn min_spec() -> int {
        i64::MIN as int
    }

    open spec fn max_spec() -> int {
        i64::MAX as int
    }

    proof fn lemma_in_range(self) {
    }

    proof fn lemma_range_shape() {
    }

    fn zero() -> Self {
        0
    }

    fn from_u8(v: u8) -> Self {
        v as i64
    }

    fn checked_mul(self, rhs: Self) -> Option<Self> {
        i64::checked_mul(self, rhs)
    }

    fn checked_add(self, rhs: Self) -> Option<Self> {
        i64::checked_add(self, rhs)
    }

    fn checked_sub(self, rhs: Self) -> Option<Self> {
        i64::checked_sub(self, rhs)
    }

    fn saturating_add(self, rhs: Self) -> Self {
        match i64::checked_add(self, rhs) {
            Some(v) => v,
            None => if rhs >= 0 {
                i64::MAX
            } else {
                i64::MIN
            },
        }
    }

    fn saturating_sub(self, rhs: Self) -> Self {
        match i64::checked_sub(self, rhs) {
            Some(v) => v,
            None => if rhs >= 0 {
                i64::MIN
            } else {
                i64::MAX
            },
        }
    }

    fn max_value() -> Self {
        i64::MAX
    }

    fn min_value() -> Self {
        i64::MIN
    }
}

impl FixedInt for i128 {
    open spec fn as_int(self) -> int {
        self as int
    }

    open spec fn min_spec() -> int {
        i128::MIN as int
    }

    open spec fn max_spec() -> int {
        i128::MAX as int
    }

    proof fn lemma_in_range(self) {
    }

    proof fn lemma_range_shape() {
    }

    fn zero() -> Self {
        0
    }

    fn from_u8(v: u8) -> Self {
        v as i128
    }

    fn checked_mul(self, rhs: Self) -> Option<Self> {
        i128::checked_mul(self, rhs)
    }

    fn checked_add(self, rhs: Self) -> Option<Self> {
        i128::checked_add(self, rhs)
    }

    fn checked_sub(self, rhs: Self) -> Option<Self> {
        i128::checked_sub(self, rhs)
    }

    fn saturating_add(self, rhs: Self) -> Self {
        match i128::checked_add(self, rhs) {
            Some(v) => v,
            None => if rhs >= 0 {
                i128::MAX
            } else {
                i128::MIN
            },
        }
    }

    fn saturating_sub(self, rhs: Self) -> Self {
        match i128::checked_sub(self, rhs) {
            Some(v) => v,
            None => if rhs >= 0 {
                i128::MIN
            } else {
                i128::MAX
            },
        }
    }

    fn max_value() -> Self {
        i128::MAX
    }

    fn min_value() -> Self {
        i128::MIN
    }
}

impl FixedInt for isize {
    open spec fn as_int(self) -> int {
        self as int
    }

    open spec fn min_spec() -> int {
        isize::MIN as int
    }

    open spec fn max_spec() -> int {
        isize::MAX as int
    }

    proof fn lemma_in_range(self) {
    }

    proof fn lemma_range_shape() {
    }

    fn zero() -> Self {
        0
    }

    fn from_u8(v: u8) -> Self {
        v as isize
    }

    fn checked_mul(self, rhs: Self) -> Option<Self> {
        isize::checked_mul(self, rhs)
    }

    fn checked_add(self, rhs: Self) -> Option<Self> {
        isize::checked_add(self, rhs)
    }

    fn checked_sub(self, rhs: Self) -> Option<Self> {
        isize::checked_sub(self, rhs)
    }

    fn saturating_add(self, rhs: Self) -> Self {
        match isize::checked_add(self, rhs) {
            Some(v) => v,
            None => if rhs >= 0 {
                isize::MAX
            } else {
                isize::MIN
            },
        }
    }

    fn saturating_sub(self, rhs: Self) -> Self {
        match isize::checked_sub(self, rhs) {
            Some(v) => v,
            None => if rhs >= 0 {
                isize::MIN
            } else {
                isize::MAX
            },
        }
    }

    fn max_value() -> Self {
        isize::MAX
    }

    fn min_value() -> Self {
        isize::MIN
    }
}

} // verus!
