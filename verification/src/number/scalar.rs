//! Numbers of 32 bits.

use vstd::prelude::*;
use vstd::std_specs::cmp::PartialEqSpecImpl;

use crate::number::binary::{Binary, Format};
use crate::number::convert;
use crate::number::root;
use crate::number::wide::Wide;

verus! {

/// A number, held as the bits of its format.
#[derive(Clone, Copy, Debug)]
pub struct Scalar {
    pub bits: u32,
}

impl Scalar {
    /// The sign and the magnitude that the bits stand for.
    pub open spec fn value(self) -> Binary {
        if self.bits >= 0x8000_0000 {
            Binary { negative: true, code: (self.bits - 0x8000_0000) as u64 }
        } else {
            Binary { negative: false, code: self.bits as u64 }
        }
    }

    /// The number that a sign and a magnitude stand for.
    pub open spec fn of(value: Binary) -> Scalar {
        Scalar {
            bits: if value.negative {
                (value.code + 0x8000_0000) as u32
            } else {
                value.code as u32
            },
        }
    }

    pub open spec fn nan(self) -> bool {
        self.value().is_nan(Format::Single)
    }

    pub open spec fn finite(self) -> bool {
        self.value().is_finite(Format::Single)
    }

    #[verifier::opaque]
    pub open spec fn sum(self, other: Scalar) -> Scalar {
        Scalar::of(Format::Single.sum(self.value(), other.value()))
    }

    pub open spec fn difference(self, other: Scalar) -> Scalar {
        self.sum(other.negated())
    }

    #[verifier::opaque]
    pub open spec fn product(self, other: Scalar) -> Scalar {
        Scalar::of(Format::Single.product(self.value(), other.value()))
    }

    #[verifier::opaque]
    pub open spec fn quotient(self, other: Scalar) -> Scalar {
        Scalar::of(Format::Single.quotient(self.value(), other.value()))
    }

    #[verifier::opaque]
    pub open spec fn root(self) -> Scalar {
        Scalar::of(root::root(Format::Single, self.value()))
    }

    pub open spec fn negated(self) -> Scalar {
        let value = self.value();
        Scalar::of(Binary { negative: !value.negative, code: value.code })
    }

    pub open spec fn size(self) -> Scalar {
        Scalar::of(Binary { negative: false, code: self.value().code })
    }

    /// `self < other`: false where either is no number.
    pub open spec fn below(self, other: Scalar) -> bool {
        !self.nan() && !other.nan() && self.value().rank() < other.value().rank()
    }

    /// `self <= other`: false where either is no number.
    pub open spec fn at_most(self, other: Scalar) -> bool {
        !self.nan() && !other.nan() && self.value().rank() <= other.value().rank()
    }

    /// `self == other`: both zeros are equal, and no number equals nothing.
    pub open spec fn same(self, other: Scalar) -> bool {
        !self.nan() && !other.nan() && self.value().rank() == other.value().rank()
    }

    /// Whether the number lies in a closed range.
    pub open spec fn within(self, low: Scalar, high: Scalar) -> bool {
        low.at_most(self) && self.at_most(high)
    }

    /// The number held within bounds; what is no number stays.
    pub open spec fn clamped(self, low: Scalar, high: Scalar) -> Scalar {
        if self.below(low) {
            low
        } else if high.below(self) {
            high
        } else {
            self
        }
    }

    /// The smaller of two numbers, or the one that is a number.
    pub open spec fn lesser(self, other: Scalar) -> Scalar {
        if self.nan() || other.below(self) {
            other
        } else {
            self
        }
    }

    /// The larger of two numbers, or the one that is a number.
    pub open spec fn greater(self, other: Scalar) -> Scalar {
        if self.nan() || self.below(other) {
            other
        } else {
            self
        }
    }

    /// The number nearest to an integer.
    pub open spec fn integer(n: int) -> Scalar {
        Scalar::of(convert::of_integer(Format::Single, n))
    }

    pub fn from_bits(bits: u32) -> (number: Scalar)
        ensures
            number.bits == bits,
    {
        Scalar { bits }
    }

    pub fn to_bits(self) -> (bits: u32)
        ensures
            bits == self.bits,
    {
        self.bits
    }

    pub(crate) fn unpack(self) -> (value: Binary)
        ensures
            value == self.value(),
    {
        if self.bits >= 0x8000_0000 {
            Binary { negative: true, code: (self.bits - 0x8000_0000) as u64 }
        } else {
            Binary { negative: false, code: self.bits as u64 }
        }
    }

    pub(crate) fn pack(value: Binary) -> (number: Scalar)
        requires
            value.code < 0x8000_0000,
        ensures
            number == Scalar::of(value),
    {
        if value.negative {
            Scalar { bits: value.code as u32 + 0x8000_0000 }
        } else {
            Scalar { bits: value.code as u32 }
        }
    }

    pub fn is_nan(self) -> (result: bool)
        ensures
            result == self.nan(),
    {
        self.unpack().code > Format::Single.infinity_code()
    }

    pub fn is_finite(self) -> (result: bool)
        ensures
            result == self.finite(),
    {
        self.unpack().code < Format::Single.infinity_code()
    }

    pub fn plus(self, other: Scalar) -> (result: Scalar)
        ensures
            result == self.sum(other),
    {
        proof {
            reveal(Scalar::sum);
        }
        Scalar::pack(Format::Single.plus(self.unpack(), other.unpack()))
    }

    pub fn minus(self, other: Scalar) -> (result: Scalar)
        ensures
            result == self.difference(other),
    {
        self.plus(other.negate())
    }

    pub fn times(self, other: Scalar) -> (result: Scalar)
        ensures
            result == self.product(other),
    {
        proof {
            reveal(Scalar::product);
        }
        Scalar::pack(Format::Single.times(self.unpack(), other.unpack()))
    }

    pub fn over(self, other: Scalar) -> (result: Scalar)
        ensures
            result == self.quotient(other),
    {
        proof {
            reveal(Scalar::quotient);
        }
        Scalar::pack(Format::Single.over(self.unpack(), other.unpack()))
    }

    pub fn sqrt(self) -> (result: Scalar)
        ensures
            result == self.root(),
    {
        proof {
            reveal(Scalar::root);
        }
        Scalar::pack(root::square_root(Format::Single, self.unpack()))
    }

    pub fn negate(self) -> (result: Scalar)
        ensures
            result == self.negated(),
    {
        let value: Binary = self.unpack();
        Scalar::pack(Binary { negative: !value.negative, code: value.code })
    }

    pub fn abs(self) -> (result: Scalar)
        ensures
            result == self.size(),
    {
        Scalar::pack(Binary { negative: false, code: self.unpack().code })
    }

    /// The position in the order of numbers.
    fn position(self) -> (rank: i128)
        ensures
            rank == self.value().rank(),
    {
        let value: Binary = self.unpack();
        if value.negative {
            0 - value.code as i128
        } else {
            value.code as i128
        }
    }

    pub fn less(self, other: Scalar) -> (result: bool)
        ensures
            result == self.below(other),
    {
        !self.is_nan() && !other.is_nan() && self.position() < other.position()
    }

    pub fn less_or_equal(self, other: Scalar) -> (result: bool)
        ensures
            result == self.at_most(other),
    {
        !self.is_nan() && !other.is_nan() && self.position() <= other.position()
    }

    pub fn equals(self, other: Scalar) -> (result: bool)
        ensures
            result == self.same(other),
    {
        !self.is_nan() && !other.is_nan() && self.position() == other.position()
    }

    pub fn contained(self, low: Scalar, high: Scalar) -> (result: bool)
        ensures
            result == self.within(low, high),
    {
        low.less_or_equal(self) && self.less_or_equal(high)
    }

    pub fn clamp(self, low: Scalar, high: Scalar) -> (result: Scalar)
        requires
            low.at_most(high),
        ensures
            result == self.clamped(low, high),
    {
        if self.less(low) {
            low
        } else if high.less(self) {
            high
        } else {
            self
        }
    }

    pub fn min(self, other: Scalar) -> (result: Scalar)
        ensures
            result == self.lesser(other),
    {
        if self.is_nan() || other.less(self) {
            other
        } else {
            self
        }
    }

    pub fn max(self, other: Scalar) -> (result: Scalar)
        ensures
            result == self.greater(other),
    {
        if self.is_nan() || self.less(other) {
            other
        } else {
            self
        }
    }

    pub fn from_integer(n: i64) -> (result: Scalar)
        ensures
            result == Scalar::integer(n as int),
    {
        Scalar::pack(convert::from_integer(Format::Single, n))
    }

    /// Rounds to the nearest integer, halves away from zero, within the range
    /// of the result.
    pub fn round_to_u32(self) -> (result: u32)
        ensures
            result == self.nearest_within(0, u32::MAX as int),
    {
        convert::round_to_u32(Format::Single, self.unpack())
    }

    /// The nearest integer, held within bounds.
    pub open spec fn nearest_within(self, low: int, high: int) -> int {
        convert::into_bounds(
            Format::Single,
            self.value(),
            convert::nearest_integer(Format::Single, self.value()),
            low,
            high,
        )
    }

    /// The same number in the wide format.
    pub open spec fn widened(self) -> Wide {
        Wide::of(convert::widened(self.value()))
    }

    pub fn widen(self) -> (result: Wide)
        ensures
            result == self.widened(),
    {
        Wide::pack(convert::widen(self.unpack()))
    }

    /// The largest integer not above the number, held within the range of the
    /// result.
    pub open spec fn floor_within(self, low: int, high: int) -> int {
        convert::into_bounds(
            Format::Single,
            self.value(),
            convert::floor_integer(Format::Single, self.value()),
            low,
            high,
        )
    }

    /// The smallest integer not below the number, held within the range of the
    /// result.
    pub open spec fn ceiling_within(self, low: int, high: int) -> int {
        convert::into_bounds(
            Format::Single,
            self.value(),
            convert::ceiling_integer(Format::Single, self.value()),
            low,
            high,
        )
    }

    pub fn floor_to_i32(self) -> (result: i32)
        ensures
            result == self.floor_within(i32::MIN as int, i32::MAX as int),
    {
        convert::floor_to_i32(Format::Single, self.unpack())
    }

    pub fn ceil_to_i32(self) -> (result: i32)
        ensures
            result == self.ceiling_within(i32::MIN as int, i32::MAX as int),
    {
        convert::ceil_to_i32(Format::Single, self.unpack())
    }

    pub fn round_to_i32(self) -> (result: i32)
        ensures
            result == self.nearest_within(i32::MIN as int, i32::MAX as int),
    {
        convert::round_to_i32(Format::Single, self.unpack())
    }
}

impl PartialEq for Scalar {
    fn eq(&self, other: &Scalar) -> (result: bool) {
        self.equals(*other)
    }
}

impl PartialEqSpecImpl for Scalar {
    open spec fn obeys_eq_spec() -> bool {
        true
    }

    open spec fn eq_spec(&self, other: &Scalar) -> bool {
        self.same(*other)
    }
}

} // verus!
