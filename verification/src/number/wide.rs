//! Numbers of 64 bits.

use vstd::prelude::*;
use vstd::std_specs::cmp::PartialEqSpecImpl;

use crate::number::binary::{Binary, Format};
use crate::number::convert;
use crate::number::root;
use crate::number::scalar::Scalar;

verus! {

/// A number, held as the bits of its format.
#[derive(Clone, Copy, Debug)]
pub struct Wide {
    pub bits: u64,
}

impl Wide {
    /// The sign and the magnitude that the bits stand for.
    pub open spec fn value(self) -> Binary {
        if self.bits >= 0x8000_0000_0000_0000 {
            Binary { negative: true, code: (self.bits - 0x8000_0000_0000_0000) as u64 }
        } else {
            Binary { negative: false, code: self.bits as u64 }
        }
    }

    /// The number that a sign and a magnitude stand for.
    pub open spec fn of(value: Binary) -> Wide {
        Wide {
            bits: if value.negative {
                (value.code + 0x8000_0000_0000_0000) as u64
            } else {
                value.code as u64
            },
        }
    }

    pub open spec fn nan(self) -> bool {
        self.value().is_nan(Format::Double)
    }

    pub open spec fn finite(self) -> bool {
        self.value().is_finite(Format::Double)
    }

    #[verifier::opaque]
    pub open spec fn sum(self, other: Wide) -> Wide {
        Wide::of(Format::Double.sum(self.value(), other.value()))
    }

    pub open spec fn difference(self, other: Wide) -> Wide {
        self.sum(other.negated())
    }

    #[verifier::opaque]
    pub open spec fn product(self, other: Wide) -> Wide {
        Wide::of(Format::Double.product(self.value(), other.value()))
    }

    #[verifier::opaque]
    pub open spec fn quotient(self, other: Wide) -> Wide {
        Wide::of(Format::Double.quotient(self.value(), other.value()))
    }

    #[verifier::opaque]
    pub open spec fn root(self) -> Wide {
        Wide::of(root::root(Format::Double, self.value()))
    }

    pub open spec fn negated(self) -> Wide {
        let value = self.value();
        Wide::of(Binary { negative: !value.negative, code: value.code })
    }

    pub open spec fn size(self) -> Wide {
        Wide::of(Binary { negative: false, code: self.value().code })
    }

    /// `self < other`: false where either is no number.
    pub open spec fn below(self, other: Wide) -> bool {
        !self.nan() && !other.nan() && self.value().rank() < other.value().rank()
    }

    /// `self <= other`: false where either is no number.
    pub open spec fn at_most(self, other: Wide) -> bool {
        !self.nan() && !other.nan() && self.value().rank() <= other.value().rank()
    }

    /// `self == other`: both zeros are equal, and no number equals nothing.
    pub open spec fn same(self, other: Wide) -> bool {
        !self.nan() && !other.nan() && self.value().rank() == other.value().rank()
    }

    /// Whether the number lies in a closed range.
    pub open spec fn within(self, low: Wide, high: Wide) -> bool {
        low.at_most(self) && self.at_most(high)
    }

    /// The number held within bounds; what is no number stays.
    pub open spec fn clamped(self, low: Wide, high: Wide) -> Wide {
        if self.below(low) {
            low
        } else if high.below(self) {
            high
        } else {
            self
        }
    }

    /// The smaller of two numbers, or the one that is a number.
    pub open spec fn lesser(self, other: Wide) -> Wide {
        if self.nan() || other.below(self) {
            other
        } else {
            self
        }
    }

    /// The larger of two numbers, or the one that is a number.
    pub open spec fn greater(self, other: Wide) -> Wide {
        if self.nan() || self.below(other) {
            other
        } else {
            self
        }
    }

    /// The number nearest to an integer.
    pub open spec fn integer(n: int) -> Wide {
        Wide::of(convert::of_integer(Format::Double, n))
    }

    pub fn from_bits(bits: u64) -> (number: Wide)
        ensures
            number.bits == bits,
    {
        Wide { bits }
    }

    pub fn to_bits(self) -> (bits: u64)
        ensures
            bits == self.bits,
    {
        self.bits
    }

    pub(crate) fn unpack(self) -> (value: Binary)
        ensures
            value == self.value(),
    {
        if self.bits >= 0x8000_0000_0000_0000 {
            Binary { negative: true, code: (self.bits - 0x8000_0000_0000_0000) as u64 }
        } else {
            Binary { negative: false, code: self.bits as u64 }
        }
    }

    pub(crate) fn pack(value: Binary) -> (number: Wide)
        requires
            value.code < 0x8000_0000_0000_0000,
        ensures
            number == Wide::of(value),
    {
        if value.negative {
            Wide { bits: value.code as u64 + 0x8000_0000_0000_0000 }
        } else {
            Wide { bits: value.code as u64 }
        }
    }

    pub fn is_nan(self) -> (result: bool)
        ensures
            result == self.nan(),
    {
        self.unpack().code > Format::Double.infinity_code()
    }

    pub fn is_finite(self) -> (result: bool)
        ensures
            result == self.finite(),
    {
        self.unpack().code < Format::Double.infinity_code()
    }

    pub fn plus(self, other: Wide) -> (result: Wide)
        ensures
            result == self.sum(other),
    {
        proof {
            reveal(Wide::sum);
        }
        Wide::pack(Format::Double.plus(self.unpack(), other.unpack()))
    }

    pub fn minus(self, other: Wide) -> (result: Wide)
        ensures
            result == self.difference(other),
    {
        self.plus(other.negate())
    }

    pub fn times(self, other: Wide) -> (result: Wide)
        ensures
            result == self.product(other),
    {
        proof {
            reveal(Wide::product);
        }
        Wide::pack(Format::Double.times(self.unpack(), other.unpack()))
    }

    pub fn over(self, other: Wide) -> (result: Wide)
        ensures
            result == self.quotient(other),
    {
        proof {
            reveal(Wide::quotient);
        }
        Wide::pack(Format::Double.over(self.unpack(), other.unpack()))
    }

    pub fn sqrt(self) -> (result: Wide)
        ensures
            result == self.root(),
    {
        proof {
            reveal(Wide::root);
        }
        Wide::pack(root::square_root(Format::Double, self.unpack()))
    }

    pub fn negate(self) -> (result: Wide)
        ensures
            result == self.negated(),
    {
        let value: Binary = self.unpack();
        Wide::pack(Binary { negative: !value.negative, code: value.code })
    }

    pub fn abs(self) -> (result: Wide)
        ensures
            result == self.size(),
    {
        Wide::pack(Binary { negative: false, code: self.unpack().code })
    }

    /// The position in the order of numbers.
    fn position(self) -> (rank: i128)
        ensures
            rank == self.value().rank(),
    {
        let value: Binary = self.unpack();
        if value.negative {
            0 - value.code as i128
        } else {
            value.code as i128
        }
    }

    pub fn less(self, other: Wide) -> (result: bool)
        ensures
            result == self.below(other),
    {
        !self.is_nan() && !other.is_nan() && self.position() < other.position()
    }

    pub fn less_or_equal(self, other: Wide) -> (result: bool)
        ensures
            result == self.at_most(other),
    {
        !self.is_nan() && !other.is_nan() && self.position() <= other.position()
    }

    pub fn equals(self, other: Wide) -> (result: bool)
        ensures
            result == self.same(other),
    {
        !self.is_nan() && !other.is_nan() && self.position() == other.position()
    }

    pub fn contained(self, low: Wide, high: Wide) -> (result: bool)
        ensures
            result == self.within(low, high),
    {
        low.less_or_equal(self) && self.less_or_equal(high)
    }

    pub fn clamp(self, low: Wide, high: Wide) -> (result: Wide)
        requires
            low.at_most(high),
        ensures
            result == self.clamped(low, high),
    {
        if self.less(low) {
            low
        } else if high.less(self) {
            high
        } else {
            self
        }
    }

    pub fn min(self, other: Wide) -> (result: Wide)
        ensures
            result == self.lesser(other),
    {
        if self.is_nan() || other.less(self) {
            other
        } else {
            self
        }
    }

    pub fn max(self, other: Wide) -> (result: Wide)
        ensures
            result == self.greater(other),
    {
        if self.is_nan() || self.less(other) {
            other
        } else {
            self
        }
    }

    pub fn from_integer(n: i64) -> (result: Wide)
        ensures
            result == Wide::integer(n as int),
    {
        Wide::pack(convert::from_integer(Format::Double, n))
    }

    /// Rounds to the nearest integer, halves away from zero, within the range
    /// of the result.
    pub fn round_to_u32(self) -> (result: u32)
        ensures
            result == self.nearest_within(0, u32::MAX as int),
    {
        convert::round_to_u32(Format::Double, self.unpack())
    }

    /// The nearest integer, held within bounds.
    pub open spec fn nearest_within(self, low: int, high: int) -> int {
        convert::into_bounds(
            Format::Double,
            self.value(),
            convert::nearest_integer(Format::Double, self.value()),
            low,
            high,
        )
    }

    /// The nearest number in the narrow format.
    pub open spec fn narrowed(self) -> Scalar {
        Scalar::of(convert::narrowed(self.value()))
    }

    pub fn narrow(self) -> (result: Scalar)
        ensures
            result == self.narrowed(),
    {
        Scalar::pack(convert::narrow(self.unpack()))
    }

    /// The largest integer not above the number, held within the range of the
    /// result.
    pub open spec fn floor_within(self, low: int, high: int) -> int {
        convert::into_bounds(
            Format::Double,
            self.value(),
            convert::floor_integer(Format::Double, self.value()),
            low,
            high,
        )
    }

    /// The smallest integer not below the number, held within the range of the
    /// result.
    pub open spec fn ceiling_within(self, low: int, high: int) -> int {
        convert::into_bounds(
            Format::Double,
            self.value(),
            convert::ceiling_integer(Format::Double, self.value()),
            low,
            high,
        )
    }

    /// The number without its fraction, held within the range of the result.
    pub open spec fn truncated_within(self, low: int, high: int) -> int {
        convert::into_bounds(
            Format::Double,
            self.value(),
            convert::truncated_integer(Format::Double, self.value()),
            low,
            high,
        )
    }

    pub fn round_to_i32(self) -> (result: i32)
        ensures
            result == self.nearest_within(i32::MIN as int, i32::MAX as int),
    {
        convert::round_to_i32(Format::Double, self.unpack())
    }

    pub fn floor_to_i32(self) -> (result: i32)
        ensures
            result == self.floor_within(i32::MIN as int, i32::MAX as int),
    {
        convert::floor_to_i32(Format::Double, self.unpack())
    }

    pub fn ceil_to_i32(self) -> (result: i32)
        ensures
            result == self.ceiling_within(i32::MIN as int, i32::MAX as int),
    {
        convert::ceil_to_i32(Format::Double, self.unpack())
    }

    pub fn truncate_to_i32(self) -> (result: i32)
        ensures
            result == self.truncated_within(i32::MIN as int, i32::MAX as int),
    {
        convert::truncate_to_i32(Format::Double, self.unpack())
    }
}

impl PartialEq for Wide {
    fn eq(&self, other: &Wide) -> (result: bool) {
        self.equals(*other)
    }
}

impl PartialEqSpecImpl for Wide {
    open spec fn obeys_eq_spec() -> bool {
        true
    }

    open spec fn eq_spec(&self, other: &Wide) -> bool {
        self.same(*other)
    }
}

} // verus!
