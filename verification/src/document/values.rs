//! The parameters of the editing operations.

use vstd::prelude::*;

use crate::document::inside_laws;
use crate::document::turn_laws;
use crate::number::constants;
use crate::number::laws;
use crate::number::scalar::Scalar;

verus! {

/// What identifies the content of a source image.
#[derive(Clone, Debug, PartialEq, Eq)]
pub struct SourceFingerprint {
    pub byte_len: u64,
    pub modified_unix_ms: Option<u64>,
    pub sample_blake3: String,
    pub width: u32,
    pub height: u32,
}

/// Where a source image lies, and what it held.
#[derive(Clone, Debug, PartialEq, Eq)]
pub struct SourceReference {
    pub path: String,
    pub fingerprint: SourceFingerprint,
}

impl SourceFingerprint {
    /// A copy of the fingerprint.
    pub fn duplicate(&self) -> (copy: SourceFingerprint)
        ensures
            copy == *self,
    {
        SourceFingerprint {
            byte_len: self.byte_len,
            modified_unix_ms: self.modified_unix_ms,
            sample_blake3: self.sample_blake3.clone(),
            width: self.width,
            height: self.height,
        }
    }
}

impl SourceReference {
    /// A copy of the reference.
    pub fn duplicate(&self) -> (copy: SourceReference)
        ensures
            copy == *self,
    {
        SourceReference { path: self.path.clone(), fingerprint: self.fingerprint.duplicate() }
    }
}

/// How the photo is shown: a zoom of zero means fitted to the canvas.
#[derive(Clone, Copy, Debug, PartialEq)]
pub struct ViewState {
    pub zoom: Scalar,
    pub center_x: Scalar,
    pub center_y: Scalar,
}

impl ViewState {
    /// Fitted and centred.
    pub open spec fn initial() -> ViewState {
        ViewState {
            zoom: Scalar { bits: constants::ZERO },
            center_x: Scalar { bits: constants::HALF },
            center_y: Scalar { bits: constants::HALF },
        }
    }
}

impl Default for ViewState {
    fn default() -> (view: ViewState)
        ensures
            view == ViewState::initial(),
    {
        ViewState {
            zoom: Scalar { bits: constants::ZERO },
            center_x: Scalar { bits: constants::HALF },
            center_y: Scalar { bits: constants::HALF },
        }
    }
}

/// A crop in fractions of the image.
#[derive(Clone, Copy, Debug, PartialEq)]
pub struct CropRect {
    pub x: Scalar,
    pub y: Scalar,
    pub width: Scalar,
    pub height: Scalar,
}

/// Whether a number is closer to zero than the precision at one.
pub open spec fn negligible(amount: Scalar) -> bool {
    amount.size().below(Scalar { bits: constants::EPSILON })
}

pub fn is_negligible(amount: Scalar) -> (result: bool)
    ensures
        result == negligible(amount),
{
    amount.abs().less(Scalar { bits: constants::EPSILON })
}

/// Whether two numbers differ by more than the precision at one.
pub open spec fn distinct(before: Scalar, after: Scalar) -> bool {
    (Scalar { bits: constants::EPSILON }).below(before.difference(after).size())
}

pub fn is_distinct(before: Scalar, after: Scalar) -> (result: bool)
    ensures
        result == distinct(before, after),
{
    Scalar { bits: constants::EPSILON }.less(before.minus(after).abs())
}

/// An extent of at most the whole leaves room beside it.
proof fn lemma_room(extent: Scalar)
    requires
        extent.within(Scalar { bits: constants::HUNDREDTH }, Scalar { bits: constants::ONE }),
    ensures
        (Scalar { bits: constants::ZERO }).at_most(
            (Scalar { bits: constants::ONE }).difference(extent),
        ),
{
    laws::difference_has_the_sign_of_the_order(Scalar { bits: constants::ONE }, extent);
}

impl CropRect {
    /// The whole image.
    pub open spec fn whole() -> CropRect {
        CropRect {
            x: Scalar { bits: constants::ZERO },
            y: Scalar { bits: constants::ZERO },
            width: Scalar { bits: constants::ONE },
            height: Scalar { bits: constants::ONE },
        }
    }

    /// The rectangle moved and resized to lie inside the image, with the
    /// least extent that a crop may have.
    pub open spec fn inside(self) -> CropRect {
        let one = Scalar { bits: constants::ONE };
        let least = Scalar { bits: constants::HUNDREDTH };
        let zero = Scalar { bits: constants::ZERO };
        let width = self.width.clamped(least, one);
        let height = self.height.clamped(least, one);
        CropRect {
            x: self.x.clamped(zero, one.difference(width)),
            y: self.y.clamped(zero, one.difference(height)),
            width,
            height,
        }
    }

    /// The rectangle of the same content after a quarter turn to the right.
    pub open spec fn turned_right(self) -> CropRect {
        let one = Scalar { bits: constants::ONE };
        CropRect {
            x: one.difference(self.y).difference(self.height),
            y: self.x,
            width: self.height,
            height: self.width,
        }.inside()
    }

    /// The rectangle of the same content after a quarter turn to the left.
    pub open spec fn turned_left(self) -> CropRect {
        let one = Scalar { bits: constants::ONE };
        CropRect {
            x: self.y,
            y: one.difference(self.x).difference(self.width),
            width: self.height,
            height: self.width,
        }.inside()
    }

    /// Whether the rectangle takes in the whole image.
    pub open spec fn covers_all(self) -> bool {
        let one = Scalar { bits: constants::ONE };
        &&& negligible(self.x)
        &&& negligible(self.y)
        &&& negligible(self.width.difference(one))
        &&& negligible(self.height.difference(one))
    }

    pub open spec fn same(self, other: CropRect) -> bool {
        &&& self.x.same(other.x)
        &&& self.y.same(other.y)
        &&& self.width.same(other.width)
        &&& self.height.same(other.height)
    }

    /// Whether the rectangle may be cropped to: inside the image up to a
    /// rounding allowance, and of the least extent or more.
    pub open spec fn valid(self) -> bool {
        let zero = Scalar { bits: constants::ZERO };
        let least = Scalar { bits: constants::HUNDREDTH };
        let edge = (Scalar { bits: constants::ONE }).sum(Scalar { bits: constants::TINY });
        &&& self.x.finite() && self.y.finite() && self.width.finite() && self.height.finite()
        &&& zero.at_most(self.x)
        &&& zero.at_most(self.y)
        &&& least.at_most(self.width)
        &&& least.at_most(self.height)
        &&& self.x.sum(self.width).at_most(edge)
        &&& self.y.sum(self.height).at_most(edge)
    }

    /// A width or height that is a number leaves room for a position.
    pub open spec fn measurable(self) -> bool {
        !self.width.nan() && !self.height.nan()
    }

    pub fn full() -> (rect: CropRect)
        ensures
            rect == CropRect::whole(),
    {
        CropRect {
            x: Scalar { bits: constants::ZERO },
            y: Scalar { bits: constants::ZERO },
            width: Scalar { bits: constants::ONE },
            height: Scalar { bits: constants::ONE },
        }
    }

    #[must_use]
    pub fn rotated_right(self) -> (rect: CropRect)
        requires
            self.measurable(),
        ensures
            rect == self.turned_right(),
            self.valid() ==> turn_laws::is_turned_right(
                self,
                rect,
                turn_laws::turning_slack(self),
            ),
    {
        proof {
            if self.valid() {
                turn_laws::turning_takes_the_edges_along(self);
            }
        }
        CropRect {
            x: Scalar { bits: constants::ONE }.minus(self.y).minus(self.height),
            y: self.x,
            width: self.height,
            height: self.width,
        }.normalized()
    }

    #[must_use]
    pub fn rotated_left(self) -> (rect: CropRect)
        requires
            self.measurable(),
        ensures
            rect == self.turned_left(),
            self.valid() ==> turn_laws::is_turned_right(
                rect,
                self,
                turn_laws::turning_slack(self),
            ),
    {
        proof {
            if self.valid() {
                turn_laws::turning_takes_the_edges_along(self);
            }
        }
        CropRect {
            x: self.y,
            y: Scalar { bits: constants::ONE }.minus(self.x).minus(self.width),
            width: self.height,
            height: self.width,
        }.normalized()
    }

    #[must_use]
    pub fn normalized(self) -> (rect: CropRect)
        requires
            self.measurable(),
        ensures
            rect == self.inside(),
            self.x.finite() && self.y.finite() && self.width.finite() && self.height.finite() ==> {
                &&& inside_laws::is_brought_inside(rect.x, rect.width, self.x, self.width)
                &&& inside_laws::is_brought_inside(rect.y, rect.height, self.y, self.height)
            },
    {
        proof {
            if self.x.finite() && self.y.finite() && self.width.finite() && self.height.finite() {
                inside_laws::a_crop_is_brought_inside(self);
            }
        }
        let zero: Scalar = Scalar { bits: constants::ZERO };
        let one: Scalar = Scalar { bits: constants::ONE };
        let least: Scalar = Scalar { bits: constants::HUNDREDTH };
        let width: Scalar = self.width.clamp(least, one);
        let height: Scalar = self.height.clamp(least, one);
        proof {
            lemma_room(width);
            lemma_room(height);
        }
        CropRect {
            x: self.x.clamp(zero, one.minus(width)),
            y: self.y.clamp(zero, one.minus(height)),
            width,
            height,
        }
    }

    #[must_use]
    pub fn is_full(self) -> (result: bool)
        ensures
            result == self.covers_all(),
    {
        let one: Scalar = Scalar { bits: constants::ONE };
        is_negligible(self.x) && is_negligible(self.y) && is_negligible(self.width.minus(one))
            && is_negligible(self.height.minus(one))
    }

    pub fn equals(self, other: CropRect) -> (result: bool)
        ensures
            result == self.same(other),
    {
        self.x.equals(other.x) && self.y.equals(other.y) && self.width.equals(other.width)
            && self.height.equals(other.height)
    }
}

impl Default for CropRect {
    fn default() -> (rect: CropRect)
        ensures
            rect == CropRect::whole(),
    {
        CropRect::full()
    }
}

/// The color of the frame.
#[derive(Clone, Copy, Debug, PartialEq, Eq, Structural)]
pub struct FrameColor {
    pub r: u8,
    pub g: u8,
    pub b: u8,
}

impl FrameColor {
    pub open spec fn plain_white() -> FrameColor {
        FrameColor { r: 255, g: 255, b: 255 }
    }

    pub fn white() -> (color: FrameColor)
        ensures
            color == FrameColor::plain_white(),
    {
        FrameColor { r: 255, g: 255, b: 255 }
    }

    pub fn black() -> (color: FrameColor)
        ensures
            color == (FrameColor { r: 0, g: 0, b: 0 }),
    {
        FrameColor { r: 0, g: 0, b: 0 }
    }

    /// The color of channels that are held between 0 and 255.
    pub fn from_channels(r: i32, g: i32, b: i32) -> (color: FrameColor)
        ensures
            color.r == held_channel(r),
            color.g == held_channel(g),
            color.b == held_channel(b),
    {
        FrameColor { r: hold_channel(r), g: hold_channel(g), b: hold_channel(b) }
    }
}

/// A channel of a color, held between 0 and 255.
pub open spec fn held_channel(channel: i32) -> int {
    if channel < 0 {
        0
    } else if channel > 255 {
        255
    } else {
        channel as int
    }
}

fn hold_channel(channel: i32) -> (held: u8)
    ensures
        held == held_channel(channel),
{
    if channel < 0 {
        0
    } else if channel > 255 {
        255
    } else {
        channel as u8
    }
}

impl Default for FrameColor {
    fn default() -> (color: FrameColor)
        ensures
            color == FrameColor::plain_white(),
    {
        FrameColor::white()
    }
}

/// Whether a number is finite and lies in a closed range.
pub open spec fn finite_within(amount: Scalar, low: u32, high: u32) -> bool {
    amount.finite() && amount.within(Scalar { bits: low }, Scalar { bits: high })
}

pub fn is_finite_within(amount: Scalar, low: u32, high: u32) -> (result: bool)
    ensures
        result == finite_within(amount, low, high),
{
    amount.is_finite() && amount.contained(Scalar { bits: low }, Scalar { bits: high })
}

/// Whether a number lies from -100 to 100.
pub open spec fn hundred_both_ways(amount: Scalar) -> bool {
    finite_within(amount, constants::MINUS_HUNDRED, constants::HUNDRED)
}

/// Temperature and tint, each from -100 to 100.
#[derive(Clone, Copy, Debug, PartialEq)]
pub struct WhiteBalance {
    pub temperature: Scalar,
    pub tint: Scalar,
}

impl WhiteBalance {
    /// No change.
    pub open spec fn neutral() -> WhiteBalance {
        WhiteBalance {
            temperature: Scalar { bits: constants::ZERO },
            tint: Scalar { bits: constants::ZERO },
        }
    }

    pub open spec fn has_no_effect(self) -> bool {
        negligible(self.temperature) && negligible(self.tint)
    }

    pub open spec fn same(self, other: WhiteBalance) -> bool {
        self.temperature.same(other.temperature) && self.tint.same(other.tint)
    }

    /// Whether both amounts are numbers from -100 to 100.
    pub open spec fn valid(self) -> bool {
        hundred_both_ways(self.temperature) && hundred_both_ways(self.tint)
    }

    pub fn identity() -> (adjustment: WhiteBalance)
        ensures
            adjustment == WhiteBalance::neutral(),
    {
        WhiteBalance {
            temperature: Scalar { bits: constants::ZERO },
            tint: Scalar { bits: constants::ZERO },
        }
    }

    #[must_use]
    pub fn is_identity(self) -> (result: bool)
        ensures
            result == self.has_no_effect(),
    {
        is_negligible(self.temperature) && is_negligible(self.tint)
    }

    pub fn equals(self, other: WhiteBalance) -> (result: bool)
        ensures
            result == self.same(other),
    {
        self.temperature.equals(other.temperature) && self.tint.equals(other.tint)
    }
}

impl Default for WhiteBalance {
    fn default() -> (adjustment: WhiteBalance)
        ensures
            adjustment == WhiteBalance::neutral(),
    {
        WhiteBalance::identity()
    }
}

/// How far shadows and highlights are raised, each from -100 to 100.
#[derive(Clone, Copy, Debug, PartialEq)]
pub struct ShadowsHighlights {
    pub shadows: Scalar,
    pub highlights: Scalar,
}

impl ShadowsHighlights {
    /// No change.
    pub open spec fn neutral() -> ShadowsHighlights {
        ShadowsHighlights {
            shadows: Scalar { bits: constants::ZERO },
            highlights: Scalar { bits: constants::ZERO },
        }
    }

    pub open spec fn has_no_effect(self) -> bool {
        negligible(self.shadows) && negligible(self.highlights)
    }

    pub open spec fn same(self, other: ShadowsHighlights) -> bool {
        self.shadows.same(other.shadows) && self.highlights.same(other.highlights)
    }

    /// Whether both amounts are numbers from -100 to 100.
    pub open spec fn valid(self) -> bool {
        hundred_both_ways(self.shadows) && hundred_both_ways(self.highlights)
    }

    pub fn identity() -> (adjustment: ShadowsHighlights)
        ensures
            adjustment == ShadowsHighlights::neutral(),
    {
        ShadowsHighlights {
            shadows: Scalar { bits: constants::ZERO },
            highlights: Scalar { bits: constants::ZERO },
        }
    }

    #[must_use]
    pub fn is_identity(self) -> (result: bool)
        ensures
            result == self.has_no_effect(),
    {
        is_negligible(self.shadows) && is_negligible(self.highlights)
    }

    pub fn equals(self, other: ShadowsHighlights) -> (result: bool)
        ensures
            result == self.same(other),
    {
        self.shadows.equals(other.shadows) && self.highlights.equals(other.highlights)
    }
}

impl Default for ShadowsHighlights {
    fn default() -> (adjustment: ShadowsHighlights)
        ensures
            adjustment == ShadowsHighlights::neutral(),
    {
        ShadowsHighlights::identity()
    }
}

} // verus!
