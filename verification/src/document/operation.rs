//! The editing operations, their validity, and lists of them.

use vstd::prelude::*;

use crate::document::curve::ToneCurve;
use crate::document::values;
use crate::document::values::{
    is_finite_within, CropRect, FrameColor, ShadowsHighlights, WhiteBalance,
};
use crate::number::constants;
use crate::number::scalar::Scalar;
use crate::text;

verus! {

/// The newest form of the project file.
pub const PROJECT_SCHEMA_VERSION: u32 = 18;

/// One step of an edit.
#[allow(inconsistent_fields)]
#[derive(Clone, Copy, Debug, PartialEq)]
pub enum Operation {
    Rotate { quarter_turns: u8 },
    Straighten { degrees: Scalar },
    Crop { rect: CropRect },
    Denoise { luma_denoise: Scalar, color_denoise: Scalar },
    WhiteBalance { adjustment: WhiteBalance },
    Exposure { ev: Scalar },
    Contrast { amount: Scalar },
    ShadowsHighlights { adjustment: ShadowsHighlights },
    ToneCurve { curve: ToneCurve },
    Saturation { amount: Scalar },
    Vignette { strength: Scalar },
    Sharpness { amount: Scalar },
    Frame { width_pct: Scalar, color: FrameColor },
}

/// What an operation adjusts.
#[derive(Clone, Copy, Debug, PartialEq, Eq, Structural)]
pub enum Kind {
    Rotate,
    Straighten,
    Crop,
    Denoise,
    WhiteBalance,
    Exposure,
    Contrast,
    ShadowsHighlights,
    ToneCurve,
    Saturation,
    Vignette,
    Sharpness,
    Frame,
}

/// Why a document or a change to it is refused.
#[derive(Clone, Copy, Debug, PartialEq, Eq, Structural)]
pub enum DocumentError {
    UnsupportedSchema { found: u32, supported: u32 },
    InvalidExposure,
    InvalidContrast,
    InvalidWhiteBalance,
    InvalidSaturation,
    InvalidVignette,
    InvalidSharpness,
    InvalidShadowsHighlights,
    InvalidRotation,
    InvalidStraighten,
    InvalidCrop,
    InvalidToneCurve,
    InvalidFrame,
    InvalidDenoise,
}

impl DocumentError {
    /// The words for the error.
    pub open spec fn words(self) -> Seq<char> {
        match self {
            DocumentError::UnsupportedSchema { found, supported } => {
                "unsupported project schema version "@ + text::decimal(found as nat)
                    + "; newest supported version is "@ + text::decimal(supported as nat)
            },
            DocumentError::InvalidExposure => {
                "exposure must be finite and between -5 and +5 EV"@
            },
            DocumentError::InvalidContrast => {
                "contrast must be finite and between -100 and +100"@
            },
            DocumentError::InvalidWhiteBalance => {
                "temperature and tint must be finite and between -100 and +100"@
            },
            DocumentError::InvalidSaturation => {
                "saturation must be finite and between -100 and +100"@
            },
            DocumentError::InvalidVignette => {
                "vignette strength must be finite and between 0.0 and 1.0"@
            },
            DocumentError::InvalidSharpness => {
                "sharpness must be finite and between 0 and 1000"@
            },
            DocumentError::InvalidShadowsHighlights => {
                "shadows and highlights must be finite and between -100 and +100"@
            },
            DocumentError::InvalidRotation => {
                "rotation must be between 0 and 3 quarter turns"@
            },
            DocumentError::InvalidStraighten => {
                "straighten angle must be finite and between -45 and +45 degrees"@
            },
            DocumentError::InvalidCrop => {
                "crop rectangle must be finite, inside the image, and at least 1% wide and high"@
            },
            DocumentError::InvalidToneCurve => {
                "tone curve points must be finite, inside the 0 to 1 interval, and ordered by input"@
            },
            DocumentError::InvalidFrame => {
                "frame width must be finite and between 0 and 50 percent"@
            },
            DocumentError::InvalidDenoise => {
                "denoise amounts must be finite and between 0 and 100"@
            },
        }
    }

    /// Says in words what is wrong.
    pub fn message(&self) -> (words: String)
        ensures
            words@ == self.words(),
    {
        match self {
            DocumentError::UnsupportedSchema { found, supported } => {
                let head: String = text::joined(
                    "unsupported project schema version ",
                    text::decimal_string(*found as u64).as_str(),
                );
                let middle: String = text::joined(
                    head.as_str(),
                    "; newest supported version is ",
                );
                text::joined(middle.as_str(), text::decimal_string(*supported as u64).as_str())
            },
            DocumentError::InvalidExposure => {
                text::copied("exposure must be finite and between -5 and +5 EV")
            },
            DocumentError::InvalidContrast => {
                text::copied("contrast must be finite and between -100 and +100")
            },
            DocumentError::InvalidWhiteBalance => {
                text::copied("temperature and tint must be finite and between -100 and +100")
            },
            DocumentError::InvalidSaturation => {
                text::copied("saturation must be finite and between -100 and +100")
            },
            DocumentError::InvalidVignette => {
                text::copied("vignette strength must be finite and between 0.0 and 1.0")
            },
            DocumentError::InvalidSharpness => {
                text::copied("sharpness must be finite and between 0 and 1000")
            },
            DocumentError::InvalidShadowsHighlights => {
                text::copied("shadows and highlights must be finite and between -100 and +100")
            },
            DocumentError::InvalidRotation => {
                text::copied("rotation must be between 0 and 3 quarter turns")
            },
            DocumentError::InvalidStraighten => {
                text::copied("straighten angle must be finite and between -45 and +45 degrees")
            },
            DocumentError::InvalidCrop => {
                text::copied(
                    "crop rectangle must be finite, inside the image, and at least 1% wide and high",
                )
            },
            DocumentError::InvalidToneCurve => {
                text::copied(
                    "tone curve points must be finite, inside the 0 to 1 interval, and ordered by input",
                )
            },
            DocumentError::InvalidFrame => {
                text::copied("frame width must be finite and between 0 and 50 percent")
            },
            DocumentError::InvalidDenoise => {
                text::copied("denoise amounts must be finite and between 0 and 100")
            },
        }
    }
}

impl Operation {
    pub open spec fn kind(self) -> Kind {
        match self {
            Operation::Rotate { .. } => Kind::Rotate,
            Operation::Straighten { .. } => Kind::Straighten,
            Operation::Crop { .. } => Kind::Crop,
            Operation::Denoise { .. } => Kind::Denoise,
            Operation::WhiteBalance { .. } => Kind::WhiteBalance,
            Operation::Exposure { .. } => Kind::Exposure,
            Operation::Contrast { .. } => Kind::Contrast,
            Operation::ShadowsHighlights { .. } => Kind::ShadowsHighlights,
            Operation::ToneCurve { .. } => Kind::ToneCurve,
            Operation::Saturation { .. } => Kind::Saturation,
            Operation::Vignette { .. } => Kind::Vignette,
            Operation::Sharpness { .. } => Kind::Sharpness,
            Operation::Frame { .. } => Kind::Frame,
        }
    }

    /// Whether the parameters are in range.
    pub open spec fn valid(self) -> bool {
        match self {
            Operation::Rotate { quarter_turns } => quarter_turns <= 3,
            Operation::Straighten { degrees } => values::finite_within(
                degrees,
                constants::MINUS_FORTY_FIVE,
                constants::FORTY_FIVE,
            ),
            Operation::Crop { rect } => rect.valid(),
            Operation::Denoise { luma_denoise, color_denoise } => {
                &&& values::finite_within(luma_denoise, constants::ZERO, constants::HUNDRED)
                &&& values::finite_within(color_denoise, constants::ZERO, constants::HUNDRED)
            },
            Operation::WhiteBalance { adjustment } => adjustment.valid(),
            Operation::Exposure { ev } => values::finite_within(ev, constants::MINUS_FIVE, constants::FIVE),
            Operation::Contrast { amount } => values::hundred_both_ways(amount),
            Operation::ShadowsHighlights { adjustment } => adjustment.valid(),
            Operation::ToneCurve { curve } => curve.valid(),
            Operation::Saturation { amount } => values::hundred_both_ways(amount),
            Operation::Vignette { strength } => values::finite_within(
                strength,
                constants::ZERO,
                constants::ONE,
            ),
            Operation::Sharpness { amount } => values::finite_within(
                amount,
                constants::ZERO,
                constants::THOUSAND,
            ),
            Operation::Frame { width_pct, .. } => values::finite_within(
                width_pct,
                constants::ZERO,
                constants::FIFTY,
            ),
        }
    }

    /// The error for parameters that are out of range.
    pub open spec fn error(self) -> DocumentError {
        match self {
            Operation::Rotate { .. } => DocumentError::InvalidRotation,
            Operation::Straighten { .. } => DocumentError::InvalidStraighten,
            Operation::Crop { .. } => DocumentError::InvalidCrop,
            Operation::Denoise { .. } => DocumentError::InvalidDenoise,
            Operation::WhiteBalance { .. } => DocumentError::InvalidWhiteBalance,
            Operation::Exposure { .. } => DocumentError::InvalidExposure,
            Operation::Contrast { .. } => DocumentError::InvalidContrast,
            Operation::ShadowsHighlights { .. } => DocumentError::InvalidShadowsHighlights,
            Operation::ToneCurve { .. } => DocumentError::InvalidToneCurve,
            Operation::Saturation { .. } => DocumentError::InvalidSaturation,
            Operation::Vignette { .. } => DocumentError::InvalidVignette,
            Operation::Sharpness { .. } => DocumentError::InvalidSharpness,
            Operation::Frame { .. } => DocumentError::InvalidFrame,
        }
    }

    /// Whether two operations are of one kind with equal parameters.
    pub open spec fn same(self, other: Operation) -> bool {
        match (self, other) {
            (
                Operation::Rotate { quarter_turns: a },
                Operation::Rotate { quarter_turns: b },
            ) => a == b,
            (Operation::Straighten { degrees: a }, Operation::Straighten { degrees: b }) => a.same(
                b,
            ),
            (Operation::Crop { rect: a }, Operation::Crop { rect: b }) => a.same(b),
            (
                Operation::Denoise { luma_denoise: a, color_denoise: c },
                Operation::Denoise { luma_denoise: b, color_denoise: d },
            ) => a.same(b) && c.same(d),
            (
                Operation::WhiteBalance { adjustment: a },
                Operation::WhiteBalance { adjustment: b },
            ) => a.same(b),
            (Operation::Exposure { ev: a }, Operation::Exposure { ev: b }) => a.same(b),
            (Operation::Contrast { amount: a }, Operation::Contrast { amount: b }) => a.same(b),
            (
                Operation::ShadowsHighlights { adjustment: a },
                Operation::ShadowsHighlights { adjustment: b },
            ) => a.same(b),
            (Operation::ToneCurve { curve: a }, Operation::ToneCurve { curve: b }) => a.same(b),
            (Operation::Saturation { amount: a }, Operation::Saturation { amount: b }) => a.same(b),
            (Operation::Vignette { strength: a }, Operation::Vignette { strength: b }) => a.same(b),
            (Operation::Sharpness { amount: a }, Operation::Sharpness { amount: b }) => a.same(b),
            (
                Operation::Frame { width_pct: a, color: c },
                Operation::Frame { width_pct: b, color: d },
            ) => a.same(b) && c == d,
            _ => false,
        }
    }

    /// What the operation adjusts.
    pub fn which(&self) -> (kind: Kind)
        ensures
            kind == self.kind(),
    {
        match self {
            Operation::Rotate { .. } => Kind::Rotate,
            Operation::Straighten { .. } => Kind::Straighten,
            Operation::Crop { .. } => Kind::Crop,
            Operation::Denoise { .. } => Kind::Denoise,
            Operation::WhiteBalance { .. } => Kind::WhiteBalance,
            Operation::Exposure { .. } => Kind::Exposure,
            Operation::Contrast { .. } => Kind::Contrast,
            Operation::ShadowsHighlights { .. } => Kind::ShadowsHighlights,
            Operation::ToneCurve { .. } => Kind::ToneCurve,
            Operation::Saturation { .. } => Kind::Saturation,
            Operation::Vignette { .. } => Kind::Vignette,
            Operation::Sharpness { .. } => Kind::Sharpness,
            Operation::Frame { .. } => Kind::Frame,
        }
    }

    pub fn equals(&self, other: &Operation) -> (result: bool)
        ensures
            result == self.same(*other),
    {
        match (*self, *other) {
            (
                Operation::Rotate { quarter_turns: a },
                Operation::Rotate { quarter_turns: b },
            ) => a == b,
            (
                Operation::Straighten { degrees: a },
                Operation::Straighten { degrees: b },
            ) => a.equals(b),
            (Operation::Crop { rect: a }, Operation::Crop { rect: b }) => a.equals(b),
            (
                Operation::Denoise { luma_denoise: a, color_denoise: c },
                Operation::Denoise { luma_denoise: b, color_denoise: d },
            ) => a.equals(b) && c.equals(d),
            (
                Operation::WhiteBalance { adjustment: a },
                Operation::WhiteBalance { adjustment: b },
            ) => a.equals(b),
            (Operation::Exposure { ev: a }, Operation::Exposure { ev: b }) => a.equals(b),
            (Operation::Contrast { amount: a }, Operation::Contrast { amount: b }) => a.equals(b),
            (
                Operation::ShadowsHighlights { adjustment: a },
                Operation::ShadowsHighlights { adjustment: b },
            ) => a.equals(b),
            (Operation::ToneCurve { curve: a }, Operation::ToneCurve { curve: b }) => a.equals(b),
            (
                Operation::Saturation { amount: a },
                Operation::Saturation { amount: b },
            ) => a.equals(b),
            (
                Operation::Vignette { strength: a },
                Operation::Vignette { strength: b },
            ) => a.equals(b),
            (Operation::Sharpness { amount: a }, Operation::Sharpness { amount: b }) => a.equals(b),
            (
                Operation::Frame { width_pct: a, color: c },
                Operation::Frame { width_pct: b, color: d },
            ) => a.equals(b) && c == d,
            _ => false,
        }
    }

    /// Tests the parameters.
    pub fn check(&self) -> (result: Result<(), DocumentError>)
        ensures
            result is Ok <==> self.valid(),
            result matches Err(error) ==> error == self.error(),
    {
        match *self {
            Operation::Rotate { quarter_turns } => validate_rotation(quarter_turns),
            Operation::Straighten { degrees } => validate_straighten(degrees),
            Operation::Crop { rect } => validate_crop(rect),
            Operation::Denoise { luma_denoise, color_denoise } => validate_denoise(
                luma_denoise,
                color_denoise,
            ),
            Operation::WhiteBalance { adjustment } => validate_white_balance(adjustment),
            Operation::Exposure { ev } => validate_exposure(ev),
            Operation::Contrast { amount } => validate_contrast(amount),
            Operation::ShadowsHighlights { adjustment } => validate_shadows_highlights(adjustment),
            Operation::ToneCurve { curve } => validate_tone_curve(curve),
            Operation::Saturation { amount } => validate_saturation(amount),
            Operation::Vignette { strength } => validate_vignette(strength),
            Operation::Sharpness { amount } => validate_sharpness(amount),
            Operation::Frame { width_pct, color } => validate_frame(width_pct),
        }
    }
}

fn validate_rotation(quarter_turns: u8) -> (result: Result<(), DocumentError>)
    ensures
        result == if quarter_turns <= 3 {
            Ok::<(), DocumentError>(())
        } else {
            Err(DocumentError::InvalidRotation)
        },
{
    if quarter_turns <= 3 {
        Ok(())
    } else {
        Err(DocumentError::InvalidRotation)
    }
}

fn validate_crop(rect: CropRect) -> (result: Result<(), DocumentError>)
    ensures
        result == if rect.valid() {
            Ok::<(), DocumentError>(())
        } else {
            Err(DocumentError::InvalidCrop)
        },
{
    let zero: Scalar = Scalar { bits: constants::ZERO };
    let least: Scalar = Scalar { bits: constants::HUNDREDTH };
    let edge: Scalar = Scalar { bits: constants::ONE }.plus(Scalar { bits: constants::TINY });
    if rect.x.is_finite() && rect.y.is_finite() && rect.width.is_finite() && rect.height.is_finite()
        && zero.less_or_equal(rect.x) && zero.less_or_equal(rect.y) && least.less_or_equal(
        rect.width,
    ) && least.less_or_equal(rect.height) && rect.x.plus(rect.width).less_or_equal(edge)
        && rect.y.plus(rect.height).less_or_equal(edge) {
        Ok(())
    } else {
        Err(DocumentError::InvalidCrop)
    }
}

fn validate_tone_curve(curve: ToneCurve) -> (result: Result<(), DocumentError>)
    ensures
        result == if curve.valid() {
            Ok::<(), DocumentError>(())
        } else {
            Err(DocumentError::InvalidToneCurve)
        },
{
    let zero: Scalar = Scalar { bits: constants::ZERO };
    let one: Scalar = Scalar { bits: constants::ONE };
    let gap: Scalar = Scalar { bits: constants::THOUSANDTH };
    if curve.shadow_input.is_finite() && curve.shadows.is_finite()
        && curve.midtone_input.is_finite() && curve.midtones.is_finite()
        && curve.highlight_input.is_finite() && curve.highlights.is_finite() && gap.less_or_equal(
        curve.shadow_input,
    ) && gap.less_or_equal(curve.midtone_input.minus(curve.shadow_input)) && gap.less_or_equal(
        curve.highlight_input.minus(curve.midtone_input),
    ) && gap.less_or_equal(one.minus(curve.highlight_input)) && curve.shadows.contained(zero, one)
        && curve.midtones.contained(zero, one) && curve.highlights.contained(zero, one) {
        Ok(())
    } else {
        Err(DocumentError::InvalidToneCurve)
    }
}

fn validate_straighten(degrees: Scalar) -> (result: Result<(), DocumentError>)
    ensures
        result == if values::finite_within(degrees, constants::MINUS_FORTY_FIVE, constants::FORTY_FIVE) {
            Ok::<(), DocumentError>(())
        } else {
            Err(DocumentError::InvalidStraighten)
        },
{
    if is_finite_within(degrees, constants::MINUS_FORTY_FIVE, constants::FORTY_FIVE) {
        Ok(())
    } else {
        Err(DocumentError::InvalidStraighten)
    }
}

fn validate_saturation(amount: Scalar) -> (result: Result<(), DocumentError>)
    ensures
        result == if values::finite_within(amount, constants::MINUS_HUNDRED, constants::HUNDRED) {
            Ok::<(), DocumentError>(())
        } else {
            Err(DocumentError::InvalidSaturation)
        },
{
    if is_finite_within(amount, constants::MINUS_HUNDRED, constants::HUNDRED) {
        Ok(())
    } else {
        Err(DocumentError::InvalidSaturation)
    }
}

fn validate_vignette(strength: Scalar) -> (result: Result<(), DocumentError>)
    ensures
        result == if values::finite_within(strength, constants::ZERO, constants::ONE) {
            Ok::<(), DocumentError>(())
        } else {
            Err(DocumentError::InvalidVignette)
        },
{
    if is_finite_within(strength, constants::ZERO, constants::ONE) {
        Ok(())
    } else {
        Err(DocumentError::InvalidVignette)
    }
}

fn validate_sharpness(amount: Scalar) -> (result: Result<(), DocumentError>)
    ensures
        result == if values::finite_within(amount, constants::ZERO, constants::THOUSAND) {
            Ok::<(), DocumentError>(())
        } else {
            Err(DocumentError::InvalidSharpness)
        },
{
    if is_finite_within(amount, constants::ZERO, constants::THOUSAND) {
        Ok(())
    } else {
        Err(DocumentError::InvalidSharpness)
    }
}

fn validate_exposure(ev: Scalar) -> (result: Result<(), DocumentError>)
    ensures
        result == if values::finite_within(ev, constants::MINUS_FIVE, constants::FIVE) {
            Ok::<(), DocumentError>(())
        } else {
            Err(DocumentError::InvalidExposure)
        },
{
    if is_finite_within(ev, constants::MINUS_FIVE, constants::FIVE) {
        Ok(())
    } else {
        Err(DocumentError::InvalidExposure)
    }
}

fn validate_contrast(amount: Scalar) -> (result: Result<(), DocumentError>)
    ensures
        result == if values::finite_within(amount, constants::MINUS_HUNDRED, constants::HUNDRED) {
            Ok::<(), DocumentError>(())
        } else {
            Err(DocumentError::InvalidContrast)
        },
{
    if is_finite_within(amount, constants::MINUS_HUNDRED, constants::HUNDRED) {
        Ok(())
    } else {
        Err(DocumentError::InvalidContrast)
    }
}

fn validate_frame(width_pct: Scalar) -> (result: Result<(), DocumentError>)
    ensures
        result == if values::finite_within(width_pct, constants::ZERO, constants::FIFTY) {
            Ok::<(), DocumentError>(())
        } else {
            Err(DocumentError::InvalidFrame)
        },
{
    if is_finite_within(width_pct, constants::ZERO, constants::FIFTY) {
        Ok(())
    } else {
        Err(DocumentError::InvalidFrame)
    }
}

fn validate_white_balance(adjustment: WhiteBalance) -> (result: Result<(), DocumentError>)
    ensures
        result == if adjustment.valid() {
            Ok::<(), DocumentError>(())
        } else {
            Err(DocumentError::InvalidWhiteBalance)
        },
{
    if is_finite_within(adjustment.temperature, constants::MINUS_HUNDRED, constants::HUNDRED)
        && is_finite_within(adjustment.tint, constants::MINUS_HUNDRED, constants::HUNDRED) {
        Ok(())
    } else {
        Err(DocumentError::InvalidWhiteBalance)
    }
}

fn validate_shadows_highlights(adjustment: ShadowsHighlights) -> (result: Result<(), DocumentError>)
    ensures
        result == if adjustment.valid() {
            Ok::<(), DocumentError>(())
        } else {
            Err(DocumentError::InvalidShadowsHighlights)
        },
{
    if is_finite_within(adjustment.shadows, constants::MINUS_HUNDRED, constants::HUNDRED)
        && is_finite_within(adjustment.highlights, constants::MINUS_HUNDRED, constants::HUNDRED) {
        Ok(())
    } else {
        Err(DocumentError::InvalidShadowsHighlights)
    }
}

fn validate_denoise(luma: Scalar, color: Scalar) -> (result: Result<(), DocumentError>)
    ensures
        result == if values::finite_within(luma, constants::ZERO, constants::HUNDRED) && values::finite_within(
            color,
            constants::ZERO,
            constants::HUNDRED,
        ) {
            Ok::<(), DocumentError>(())
        } else {
            Err(DocumentError::InvalidDenoise)
        },
{
    if is_finite_within(luma, constants::ZERO, constants::HUNDRED) && is_finite_within(
        color,
        constants::ZERO,
        constants::HUNDRED,
    ) {
        Ok(())
    } else {
        Err(DocumentError::InvalidDenoise)
    }
}

} // verus!
