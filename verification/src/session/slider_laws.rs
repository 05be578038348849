//! What the sliders set.

use vstd::arithmetic::power2::*;
use vstd::prelude::*;

use crate::document::curve_laws;
use crate::document::operation::{Kind, Operation};
use crate::document::turn_laws;
use crate::document::values::FrameColor;
use crate::number::bounds;
use crate::number::constants;
use crate::number::laws;
use crate::number::nearness_laws;
use crate::number::rounding;
use crate::number::scalar::Scalar;
use crate::session::drag_laws;
use crate::session::edit::Slider;
use crate::session::state::EditStarts;

verus! {

/// The number of a slider in an operation, where the operation holds one.
pub open spec fn number_in(slider: Slider, operation: Operation) -> Option<Scalar> {
    match (slider, operation) {
        (Slider::Exposure, Operation::Exposure { ev }) => Some(ev),
        (Slider::Contrast, Operation::Contrast { amount }) => Some(amount),
        (Slider::Shadows, Operation::ShadowsHighlights { adjustment }) => Some(
            adjustment.shadows,
        ),
        (Slider::Highlights, Operation::ShadowsHighlights { adjustment }) => Some(
            adjustment.highlights,
        ),
        (Slider::Temperature, Operation::WhiteBalance { adjustment }) => Some(
            adjustment.temperature,
        ),
        (Slider::Tint, Operation::WhiteBalance { adjustment }) => Some(adjustment.tint),
        (Slider::Saturation, Operation::Saturation { amount }) => Some(amount),
        (Slider::Sharpness, Operation::Sharpness { amount }) => Some(amount),
        (Slider::Vignette, Operation::Vignette { strength }) => Some(strength),
        (Slider::LumaDenoise, Operation::Denoise { luma_denoise, .. }) => Some(luma_denoise),
        (Slider::ColorDenoise, Operation::Denoise { color_denoise, .. }) => Some(color_denoise),
        (Slider::Rotation, Operation::Straighten { degrees }) => Some(degrees),
        (Slider::Frame, Operation::Frame { width_pct, .. }) => Some(width_pct),
        _ => None,
    }
}

/// The least and the largest number of a slider.
pub open spec fn bounds_of(slider: Slider) -> (int, int) {
    match slider {
        Slider::Exposure => (-3, 3),
        Slider::Contrast => (-100, 100),
        Slider::Shadows => (-100, 100),
        Slider::Highlights => (-100, 100),
        Slider::Temperature => (-100, 100),
        Slider::Tint => (-100, 100),
        Slider::Saturation => (-100, 100),
        Slider::Sharpness => (0, 1000),
        Slider::Vignette => (0, 100),
        Slider::LumaDenoise => (0, 100),
        Slider::ColorDenoise => (0, 100),
        Slider::Rotation => (-45, 45),
        Slider::Frame => (0, 50),
    }
}

/// Whether an operation is another with the number of one slider set. The
/// strength of a vignette is set in hundredths.
pub open spec fn has_number_set(
    slider: Slider,
    base: Operation,
    value: Scalar,
    operation: Operation,
) -> bool {
    &&& number_in(slider, operation) is Some
    &&& slider != Slider::Vignette ==> number_in(slider, operation) == Some(value)
    &&& forall|other: Slider|
        other != slider ==> #[trigger] number_in(other, operation) == number_in(other, base)
    &&& operation is Frame ==> operation->color == base->color
    &&& slider == Slider::Vignette && value.finite() && 0 <= laws::exact(value) <= 100
        * turn_laws::whole() ==> {
        let strength = number_in(slider, operation)->0;
        &&& strength.finite()
        &&& 0x10_0000 * bounds::absolute(100 * laws::exact(strength) - laws::exact(value)) <= 100
            * turn_laws::whole()
    }
}

/// The integers that bound the sliders are numbers.
proof fn lemma_bounds()
    ensures
        ({
            let w = turn_laws::whole();
            &&& laws::exact(Scalar { bits: constants::ZERO }) == 0
            &&& laws::exact(Scalar { bits: constants::THREE }) == 3 * w
            &&& laws::exact(Scalar { bits: constants::MINUS_THREE }) == -3 * w
            &&& laws::exact(Scalar { bits: constants::FORTY_FIVE }) == 45 * w
            &&& laws::exact(Scalar { bits: constants::MINUS_FORTY_FIVE }) == -45 * w
            &&& laws::exact(Scalar { bits: constants::FIFTY }) == 50 * w
            &&& laws::exact(Scalar { bits: constants::HUNDRED }) == 100 * w
            &&& laws::exact(Scalar { bits: constants::MINUS_HUNDRED }) == -100 * w
            &&& laws::exact(Scalar { bits: constants::THOUSAND }) == 1000 * w
            &&& w == pow2(149)
            &&& w > 0x1000_0000_0000_0000
            &&& bounds::power(7) == 128 * w
            &&& bounds::power(6) == 64 * w
        }),
{
    turn_laws::lemma_sizes();
    curve_laws::lemma_constants();
    lemma2_to64();
    rounding::lemma_encode(127, 0xc0_0000, 24);
    rounding::lemma_encode(131, 0xb4_0000, 24);
    rounding::lemma_encode(131, 0xc8_0000, 24);
    rounding::lemma_encode(132, 0xc8_0000, 24);
    rounding::lemma_encode(135, 0xfa_0000, 24);
    lemma_pow2_adds(126, 1);
    lemma_pow2_adds(126, 5);
    lemma_pow2_adds(126, 6);
    lemma_pow2_adds(126, 9);
    lemma_pow2_adds(149, 7);
    lemma_pow2_adds(149, 6);
}

/// Setting a slider sets its number, and no other.
pub proof fn a_slider_sets_its_number(slider: Slider, base: Operation, value: Scalar)
    requires
        base.kind() == slider.kind(),
    ensures
        has_number_set(slider, base, value, slider.applied(base, value)),
{
    let hundred = Scalar { bits: constants::HUNDRED };
    lemma_bounds();
    if slider == Slider::Vignette && value.finite() && 0 <= laws::exact(value) <= 100
        * turn_laws::whole() {
        nearness_laws::lemma_signed(value);
        nearness_laws::lemma_signed(hundred);
        nearness_laws::a_quotient_is_near(value, hundred, 7, 6);
        let w = turn_laws::whole();
        let (q, x) = (laws::exact(value.quotient(hundred)), laws::exact(value));
        let d = 100 * q - x;
        assert(q * (100 * w) - x * w == d * w) by (nonlinear_arith)
            requires
                d == 100 * q - x,
        ;
        assert(bounds::absolute(x * w) == x * w) by (nonlinear_arith)
            requires
                x >= 0,
                w > 0,
        ;
        assert(0x40_0000 * bounds::absolute(d) <= x + 100 * 0x80_0000) by (nonlinear_arith)
            requires
                0x40_0000 * bounds::absolute(d * w) <= x * w + 0x80_0000 * (100 * w),
                w > 0,
        {
            assert(bounds::absolute(d * w) == bounds::absolute(d) * w);
            assert(x * w + 0x80_0000 * (100 * w) == (x + 100 * 0x80_0000) * w);
        }
    }
}

/// A number is brought into the range of its slider.
pub proof fn a_slider_keeps_its_range(slider: Slider, value: Scalar)
    requires
        value.finite(),
    ensures
        ({
            let (low, high) = bounds_of(slider);
            let w = turn_laws::whole();
            &&& laws::exact(slider.range().0) == low * w
            &&& laws::exact(slider.range().1) == high * w
            &&& laws::exact(slider.limited(value)) == drag_laws::held(
                laws::exact(value),
                low * w,
                high * w,
            )
        }),
{
    lemma_bounds();
    let (low, high) = slider.range();
    let (first, last) = bounds_of(slider);
    lemma_counts(first, laws::exact(low), turn_laws::whole());
    lemma_counts(last, laws::exact(high), turn_laws::whole());
    assert(first * turn_laws::whole() <= last * turn_laws::whole()) by (nonlinear_arith)
        requires
            first <= last,
            turn_laws::whole() > 0,
    ;
    turn_laws::lemma_clamped(value, low, high);
}

proof fn lemma_counts(n: int, x: int, w: int)
    requires
        n == 0 && x == 0 || n == 3 && x == 3 * w || n == -3 && x == -3 * w || n == 45 && x == 45
            * w || n == -45 && x == -45 * w || n == 50 && x == 50 * w || n == 100 && x == 100 * w
            || n == -100 && x == -100 * w || n == 1000 && x == 1000 * w,
    ensures
        n * w == x,
{
    assert(0 * w == 0) by (nonlinear_arith);
}

/// Resetting a slider sets its number to zero, and no other number. A frame
/// becomes white.
pub proof fn a_reset_slider_is_at_zero(slider: Slider, base: Operation)
    requires
        base.kind() == slider.kind(),
    ensures
        ({
            let cleared = slider.cleared(base);
            &&& number_in(slider, cleared) == Some(Scalar { bits: 0 })
            &&& forall|other: Slider|
                other != slider ==> #[trigger] number_in(other, cleared) == number_in(other, base)
            &&& cleared is Frame ==> cleared->color == (FrameColor { r: 255, g: 255, b: 255 })
        }),
{
}

/// What a change began at is kept for its kind, and for no other, until the
/// change ends.
pub proof fn a_start_is_kept_for_its_kind(starts: EditStarts, operation: Operation, kind: Kind)
    requires
        EditStarts::nothing().with(operation) != EditStarts::nothing(),
    ensures
        starts.with(operation).at(operation.kind()) == Some(operation),
        kind != operation.kind() ==> starts.with(operation).at(kind) == starts.at(kind),
        starts.without(kind).at(kind) is None,
        kind != operation.kind() ==> starts.without(kind).at(operation.kind()) == starts.at(
            operation.kind(),
        ),
        EditStarts::nothing().at(kind) is None,
{
}

/// The changes that can be begun are those of the sliders.
pub proof fn a_slider_begins_a_change(slider: Slider, base: Operation, starts: EditStarts)
    requires
        base.kind() == slider.kind(),
    ensures
        starts.with(base).at(slider.kind()) == Some(base),
{
}

} // verus!
