//! Which parameters operations take, and which have no effect.

use vstd::arithmetic::power2::*;
use vstd::prelude::*;

use crate::document::curve_laws;
use crate::document::operation::{Kind, Operation};
use crate::document::project;
use crate::document::range_laws;
use crate::document::turn_laws;
use crate::document::values;
use crate::document::values::CropRect;
use crate::number::bounds;
use crate::number::constants;
use crate::number::laws;
use crate::number::rounding;
use crate::number::scalar::Scalar;

verus! {

/// Whether an amount is a number between two integers.
pub open spec fn is_between(amount: Scalar, low: int, high: int) -> bool {
    &&& amount.finite()
    &&& low * turn_laws::whole() <= laws::exact(amount)
    &&& laws::exact(amount) <= high * turn_laws::whole()
}

/// The integers that bound parameters are numbers.
proof fn lemma_bounds()
    ensures
        ({
            let w = turn_laws::whole();
            &&& laws::exact(Scalar { bits: constants::ZERO }) == 0
            &&& laws::exact(Scalar { bits: constants::FIVE }) == 5 * w
            &&& laws::exact(Scalar { bits: constants::MINUS_FIVE }) == -5 * w
            &&& laws::exact(Scalar { bits: constants::FORTY_FIVE }) == 45 * w
            &&& laws::exact(Scalar { bits: constants::MINUS_FORTY_FIVE }) == -45 * w
            &&& laws::exact(Scalar { bits: constants::FIFTY }) == 50 * w
            &&& laws::exact(Scalar { bits: constants::HUNDRED }) == 100 * w
            &&& laws::exact(Scalar { bits: constants::MINUS_HUNDRED }) == -100 * w
            &&& laws::exact(Scalar { bits: constants::THOUSAND }) == 1000 * w
            &&& 4 * laws::exact(Scalar { bits: constants::QUARTER }) == w
            &&& 2 * laws::exact(Scalar { bits: constants::HALF }) == w
            &&& 4 * laws::exact(Scalar { bits: constants::THREE_QUARTERS }) == 3 * w
        }),
{
    turn_laws::lemma_sizes();
    curve_laws::lemma_constants();
    lemma2_to64();
    rounding::lemma_encode(124, 0x80_0000, 24);
    rounding::lemma_encode(125, 0x80_0000, 24);
    rounding::lemma_encode(125, 0xc0_0000, 24);
    rounding::lemma_encode(128, 0xa0_0000, 24);
    rounding::lemma_encode(131, 0xb4_0000, 24);
    rounding::lemma_encode(131, 0xc8_0000, 24);
    rounding::lemma_encode(132, 0xc8_0000, 24);
    rounding::lemma_encode(135, 0xfa_0000, 24);
    lemma_pow2_adds(124, 2);
    lemma_pow2_adds(125, 1);
    lemma_pow2_adds(126, 2);
    lemma_pow2_adds(126, 5);
    lemma_pow2_adds(126, 6);
    lemma_pow2_adds(126, 9);
}

/// A number within numbers lies between the integers that they are.
proof fn lemma_between(amount: Scalar, low: u32, high: u32, first: int, last: int)
    requires
        (Scalar { bits: low }).finite(),
        (Scalar { bits: high }).finite(),
        laws::exact(Scalar { bits: low }) == first * turn_laws::whole(),
        laws::exact(Scalar { bits: high }) == last * turn_laws::whole(),
    ensures
        values::finite_within(amount, low, high) <==> is_between(amount, first, last),
{
    if amount.finite() {
        laws::order_is_exact(Scalar { bits: low }, amount);
        laws::order_is_exact(amount, Scalar { bits: high });
    }
}

/// Operations take the parameters that are in range, and no others.
pub proof fn parameters_have_ranges(operation: Operation)
    ensures
        operation.valid() <==> match operation {
            Operation::Rotate { quarter_turns } => quarter_turns < 4,
            Operation::Straighten { degrees } => is_between(degrees, -45, 45),
            Operation::Crop { rect } => rect.valid(),
            Operation::Denoise { luma_denoise, color_denoise } => is_between(luma_denoise, 0, 100)
                && is_between(color_denoise, 0, 100),
            Operation::WhiteBalance { adjustment } => is_between(adjustment.temperature, -100, 100)
                && is_between(adjustment.tint, -100, 100),
            Operation::Exposure { ev } => is_between(ev, -5, 5),
            Operation::Contrast { amount } => is_between(amount, -100, 100),
            Operation::ShadowsHighlights { adjustment } => is_between(adjustment.shadows, -100, 100)
                && is_between(adjustment.highlights, -100, 100),
            Operation::ToneCurve { curve } => curve.valid(),
            Operation::Saturation { amount } => is_between(amount, -100, 100),
            Operation::Vignette { strength } => is_between(strength, 0, 1),
            Operation::Sharpness { amount } => is_between(amount, 0, 1000),
            Operation::Frame { width_pct, .. } => is_between(width_pct, 0, 50),
        },
{
    let w = turn_laws::whole();
    lemma_bounds();
    assert(0 * w == 0 && 1 * w == w) by (nonlinear_arith);
    match operation {
        Operation::Straighten { degrees } => {
            lemma_between(
                degrees,
                constants::MINUS_FORTY_FIVE,
                constants::FORTY_FIVE,
                -45,
                45,
            );
        },
        Operation::Denoise { luma_denoise, color_denoise } => {
            lemma_between(luma_denoise, constants::ZERO, constants::HUNDRED, 0, 100);
            lemma_between(color_denoise, constants::ZERO, constants::HUNDRED, 0, 100);
        },
        Operation::WhiteBalance { adjustment } => {
            lemma_hundred(adjustment.temperature);
            lemma_hundred(adjustment.tint);
        },
        Operation::Exposure { ev } => {
            lemma_between(ev, constants::MINUS_FIVE, constants::FIVE, -5, 5);
        },
        Operation::Contrast { amount } => {
            lemma_hundred(amount);
        },
        Operation::ShadowsHighlights { adjustment } => {
            lemma_hundred(adjustment.shadows);
            lemma_hundred(adjustment.highlights);
        },
        Operation::Saturation { amount } => {
            lemma_hundred(amount);
        },
        Operation::Vignette { strength } => {
            lemma_between(strength, constants::ZERO, constants::ONE, 0, 1);
        },
        Operation::Sharpness { amount } => {
            lemma_between(amount, constants::ZERO, constants::THOUSAND, 0, 1000);
        },
        Operation::Frame { width_pct, .. } => {
            lemma_between(width_pct, constants::ZERO, constants::FIFTY, 0, 50);
        },
        _ => {},
    }
}

proof fn lemma_hundred(amount: Scalar)
    ensures
        values::hundred_both_ways(amount) <==> is_between(amount, -100, 100),
{
    lemma_bounds();
    lemma_between(amount, constants::MINUS_HUNDRED, constants::HUNDRED, -100, 100);
}

/// Whether a position and an extent lie inside the whole, but for some slack.
pub open spec fn lies_within(position: Scalar, extent: Scalar, slack: int) -> bool {
    let one = turn_laws::whole();
    &&& position.finite() && extent.finite()
    &&& 0 <= laws::exact(position)
    &&& laws::exact(Scalar { bits: 0x3c23_d70a }) <= laws::exact(extent)
    &&& laws::exact(position) + laws::exact(extent) <= one + slack
}

/// The end of a crop, held against the image and its allowance.
proof fn lemma_edge(position: Scalar, extent: Scalar)
    requires
        position.finite(),
        extent.finite(),
        0 <= laws::exact(position),
        0 <= laws::exact(extent),
    ensures
        ({
            let edge = (Scalar { bits: constants::ONE }).sum(Scalar { bits: constants::TINY });
            let end = laws::exact(position) + laws::exact(extent);
            let one = turn_laws::whole();
            &&& end <= one ==> position.sum(extent).at_most(edge)
            &&& position.sum(extent).at_most(edge) ==> 0x4000 * (end - one) <= one
        }),
{
    let zero = Scalar { bits: constants::ZERO };
    let one = Scalar { bits: constants::ONE };
    let tiny = Scalar { bits: constants::TINY };
    // A little more than one.
    let far = Scalar { bits: 0x3f80_0180 };
    turn_laws::lemma_sizes();
    curve_laws::lemma_constants();
    lemma2_to64();
    rounding::lemma_encode(126, 0x80_0180, 24);
    lemma_pow2_adds(109, 17);
    lemma_pow2_pos(109);
    let more = Scalar { bits: 0x3780_0000 };
    rounding::lemma_encode(110, 0x80_0000, 24);
    lemma_pow2_adds(109, 1);
    laws::order_is_exact(zero, tiny);
    laws::order_is_exact(tiny, more);
    let total = laws::exact(position) + laws::exact(extent);
    laws::sum_is_nearest(position, extent);
    laws::sum_is_nearest(one, tiny);
    let edge = one.sum(tiny);
    if total <= turn_laws::whole() {
        laws::nearest_is_monotone(total, turn_laws::whole() + laws::exact(tiny));
    }
    if position.sum(extent).at_most(edge) {
        laws::nearest_is_monotone(turn_laws::whole() + laws::exact(tiny), laws::exact(far));
        laws::nearest_to_itself(far);
        if 0x4000 * (total - turn_laws::whole()) > turn_laws::whole() {
            let farther = Scalar { bits: 0x3f80_0200 };
            rounding::lemma_encode(126, 0x80_0200, 24);
            laws::nearest_is_monotone(laws::exact(farther), total);
            laws::nearest_to_itself(farther);
            assert(false);
        }
    }
}

/// A crop that lies inside the image may be applied, and one that may be
/// applied lies inside, but for one part in 2^14.
pub proof fn crops_inside_the_image_are_valid(rect: CropRect)
    ensures
        lies_within(rect.x, rect.width, 0) && lies_within(rect.y, rect.height, 0) ==> rect.valid(),
        rect.valid() ==> {
            let slack = turn_laws::whole() / 0x4000;
            lies_within(rect.x, rect.width, slack) && lies_within(rect.y, rect.height, slack)
        },
{
    let zero = Scalar { bits: constants::ZERO };
    let least = Scalar { bits: constants::HUNDREDTH };
    turn_laws::lemma_sizes();
    if rect.x.finite() && rect.y.finite() && rect.width.finite() && rect.height.finite() {
        laws::order_is_exact(zero, rect.x);
        laws::order_is_exact(zero, rect.y);
        laws::order_is_exact(least, rect.width);
        laws::order_is_exact(least, rect.height);
        laws::order_is_exact(zero, least);
        if laws::exact(rect.x) >= 0 && laws::exact(rect.width) >= 0 {
            lemma_edge(rect.x, rect.width);
        }
        if laws::exact(rect.y) >= 0 && laws::exact(rect.height) >= 0 {
            lemma_edge(rect.y, rect.height);
        }
    }
}

/// What has no effect: numbers at zero, the whole photo, the photo as it
/// stands, and the points of the curve on the diagonal, a quarter apart.
pub proof fn neutral_operations_have_no_effect(kind: Kind)
    ensures
        project::neutral(kind).kind() == kind,
        match project::neutral(kind) {
            Operation::Rotate { quarter_turns } => quarter_turns == 0,
            Operation::Straighten { degrees } => is_between(degrees, 0, 0),
            Operation::Crop { rect } => {
                &&& is_between(rect.x, 0, 0) && is_between(rect.y, 0, 0)
                &&& is_between(rect.width, 1, 1) && is_between(rect.height, 1, 1)
            },
            Operation::Denoise { luma_denoise, color_denoise } => is_between(luma_denoise, 0, 0)
                && is_between(color_denoise, 0, 0),
            Operation::WhiteBalance { adjustment } => is_between(adjustment.temperature, 0, 0)
                && is_between(adjustment.tint, 0, 0),
            Operation::Exposure { ev } => is_between(ev, 0, 0),
            Operation::Contrast { amount } => is_between(amount, 0, 0),
            Operation::ShadowsHighlights { adjustment } => is_between(adjustment.shadows, 0, 0)
                && is_between(adjustment.highlights, 0, 0),
            Operation::ToneCurve { curve } => {
                &&& range_laws::is_diagonal(curve)
                &&& 4 * laws::exact(curve.shadow_input) == turn_laws::whole()
                &&& 2 * laws::exact(curve.midtone_input) == turn_laws::whole()
                &&& 4 * laws::exact(curve.highlight_input) == 3 * turn_laws::whole()
            },
            Operation::Saturation { amount } => is_between(amount, 0, 0),
            Operation::Vignette { strength } => is_between(strength, 0, 0),
            Operation::Sharpness { amount } => is_between(amount, 0, 0),
            Operation::Frame { width_pct, color } => is_between(width_pct, 0, 0) && color.r == 255
                && color.g == 255 && color.b == 255,
        },
{
    let w = turn_laws::whole();
    lemma_bounds();
    assert(0 * w == 0 && 1 * w == w) by (nonlinear_arith);
}

} // verus!
