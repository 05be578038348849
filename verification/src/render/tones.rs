//! The numbers that the tonal stages work with.

use vstd::prelude::*;

use crate::document::curve;
use crate::document::curve::ToneCurve;
use crate::document::turn_laws;
use crate::document::values::ShadowsHighlights;
use crate::number::laws;
use crate::number::scalar::Scalar;
use crate::number::wide::Wide;
use crate::number::wide_constants;
use crate::render::contracts::ImageInfo;
use crate::render::geometry;
use crate::render::table_laws;
use crate::render::tone_laws;

verus! {

/// An amount in hundredths.
pub open spec fn hundredths(amount: Scalar) -> Wide {
    amount.widened().quotient(Wide { bits: wide_constants::HUNDRED })
}

fn in_hundredths(amount: Scalar) -> (result: Wide)
    ensures
        result == hundredths(amount),
{
    amount.widen().over(Wide { bits: wide_constants::HUNDRED })
}

/// The factor of the chroma axes for a saturation: nothing at -100, twice at
/// 100.
pub fn chroma_scale(saturation: Scalar) -> (scale: Wide)
    ensures
        scale == (Wide { bits: wide_constants::ONE }).sum(hundredths(saturation)),
        tone_laws::is_usual(saturation) ==> tone_laws::is_one_and_hundredths(scale, saturation),
{
    proof {
        if tone_laws::is_usual(saturation) {
            tone_laws::an_amount_counts_in_hundredths(saturation);
        }
    }
    Wide { bits: wide_constants::ONE }.plus(in_hundredths(saturation))
}

/// The exponent of the lightness for a contrast.
pub fn contrast_gamma(amount: Scalar) -> (gamma: Wide)
    ensures
        gamma == (Wide { bits: wide_constants::ONE }).sum(hundredths(amount)),
        tone_laws::is_usual(amount) ==> tone_laws::is_one_and_hundredths(gamma, amount),
{
    proof {
        if tone_laws::is_usual(amount) {
            tone_laws::an_amount_counts_in_hundredths(amount);
        }
    }
    Wide { bits: wide_constants::ONE }.plus(in_hundredths(amount))
}

/// The gain of the detail for a sharpness.
pub fn sharpness_gain(amount: Scalar) -> (gain: Wide)
    ensures
        gain == hundredths(amount),
        tone_laws::is_usual(amount) ==> tone_laws::is_hundredths(gain, amount),
{
    proof {
        if tone_laws::is_usual(amount) {
            tone_laws::an_amount_counts_in_hundredths(amount);
        }
    }
    in_hundredths(amount)
}

/// The radius of the sharpening at a scale of the source image.
pub open spec fn radius_at(source_scale: Scalar) -> Wide {
    (Wide { bits: wide_constants::ONE }).product(source_scale.widened()).greater(
        Wide { bits: wide_constants::FIFTH },
    )
}

/// The radius of the sharpening, which shrinks with the image: one pixel of
/// the full size.
pub fn sharpness_radius(source_scale: Scalar) -> (radius: Wide)
    ensures
        radius == radius_at(source_scale),
        tone_laws::is_usual(source_scale) ==> tone_laws::is_radius_at(radius, source_scale),
{
    proof {
        if tone_laws::is_usual(source_scale) {
            tone_laws::the_sharpening_goes_with_the_scale(source_scale);
        }
    }
    Wide { bits: wide_constants::ONE }.times(source_scale.widen()).max(
        Wide { bits: wide_constants::FIFTH },
    )
}

/// How far the logarithms of the lightness of shadows and of highlights move.
#[derive(Clone, Copy, Debug, PartialEq)]
pub struct LightShift {
    pub shadows: Wide,
    pub highlights: Wide,
}

/// How far an adjustment moves shadows and highlights.
pub open spec fn shifted(adjustment: ShadowsHighlights) -> LightShift {
    LightShift {
        shadows: adjustment.shadows.widened().negated().quotient(
            Wide { bits: wide_constants::HUNDRED },
        ).product(Wide { bits: wide_constants::ONE }),
        highlights: hundredths(adjustment.highlights).product(Wide { bits: wide_constants::ONE }),
    }
}

/// Finds how far shadows and highlights move: positive shadows darken,
/// positive highlights brighten.
pub fn light_shift(adjustment: ShadowsHighlights) -> (shift: LightShift)
    ensures
        shift == shifted(adjustment),
        tone_laws::is_usual(adjustment.shadows) && tone_laws::is_usual(adjustment.highlights)
            ==> tone_laws::moves_lights(shift, adjustment),
{
    proof {
        if tone_laws::is_usual(adjustment.shadows) && tone_laws::is_usual(adjustment.highlights) {
            tone_laws::lights_move_with_their_sliders(adjustment);
        }
    }
    let one: Wide = Wide { bits: wide_constants::ONE };
    LightShift {
        shadows: adjustment.shadows.widen().negate().over(
            Wide { bits: wide_constants::HUNDRED },
        ).times(one),
        highlights: in_hundredths(adjustment.highlights).times(one),
    }
}

/// The radius of the neighbourhood in an image.
pub open spec fn neighbourhood(info: ImageInfo) -> Wide {
    Wide::integer(geometry::min(info.width as int, info.height as int)).quotient(
        Wide { bits: wide_constants::THREE_HUNDRED },
    ).clamped(Wide { bits: wide_constants::ONE }, Wide { bits: wide_constants::THIRTY_TWO })
}

/// The radius of the neighbourhood that shadows and highlights look at: one
/// three-hundredth of the shorter side, from 1 to 32 pixels.
pub fn neighbourhood_radius(info: ImageInfo) -> (radius: Wide)
    ensures
        radius == neighbourhood(info),
        tone_laws::is_share_of_the_shorter_side(radius, info),
{
    proof {
        tone_laws::the_neighbourhood_goes_with_the_shorter_side(info);
    }
    let shorter: u32 = if info.width <= info.height {
        info.width
    } else {
        info.height
    };
    Wide::from_integer(shorter as i64).over(Wide { bits: wide_constants::THREE_HUNDRED }).clamp(
        Wide { bits: wide_constants::ONE },
        Wide { bits: wide_constants::THIRTY_TWO },
    )
}

/// The outer edge of a vignette.
pub const VIGNETTE_EDGE: u64 = 0x3ff6_6666_6666_6666;

/// How far the inner edge of a vignette moves with its strength.
pub const VIGNETTE_REACH: u64 = 0x3fe3_3333_3333_3333;

/// The straight line from the distance to the center to the falloff.
#[derive(Clone, Copy, Debug, PartialEq)]
pub struct Ramp {
    pub scale: Wide,
    pub offset: Wide,
}

/// The inner edge of a vignette.
pub open spec fn inner_edge(strength: Scalar) -> Wide {
    (Wide { bits: wide_constants::ONE }).difference(
        (Wide { bits: VIGNETTE_REACH }).product(strength.widened()),
    )
}

/// The ramp of a vignette.
pub open spec fn falloff(strength: Scalar) -> Ramp {
    let span = (Wide { bits: VIGNETTE_EDGE }).difference(inner_edge(strength));
    Ramp {
        scale: (Wide { bits: wide_constants::ONE }).quotient(span),
        offset: inner_edge(strength).negated().quotient(span),
    }
}

/// Finds the ramp of a vignette: nothing at the inner edge, all at the outer
/// edge. The inner edge moves inwards as the strength grows.
pub fn vignette_ramp(strength: Scalar) -> (ramp: Ramp)
    ensures
        ramp == falloff(strength),
        strength.finite() && 0 <= laws::exact(strength) <= turn_laws::whole()
            ==> tone_laws::runs_between_the_edges(ramp, strength),
{
    proof {
        if strength.finite() && 0 <= laws::exact(strength) <= turn_laws::whole() {
            tone_laws::a_vignette_runs_between_its_edges(strength);
        }
    }
    let one: Wide = Wide { bits: wide_constants::ONE };
    let inner: Wide = one.minus(Wide { bits: VIGNETTE_REACH }.times(strength.widen()));
    let span: Wide = Wide { bits: VIGNETTE_EDGE }.minus(inner);
    Ramp { scale: one.over(span), offset: inner.negate().over(span) }
}

/// The place of a row or a column from the middle, in halves of the shorter
/// side.
pub open spec fn place_from_middle(index: int, count: int, shorter: int) -> Scalar {
    let half = Wide { bits: wide_constants::HALF };
    Wide::integer(index).difference(Wide::integer(count - 1).product(half)).quotient(
        Wide::integer(shorter).product(half),
    ).narrowed()
}

/// Finds the places of all rows, or of all columns, from the middle.
pub fn vignette_places(count: u32, shorter: u32) -> (places: Vec<Scalar>)
    ensures
        places.len() == count,
        forall|i: int|
            0 <= i < count ==> #[trigger] places[i] == place_from_middle(
                i,
                count as int,
                shorter as int,
            ),
        shorter > 0 ==> forall|i: int|
            0 <= i < count ==> tone_laws::is_place_from_middle(
                #[trigger] places[i],
                i,
                count as int,
                shorter as int,
            ),
{
    let half: Wide = Wide { bits: wide_constants::HALF };
    let mut places: Vec<Scalar> = Vec::new();
    let middle: Wide = Wide::from_integer(count as i64 - 1).times(half);
    let unit: Wide = Wide::from_integer(shorter as i64).times(half);
    let mut i: u32 = 0;
    while i < count
        invariant
            i <= count,
            places.len() == i,
            middle == Wide::integer(count - 1).product(Wide { bits: wide_constants::HALF }),
            unit == Wide::integer(shorter as int).product(Wide { bits: wide_constants::HALF }),
            forall|j: int|
                0 <= j < i ==> #[trigger] places[j] == place_from_middle(
                    j,
                    count as int,
                    shorter as int,
                ),
        decreases count - i,
    {
        places.push(Wide::from_integer(i as i64).minus(middle).over(unit).narrow());
        i = i + 1;
    }
    proof {
        if shorter > 0 {
            assert forall|i: int| 0 <= i < count implies tone_laws::is_place_from_middle(
                #[trigger] places[i],
                i,
                count as int,
                shorter as int,
            ) by {
                tone_laws::places_count_from_the_middle(i, count, shorter);
            }
        }
    }
    places
}

/// The number of entries of the table that a tone curve is applied by.
pub const CURVE_TABLE_LEN: u32 = 65536;

/// The largest index of the table.
pub const CURVE_TABLE_LAST: u32 = 0x477f_ff00;

/// An entry of the table.
pub open spec fn table_entry(curve: ToneCurve, index: int) -> Scalar {
    curve.at(Scalar::integer(index).quotient(Scalar { bits: CURVE_TABLE_LAST }))
}

/// Makes the table that a tone curve is applied by.
pub fn tone_curve_lut(curve: ToneCurve) -> (table: Vec<Scalar>)
    ensures
        table.len() == CURVE_TABLE_LEN,
        forall|i: int|
            0 <= i < CURVE_TABLE_LEN ==> #[trigger] table[i] == table_entry(curve, i),
        curve.valid() ==> forall|i: int|
            0 <= i < CURVE_TABLE_LEN ==> table_laws::keeps_to_the_points(
                curve,
                i,
                #[trigger] table[i],
            ),
{
    let mut table: Vec<Scalar> = Vec::new();
    let mut i: u32 = 0;
    while i < CURVE_TABLE_LEN
        invariant
            i <= CURVE_TABLE_LEN,
            table.len() == i,
            forall|j: int| 0 <= j < i ==> #[trigger] table[j] == table_entry(curve, j),
        decreases CURVE_TABLE_LEN - i,
    {
        table.push(
            curve.sample(
                Scalar::from_integer(i as i64).over(Scalar { bits: CURVE_TABLE_LAST }),
            ),
        );
        i = i + 1;
    }
    proof {
        if curve.valid() {
            assert forall|i: int| 0 <= i < CURVE_TABLE_LEN implies table_laws::keeps_to_the_points(
                curve,
                i,
                #[trigger] table[i],
            ) by {
                table_laws::a_table_keeps_to_the_points(curve, i);
            }
        }
    }
    table
}

/// How the samples of a channel are stored.
#[derive(Clone, Copy, Debug, PartialEq, Eq, Structural)]
pub enum SampleFormat {
    Uchar,
    Ushort,
    Uint,
    Char,
    Short,
    Int,
    Float,
    Double,
    Other,
}

/// The value of a fully opaque sample, where the format has one.
pub open spec fn opaque_value(format: SampleFormat) -> Option<int> {
    match format {
        SampleFormat::Uchar => Some(255),
        SampleFormat::Ushort => Some(65535),
        SampleFormat::Uint => Some(u32::MAX as int),
        SampleFormat::Char => Some(i8::MAX as int),
        SampleFormat::Short => Some(i16::MAX as int),
        SampleFormat::Int => Some(i32::MAX as int),
        SampleFormat::Float | SampleFormat::Double => Some(1),
        SampleFormat::Other => None,
    }
}

/// What an alpha channel is multiplied by.
pub open spec fn alpha_factor(format: SampleFormat) -> Option<Wide> {
    match opaque_value(format) {
        Some(maximum) => Some(
            (Wide { bits: wide_constants::ONE }).quotient(Wide::integer(maximum)),
        ),
        None => None,
    }
}

/// The factor that brings an alpha channel into the range from zero to one.
pub fn alpha_to_unit(format: SampleFormat) -> (factor: Option<Wide>)
    ensures
        factor == alpha_factor(format),
        tone_laws::makes_opaque_one(factor, format),
{
    proof {
        tone_laws::what_is_opaque_becomes_one(format);
    }
    let maximum: i64 = match format {
        SampleFormat::Uchar => 255,
        SampleFormat::Ushort => 65535,
        SampleFormat::Uint => u32::MAX as i64,
        SampleFormat::Char => 127,
        SampleFormat::Short => 32767,
        SampleFormat::Int => i32::MAX as i64,
        SampleFormat::Float | SampleFormat::Double => 1,
        SampleFormat::Other => {
            return None;
        },
    };
    Some(Wide { bits: wide_constants::ONE }.over(Wide::from_integer(maximum)))
}

} // verus!
