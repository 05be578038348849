//! What holds of crops.

use vstd::arithmetic::power2::*;
use vstd::prelude::*;

use crate::document::project;
use crate::document::values::CropRect;
use crate::number::binary;
use crate::number::binary::Format;
use crate::number::constants;
use crate::number::laws;
use crate::number::rounding;
use crate::number::scalar::Scalar;

verus! {

proof fn lemma_constants()
    ensures
        laws::exact(Scalar { bits: constants::ZERO }) == 0,
        laws::exact(Scalar { bits: constants::ONE }) == 0x80_0000 * pow2(126),
        laws::exact(Scalar { bits: constants::TWO }) == 0x100_0000 * pow2(126),
        laws::exact(Scalar { bits: constants::TINY }) >= pow2(126),
        laws::exact(Scalar { bits: constants::TINY }) <= laws::exact(
            Scalar { bits: constants::ONE },
        ),
        laws::exact(Scalar { bits: constants::HUNDREDTH }) > 0,
        pow2(126) == 2 * pow2(125),
        pow2(125) > 0,
{
    lemma2_to64();
    rounding::lemma_encode(0, 0, 24);
    rounding::lemma_encode(126, 0x80_0000, 24);
    rounding::lemma_encode(127, 0x80_0000, 24);
    rounding::lemma_encode(109, 0xa7_c5ac, 24);
    lemma_pow2_unfold(126);
    lemma_pow2_unfold(127);
    lemma_pow2_pos(125);
    lemma_pow2_adds(109, 17);
    lemma_pow2_pos(109);
    assert(pow2(126) == pow2(109) * 0x2_0000);
    laws::order_is_exact(Scalar { bits: constants::TINY }, Scalar { bits: constants::ONE });
    laws::order_is_exact(Scalar { bits: constants::ZERO }, Scalar { bits: constants::HUNDREDTH });
}

/// What the whole leaves beside an extent is at most half a step too much.
pub proof fn lemma_room_is_close(extent: Scalar)
    requires
        extent.finite(),
        0 <= laws::exact(extent) <= laws::exact(Scalar { bits: constants::ONE }),
    ensures
        ({
            let rest = (Scalar { bits: constants::ONE }).difference(extent);
            &&& rest.finite()
            &&& 0 <= laws::exact(rest)
            &&& laws::exact(rest) + laws::exact(extent) <= laws::exact(
                Scalar { bits: constants::ONE },
            ) + pow2(125)
        }),
{
    let one = Scalar { bits: constants::ONE };
    let zero = Scalar { bits: constants::ZERO };
    let rest = one.difference(extent);
    lemma_constants();
    laws::negation_is_exact(extent);
    laws::sum_is_nearest(one, extent.negated());
    let n = (laws::exact(one) - laws::exact(extent)) as nat;
    let c = rounding::nearest(n, 1, 24);
    rounding::lemma_rounds(n, 1, 24);
    laws::nearest_is_monotone(n as int, laws::exact(one));
    laws::nearest_to_itself(one);
    laws::nearest_is_monotone(0, n as int);
    laws::nearest_to_itself(zero);
    assert(rest.value().rank() == c);
    assert(laws::exact(rest) == rounding::magnitude(c, 24)) by {
        rounding::lemma_zero_magnitude(24);
    }
    if c > 0 {
        let below = (c - 1) as nat;
        rounding::lemma_step(below, 24);
        rounding::lemma_decode(below, 24);
        let x = rounding::exponent(below, 24);
        if x > 126 {
            lemma_pow2_strictly_increases(126, x);
            lemma2_to64();
            assert(rounding::significand(below, 24) * pow2(x) > 0x80_0000 * pow2(126))
                by (nonlinear_arith)
                requires
                    rounding::significand(below, 24) >= 0x80_0000,
                    pow2(x) > pow2(126),
            ;
        } else if x < 126 {
            lemma_pow2_strictly_increases(x, 126);
        }
    } else {
        rounding::lemma_zero_magnitude(24);
    }
}

/// One direction of a rectangle, moved inside the whole.
proof fn lemma_inside(position: Scalar, extent: Scalar)
    requires
        position.finite(),
        extent.within(Scalar { bits: constants::HUNDREDTH }, Scalar { bits: constants::ONE }),
    ensures
        ({
            let one = Scalar { bits: constants::ONE };
            let zero = Scalar { bits: constants::ZERO };
            let moved = position.clamped(zero, one.difference(extent));
            &&& moved.finite()
            &&& zero.at_most(moved)
            &&& moved.sum(extent).at_most(one.sum(Scalar { bits: constants::TINY }))
        }),
{
    let one = Scalar { bits: constants::ONE };
    let zero = Scalar { bits: constants::ZERO };
    let tiny = Scalar { bits: constants::TINY };
    let least = Scalar { bits: constants::HUNDREDTH };
    let rest = one.difference(extent);
    let moved = position.clamped(zero, rest);
    lemma_constants();
    laws::order_is_exact(extent, one);
    laws::order_is_exact(least, extent);
    lemma_room_is_close(extent);
    laws::order_is_exact(zero, rest);
    laws::order_is_exact(moved, rest);
    laws::order_is_exact(zero, moved);
    assert(moved.at_most(rest));
    laws::sum_is_nearest(moved, extent);
    laws::sum_is_nearest(one, tiny);
    laws::nearest_is_monotone(
        laws::exact(moved) + laws::exact(extent),
        laws::exact(one) + laws::exact(tiny),
    );
}

/// A rectangle at a finite position, moved and resized to lie inside the
/// image, is one that may be cropped to.
pub proof fn a_normalized_crop_is_valid(rect: CropRect)
    requires
        rect.x.finite(),
        rect.y.finite(),
        rect.measurable(),
    ensures
        rect.inside().valid(),
        rect.inside().measurable(),
{
    lemma_inside(rect.x, rect.inside().width);
    lemma_inside(rect.y, rect.inside().height);
}

/// A difference of numbers up to two is finite.
proof fn lemma_small_difference(a: Scalar, b: Scalar)
    requires
        a.finite(),
        b.finite(),
        -laws::exact(Scalar { bits: constants::TWO }) <= laws::exact(a) - laws::exact(b)
            <= laws::exact(Scalar { bits: constants::TWO }),
    ensures
        a.difference(b).finite(),
        -laws::exact(Scalar { bits: constants::TWO }) <= laws::exact(a.difference(b))
            <= laws::exact(Scalar { bits: constants::TWO }),
{
    let two = Scalar { bits: constants::TWO };
    let gap = laws::exact(a) - laws::exact(b);
    laws::negation_is_exact(b);
    laws::negation_is_exact(two);
    laws::sum_is_nearest(a, b.negated());
    laws::nearest_is_monotone(gap, laws::exact(two));
    laws::nearest_is_monotone(-laws::exact(two), gap);
    laws::nearest_to_itself(two);
    laws::nearest_to_itself(two.negated());
    let d = a.difference(b);
    binary::rank_orders_units(d.value(), two.value(), Format::Single);
    binary::rank_orders_units(two.negated().value(), d.value(), Format::Single);
}

/// A position in a crop that is in range is at most two.
proof fn lemma_position_is_small(position: Scalar, extent: Scalar)
    requires
        position.finite(),
        extent.finite(),
        (Scalar { bits: constants::ZERO }).at_most(position),
        (Scalar { bits: constants::HUNDREDTH }).at_most(extent),
        position.sum(extent).at_most(
            (Scalar { bits: constants::ONE }).sum(Scalar { bits: constants::TINY }),
        ),
    ensures
        0 <= laws::exact(position) <= laws::exact(Scalar { bits: constants::TWO }),
        0 <= laws::exact(extent) <= laws::exact(Scalar { bits: constants::TWO }),
{
    let zero = Scalar { bits: constants::ZERO };
    let one = Scalar { bits: constants::ONE };
    let two = Scalar { bits: constants::TWO };
    let tiny = Scalar { bits: constants::TINY };
    let least = Scalar { bits: constants::HUNDREDTH };
    lemma_constants();
    laws::order_is_exact(zero, position);
    laws::order_is_exact(least, extent);
    laws::sum_is_nearest(position, extent);
    laws::sum_is_nearest(one, tiny);
    let total = laws::exact(position) + laws::exact(extent);
    laws::nearest_is_monotone(laws::exact(one) + laws::exact(tiny), laws::exact(two));
    laws::nearest_is_monotone(laws::exact(position), total);
    laws::nearest_is_monotone(laws::exact(extent), total);
    laws::nearest_to_itself(position);
    laws::nearest_to_itself(extent);
    laws::nearest_to_itself(two);
    laws::order_is_exact(position, two);
    laws::order_is_exact(extent, two);
}

/// A crop in range, turned to the right, is in range.
pub proof fn turning_a_crop_keeps_it_valid(rect: CropRect)
    requires
        rect.valid(),
    ensures
        rect.turned_right().valid(),
        rect.turned_left().valid(),
        rect.measurable(),
{
    let one = Scalar { bits: constants::ONE };
    lemma_constants();
    lemma_position_is_small(rect.x, rect.width);
    lemma_position_is_small(rect.y, rect.height);
    lemma_small_difference(one, rect.y);
    lemma_small_difference(one, rect.x);
    let from_y = one.difference(rect.y);
    let from_x = one.difference(rect.x);
    lemma_wide_difference(from_y, rect.height);
    lemma_wide_difference(from_x, rect.width);
    a_normalized_crop_is_valid(
        CropRect {
            x: from_y.difference(rect.height),
            y: rect.x,
            width: rect.height,
            height: rect.width,
        },
    );
    a_normalized_crop_is_valid(
        CropRect {
            x: rect.y,
            y: from_x.difference(rect.width),
            width: rect.height,
            height: rect.width,
        },
    );
}

/// A difference of numbers within two of zero is finite.
proof fn lemma_wide_difference(a: Scalar, b: Scalar)
    requires
        a.finite(),
        b.finite(),
        -laws::exact(Scalar { bits: constants::TWO }) <= laws::exact(a) <= laws::exact(
            Scalar { bits: constants::TWO },
        ),
        0 <= laws::exact(b) <= laws::exact(Scalar { bits: constants::TWO }),
    ensures
        a.difference(b).finite(),
{
    let bound = Scalar { bits: constants::THOUSAND };
    let two = Scalar { bits: constants::TWO };
    let gap = laws::exact(a) - laws::exact(b);
    lemma_constants();
    lemma2_to64();
    rounding::lemma_encode(135, 0xfa_0000, 24);
    lemma_pow2_adds(126, 9);
    assert(laws::exact(bound) == 0xfa_0000 * pow2(135));
    assert(pow2(135) == pow2(126) * 0x200);
    laws::negation_is_exact(b);
    laws::negation_is_exact(bound);
    laws::sum_is_nearest(a, b.negated());
    laws::nearest_is_monotone(gap, laws::exact(bound));
    laws::nearest_is_monotone(-laws::exact(bound), gap);
    laws::nearest_to_itself(bound);
    laws::nearest_to_itself(bound.negated());
}

/// A crop in range, turned any number of times, is in range.
pub proof fn turning_on_keeps_a_crop_valid(rect: CropRect, quarter_turns: int)
    requires
        rect.valid(),
    ensures
        project::turned(rect, quarter_turns).valid(),
    decreases quarter_turns,
{
    if quarter_turns > 0 {
        turning_on_keeps_a_crop_valid(rect, quarter_turns - 1);
        turning_a_crop_keeps_it_valid(project::turned(rect, quarter_turns - 1));
    }
}

} // verus!
