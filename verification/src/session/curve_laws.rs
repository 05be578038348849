//! What holds of dragging the points of a tone curve.

use vstd::arithmetic::power2::*;
use vstd::prelude::*;

use crate::document::curve::ToneCurve;
use crate::document::curve_laws;
use crate::document::turn_laws;
use crate::number::bounds;
use crate::number::constants;
use crate::number::laws;
use crate::number::rounding;
use crate::number::scalar::Scalar;
use crate::session::curve_mode;
use crate::session::drag_laws;

verus! {

/// A number from a thousandth upwards is a multiple of the step at a
/// thousandth.
proof fn lemma_multiple(a: Scalar) -> (times: int)
    requires
        a.finite(),
        (Scalar { bits: constants::THOUSANDTH }).at_most(a),
    ensures
        laws::exact(a) == times * pow2(116),
{
    let code = a.value().code as nat;
    lemma2_to64();
    rounding::lemma_decode(code, 24);
    let x = rounding::exponent(code, 24);
    let q = rounding::significand(code, 24);
    assert(code >= 0x3a83_126f);
    assert(x >= 116);
    let over = (x - 116) as nat;
    lemma_pow2_adds(over, 116);
    assert(q * pow2(x) == (q * pow2(over)) * pow2(116)) by (nonlinear_arith)
        requires
            pow2(x) == pow2(over) * pow2(116),
    ;
    (q * pow2(over)) as int
}

/// Numbers whose rounded difference is a thousandth or more are that far
/// apart.
proof fn lemma_apart(a: Scalar, b: Scalar)
    requires
        a.finite(),
        b.finite(),
        (Scalar { bits: constants::THOUSANDTH }).at_most(a),
        (Scalar { bits: constants::THOUSANDTH }).at_most(b),
        (Scalar { bits: constants::THOUSANDTH }).at_most(a.difference(b)),
    ensures
        laws::exact(a) - laws::exact(b) >= laws::exact(Scalar { bits: constants::THOUSANDTH }),
{
    let gap = Scalar { bits: constants::THOUSANDTH };
    let before = Scalar { bits: 0x3a83_126e };
    lemma2_to64();
    lemma_pow2_pos(116);
    rounding::lemma_encode(116, 0x83_126f, 24);
    rounding::lemma_encode(116, 0x83_126e, 24);
    let m = lemma_multiple(a);
    let n = lemma_multiple(b);
    let w = pow2(116);
    if laws::exact(a) - laws::exact(b) < laws::exact(gap) {
        let d = m - n;
        assert(m * w - n * w == d * w) by (nonlinear_arith)
            requires
                d == m - n,
        ;
        if d >= 0x83_126f {
            assert(d * w >= 0x83_126f * w) by (nonlinear_arith)
                requires
                    d >= 0x83_126f,
                    w > 0,
            ;
        } else {
            assert(d * w <= 0x83_126e * w) by (nonlinear_arith)
                requires
                    d <= 0x83_126e,
                    w > 0,
            ;
        }
        assert(laws::exact(a) - laws::exact(b) <= laws::exact(before));
        laws::negation_is_exact(b);
        laws::sum_is_nearest(a, b.negated());
        laws::nearest_is_monotone(laws::exact(a) - laws::exact(b), laws::exact(before));
        laws::nearest_to_itself(before);
        assert(false);
    }
}

/// Every point of a valid curve can be dragged.
pub proof fn points_of_a_valid_curve_can_be_dragged(curve: ToneCurve, point: i32)
    requires
        curve.valid(),
    ensures
        curve_mode::can_be_dragged(curve, point),
{
    let one = Scalar { bits: constants::ONE };
    let gap = Scalar { bits: constants::THOUSANDTH };
    let shadow = curve.shadow_input;
    let mid = curve.midtone_input;
    let high = curve.highlight_input;
    curve_laws::lemma_points(curve);
    laws::order_is_exact(gap, shadow);
    laws::order_is_exact(gap, mid);
    laws::order_is_exact(gap, high);
    laws::order_is_exact(gap, one);
    lemma_apart(mid, shadow);
    lemma_apart(high, mid);
    lemma_apart(one, high);
    laws::negation_is_exact(gap);
    // The bounds lie on either side of where the points are.
    bounds::a_sum_stays_between(mid, gap.negated(), gap, mid);
    bounds::a_sum_stays_between(shadow, gap, shadow, mid);
    bounds::a_sum_stays_between(high, gap.negated(), mid, high);
    bounds::a_sum_stays_between(mid, gap, mid, high);
    bounds::a_sum_stays_between(one, gap.negated(), high, one);
}

/// Whether a point has gone to a place, as far as its neighbours let it: it
/// stays a thousandth away from them. Where it is free it is at the place.
pub open spec fn is_dragged_to(
    new_input: Scalar,
    new_value: Scalar,
    input: Scalar,
    value: Scalar,
    before: int,
    behind: int,
) -> bool {
    let one = turn_laws::whole();
    let place = laws::exact(input);
    let gap = one / 1000;
    let near = one / 0x1_0000;
    &&& new_input.finite()
    &&& new_value.finite()
    &&& laws::exact(new_value) == drag_laws::held(laws::exact(value), 0, one)
    &&& drag_laws::is_near(
        laws::exact(new_input),
        drag_laws::held(place, before + gap, behind - gap),
    )
    &&& before + gap + near <= place <= behind - gap - near ==> new_input == input
}

/// Whether a curve is another with one point dragged to a place. The numbers
/// are those by which the user interface names the points: 0 for the shadows,
/// 1 for the midtones and 2 for the highlights.
pub open spec fn has_a_point_dragged(
    curve: ToneCurve,
    point: i32,
    input: Scalar,
    value: Scalar,
    result: ToneCurve,
) -> bool {
    let shadow = laws::exact(curve.shadow_input);
    let midtone = laws::exact(curve.midtone_input);
    let highlight = laws::exact(curve.highlight_input);
    if point == 0 {
        &&& is_dragged_to(result.shadow_input, result.shadows, input, value, 0, midtone)
        &&& result.midtone_input == curve.midtone_input && result.midtones == curve.midtones
        &&& result.highlight_input == curve.highlight_input && result.highlights
            == curve.highlights
    } else if point == 1 {
        &&& is_dragged_to(result.midtone_input, result.midtones, input, value, shadow, highlight)
        &&& result.shadow_input == curve.shadow_input && result.shadows == curve.shadows
        &&& result.highlight_input == curve.highlight_input && result.highlights
            == curve.highlights
    } else {
        &&& is_dragged_to(
            result.highlight_input,
            result.highlights,
            input,
            value,
            midtone,
            turn_laws::whole(),
        )
        &&& result.shadow_input == curve.shadow_input && result.shadows == curve.shadows
        &&& result.midtone_input == curve.midtone_input && result.midtones == curve.midtones
    }
}

/// A thousandth, in units.
proof fn lemma_thousandth()
    ensures
        ({
            let gap = laws::exact(Scalar { bits: constants::THOUSANDTH });
            let one = turn_laws::whole();
            &&& bounds::absolute(gap - one / 1000) <= turn_laws::step()
            &&& 0 < gap <= one
            &&& one == pow2(149)
        }),
{
    turn_laws::lemma_sizes();
    curve_laws::lemma_constants();
    lemma2_to64();
    rounding::lemma_encode(116, 0x83_126f, 24);
    lemma_pow2_adds(116, 10);
    lemma_pow2_pos(116);
    let unit = pow2(116) as int;
    assert(turn_laws::whole() == 0x2_0000_0000 * unit);
    assert(laws::exact(Scalar { bits: constants::THOUSANDTH }) == 0x83_126f * unit);
}

/// Where a point goes between two limits that are near to the exact ones.
proof fn lemma_dragged_to(
    input: Scalar,
    value: Scalar,
    low: Scalar,
    high: Scalar,
    before: int,
    behind: int,
)
    requires
        input.finite(),
        value.finite(),
        low.finite(),
        high.finite(),
        0 <= laws::exact(low) <= laws::exact(high) <= turn_laws::whole(),
        0 <= before,
        behind <= turn_laws::whole(),
        bounds::absolute(laws::exact(low) - (before + turn_laws::whole() / 1000)) <= 4
            * turn_laws::step(),
        bounds::absolute(laws::exact(high) - (behind - turn_laws::whole() / 1000)) <= 4
            * turn_laws::step(),
    ensures
        ({
            let zero = Scalar { bits: constants::ZERO };
            let one = Scalar { bits: constants::ONE };
            is_dragged_to(
                input.clamped(zero, one).clamped(low, high),
                value.clamped(zero, one),
                input,
                value,
                before,
                behind,
            )
        }),
{
    let zero = Scalar { bits: constants::ZERO };
    let one = Scalar { bits: constants::ONE };
    turn_laws::lemma_sizes();
    turn_laws::lemma_clamped(input, zero, one);
    turn_laws::lemma_clamped(value, zero, one);
    turn_laws::lemma_clamped(input.clamped(zero, one), low, high);
}

/// Dragging a point of a valid curve moves that point, and no other.
pub proof fn a_dragged_point_follows_the_pointer(
    curve: ToneCurve,
    point: i32,
    input: Scalar,
    value: Scalar,
)
    requires
        curve.valid(),
        input.finite(),
        value.finite(),
    ensures
        curve_mode::dragged(curve, point, input, value) is Some <==> 0 <= point <= 2,
        0 <= point <= 2 ==> has_a_point_dragged(
            curve,
            point,
            input,
            value,
            curve_mode::dragged(curve, point, input, value).unwrap(),
        ),
{
    let zero = Scalar { bits: constants::ZERO };
    let one = Scalar { bits: constants::ONE };
    let gap = Scalar { bits: constants::THOUSANDTH };
    turn_laws::lemma_sizes();
    curve_laws::lemma_constants();
    lemma_thousandth();
    curve_laws::lemma_points(curve);
    points_of_a_valid_curve_can_be_dragged(curve, point);
    if 0 <= point <= 2 {
        let (low, high) = curve_mode::reach(curve, point).unwrap();
        let (shadow, midtone, highlight) = (
            curve.shadow_input,
            curve.midtone_input,
            curve.highlight_input,
        );
        turn_laws::lemma_off(midtone, gap);
        turn_laws::lemma_off(highlight, gap);
        turn_laws::lemma_off(one, gap);
        assert(bounds::bounded(shadow, 2) && bounds::bounded(midtone, 2) && bounds::bounded(
            gap,
            2,
        ));
        bounds::a_sum_is_close(shadow, gap, 2);
        bounds::a_sum_is_close(midtone, gap, 2);
        bounds::a_sum_is_bounded(shadow, gap, 2);
        bounds::a_sum_is_bounded(midtone, gap, 2);
        laws::order_is_exact(low, high);
        assert(laws::exact(low) <= laws::exact(high));
        let (before, behind) = if point == 0 {
            (0, laws::exact(midtone))
        } else if point == 1 {
            (laws::exact(shadow), laws::exact(highlight))
        } else {
            (laws::exact(midtone), turn_laws::whole())
        };
        lemma_dragged_to(input, value, low, high, before, behind);
    }
}

} // verus!
