//! What holds of tone curves.

use vstd::arithmetic::power2::*;
use vstd::prelude::*;

use crate::document::curve;
use crate::document::curve::ToneCurve;
use crate::document::values;
use crate::number::bounds;
use crate::number::constants;
use crate::number::laws;
use crate::number::rounding;
use crate::number::scalar::Scalar;

verus! {

/// The constants that curves are made of, in units.
pub proof fn lemma_constants()
    ensures
        laws::exact(Scalar { bits: constants::ZERO }) == 0,
        laws::exact(Scalar { bits: constants::ONE }) == pow2(149),
        laws::exact(Scalar { bits: constants::TWO }) == 2 * pow2(149),
        laws::exact(Scalar { bits: constants::THREE }) == 3 * pow2(149),
        pow2(150) == 2 * pow2(149),
        pow2(151) == 4 * pow2(149),
        laws::exact(Scalar { bits: constants::THOUSANDTH }) >= pow2(139),
        laws::exact(Scalar { bits: constants::EPSILON }) == pow2(126),
        laws::exact(Scalar { bits: constants::NINE }) >= pow2(149),
        pow2(149) > 0,
{
    lemma2_to64();
    rounding::lemma_encode(0, 0, 24);
    rounding::lemma_encode(126, 0x80_0000, 24);
    rounding::lemma_encode(127, 0x80_0000, 24);
    rounding::lemma_encode(127, 0xc0_0000, 24);
    rounding::lemma_encode(129, 0x90_0000, 24);
    rounding::lemma_encode(116, 0x83_126f, 24);
    rounding::lemma_encode(103, 0x80_0000, 24);
    lemma_pow2_adds(23, 126);
    lemma_pow2_adds(23, 127);
    lemma_pow2_adds(23, 116);
    lemma_pow2_adds(23, 103);
    lemma_pow2_unfold(150);
    lemma_pow2_unfold(151);
    lemma_pow2_unfold(127);
    lemma_pow2_pos(149);
    lemma_pow2_pos(116);
    lemma_pow2_pos(126);
    laws::order_is_exact(Scalar { bits: constants::ONE }, Scalar { bits: constants::NINE });
}

/// A number of nought is nought exactly.
pub proof fn lemma_nought(a: Scalar)
    ensures
        bounds::nought(a) <==> laws::exact(a) == 0,
        bounds::nought(a) ==> a.finite(),
{
    rounding::lemma_zero_magnitude(24);
    if a.value().code > 0 {
        rounding::lemma_increasing(0, a.value().code as nat, 24);
    }
}

/// A smaller bound is within a larger one.
pub proof fn lemma_wider(a: Scalar, j: int, k: int)
    requires
        bounds::bounded(a, j),
        -149 <= j <= k,
    ensures
        bounds::bounded(a, k),
{
    if j < k {
        lemma_pow2_strictly_increases((149 + j) as nat, (149 + k) as nat);
    }
}

/// Zero is within every bound.
proof fn lemma_zero_is_bounded(a: Scalar, k: int)
    requires
        bounds::nought(a),
    ensures
        bounds::bounded(a, k),
{
    lemma_nought(a);
    lemma_pow2_pos((149 + k) as nat);
}

/// The difference of two numbers from zero to one.
proof fn lemma_unit_difference(a: Scalar, b: Scalar)
    requires
        a.within(Scalar { bits: constants::ZERO }, Scalar { bits: constants::ONE }),
        b.within(Scalar { bits: constants::ZERO }, Scalar { bits: constants::ONE }),
    ensures
        bounds::bounded(a.difference(b), 0),
{
    let zero = Scalar { bits: constants::ZERO };
    let one = Scalar { bits: constants::ONE };
    lemma_constants();
    laws::order_is_exact(zero, a);
    laws::order_is_exact(a, one);
    laws::order_is_exact(zero, b);
    laws::order_is_exact(b, one);
    laws::negation_is_exact(b);
    laws::negation_is_exact(one);
    bounds::a_sum_stays_between(a, b.negated(), one.negated(), one);
    laws::order_is_exact(one.negated(), a.difference(b));
    laws::order_is_exact(a.difference(b), one);
}

/// A difference that is at least a number above zero is between numbers in
/// order.
proof fn lemma_in_order(a: Scalar, b: Scalar)
    requires
        a.finite(),
        b.finite(),
        (Scalar { bits: constants::THOUSANDTH }).at_most(a.difference(b)),
    ensures
        laws::exact(b) < laws::exact(a),
{
    let zero = Scalar { bits: constants::ZERO };
    laws::difference_has_the_sign_of_the_order(a, b);
    laws::order_is_exact(a, b);
}

/// The inputs of a valid curve are in order and from zero to one, and so are
/// its values.
pub proof fn lemma_points(curve: ToneCurve)
    requires
        curve.valid(),
    ensures
        forall|i: int|
            0 <= i < 5 ==> (#[trigger] curve.inputs()[i]).within(
                Scalar { bits: constants::ZERO },
                Scalar { bits: constants::ONE },
            ),
        forall|i: int|
            0 <= i < 5 ==> (#[trigger] curve.values()[i]).within(
                Scalar { bits: constants::ZERO },
                Scalar { bits: constants::ONE },
            ),
        0 < laws::exact(curve.shadow_input) < laws::exact(curve.midtone_input) < laws::exact(
            curve.highlight_input,
        ) < laws::exact(Scalar { bits: constants::ONE }),
{
    let zero = Scalar { bits: constants::ZERO };
    let one = Scalar { bits: constants::ONE };
    let gap = Scalar { bits: constants::THOUSANDTH };
    lemma_constants();
    lemma_pow2_pos(139);
    laws::order_is_exact(gap, curve.shadow_input);
    lemma_in_order(curve.midtone_input, curve.shadow_input);
    lemma_in_order(curve.highlight_input, curve.midtone_input);
    lemma_in_order(one, curve.highlight_input);
    assert forall|i: int| 0 <= i < 5 implies (#[trigger] curve.inputs()[i]).within(zero, one) by {
        let x = curve.inputs()[i];
        assert(x == zero || x == curve.shadow_input || x == curve.midtone_input || x
            == curve.highlight_input || x == one);
        laws::order_is_exact(zero, x);
        laws::order_is_exact(x, one);
    }
    laws::order_is_exact(zero, one);
    laws::order_is_exact(zero, zero);
    laws::order_is_exact(one, one);
    assert forall|i: int| 0 <= i < 5 implies (#[trigger] curve.values()[i]).within(zero, one) by {
        let y = curve.values()[i];
        assert(y == zero || y == curve.shadows || y == curve.midtones || y == curve.highlights || y
            == one);
    }
}

/// The intervals of a valid curve lie between a thousandth and one.
pub proof fn lemma_interval(curve: ToneCurve, segment: int)
    requires
        curve.valid(),
        0 <= segment < 4,
    ensures
        ({
            let interval = curve::interval(curve.inputs(), segment);
            &&& bounds::bounded(interval, 0)
            &&& bounds::sizeable(interval, -10)
            &&& !interval.value().negative
            &&& !bounds::nought(interval)
        }),
{
    let zero = Scalar { bits: constants::ZERO };
    let one = Scalar { bits: constants::ONE };
    let gap = Scalar { bits: constants::THOUSANDTH };
    let inputs = curve.inputs();
    let interval = curve::interval(inputs, segment);
    lemma_constants();
    lemma_points(curve);
    assert(inputs[segment].within(zero, one) && inputs[segment + 1].within(zero, one));
    lemma_unit_difference(inputs[segment + 1], inputs[segment]);
    if segment == 0 {
        laws::negation_is_exact(zero);
        bounds::an_exact_sum_is_kept(curve.shadow_input, zero.negated(), curve.shadow_input);
        laws::order_is_exact(interval, curve.shadow_input);
        laws::order_is_exact(gap, curve.shadow_input);
        laws::order_is_exact(gap, interval);
    }
    assert(gap.at_most(interval));
    laws::order_is_exact(gap, interval);
    lemma_pow2_pos(139);
    lemma_nought(interval);
}

/// The slopes of a valid curve are limited.
pub proof fn lemma_slope(curve: ToneCurve, segment: int)
    requires
        curve.valid(),
        0 <= segment < 4,
    ensures
        bounds::bounded(curve::slope(curve.inputs(), curve.values(), segment), 10),
{
    let values = curve.values();
    lemma_points(curve);
    lemma_interval(curve, segment);
    assert(values[segment].within(
        Scalar { bits: constants::ZERO },
        Scalar { bits: constants::ONE },
    ) && values[segment + 1].within(
        Scalar { bits: constants::ZERO },
        Scalar { bits: constants::ONE },
    ));
    lemma_unit_difference(values[segment + 1], values[segment]);
    bounds::a_quotient_is_bounded(
        values[segment + 1].difference(values[segment]),
        curve::interval(curve.inputs(), segment),
        0,
        -10,
    );
}

/// The weight of a slope is at least one of the intervals, and limited.
pub proof fn lemma_weight(doubled: Scalar, plain: Scalar)
    requires
        bounds::bounded(doubled, 0),
        bounds::bounded(plain, 0),
        bounds::sizeable(plain, -10),
        !doubled.value().negative,
        !plain.value().negative,
    ensures
        ({
            let weight = (Scalar { bits: constants::TWO }).product(doubled).sum(plain);
            &&& bounds::bounded(weight, 2)
            &&& bounds::sizeable(weight, -10)
            &&& !weight.value().negative
            &&& plain.sum((Scalar { bits: constants::TWO }).product(doubled)) == weight
        }),
{
    let zero = Scalar { bits: constants::ZERO };
    let two = Scalar { bits: constants::TWO };
    let twice = two.product(doubled);
    let weight = twice.sum(plain);
    lemma_constants();
    lemma_pow2_pos(139);
    bounds::a_product_is_bounded(two, doubled, 1, 0);
    lemma_wider(plain, 0, 1);
    bounds::a_sum_is_bounded(twice, plain, 1);
    assert(!twice.value().negative) by {
        reveal(Scalar::product);
    }
    laws::order_is_exact(zero, twice);
    laws::sum_is_monotone(zero, twice, plain);
    bounds::an_exact_sum_is_kept(zero, plain, plain);
    laws::order_is_exact(zero.sum(plain), plain);
    laws::order_is_exact(zero.sum(plain), weight);
    assert(plain.sum(twice) == weight) by {
        reveal(Scalar::sum);
    }
}

/// The sum of two numbers of the same sign is at least as large as one of
/// them.
pub proof fn lemma_same_sign(a: Scalar, b: Scalar, k: int)
    requires
        !a.nan(),
        !b.nan(),
        a.value().negative == b.value().negative,
        bounds::units(a) >= bounds::power(k),
        -149 <= k <= 0,
    ensures
        !a.sum(b).nan(),
        a.sum(b).finite() ==> bounds::sizeable(a.sum(b), k),
{
    if a.finite() && b.finite() {
        laws::sum_is_nearest(a, b);
        let low = if a.value().negative {
            laws::exact(a) + laws::exact(b)
        } else {
            laws::exact(a)
        };
        let high = if a.value().negative {
            laws::exact(a)
        } else {
            laws::exact(a) + laws::exact(b)
        };
        laws::nearest_is_monotone(low, high);
        laws::nearest_to_itself(a);
        let total = a.sum(b);
        if total.finite() {
            laws::order_is_exact(a, total);
            lemma_pow2_pos((149 + k) as nat);
        }
    } else {
        reveal(Scalar::sum);
    }
}

/// The tangent between two segments is limited.
proof fn lemma_joint(
    before: Scalar,
    after: Scalar,
    before_interval: Scalar,
    after_interval: Scalar,
)
    requires
        bounds::bounded(before, 10),
        bounds::bounded(after, 10),
        bounds::bounded(before_interval, 0),
        bounds::bounded(after_interval, 0),
        bounds::sizeable(before_interval, -10),
        bounds::sizeable(after_interval, -10),
        !before_interval.value().negative,
        !after_interval.value().negative,
    ensures
        bounds::bounded(
            curve::joint_tangent(before, after, before_interval, after_interval),
            23,
        ),
{
    let zero = Scalar { bits: constants::ZERO };
    let two = Scalar { bits: constants::TWO };
    lemma_constants();
    lemma_nought(zero);
    lemma_zero_is_bounded(zero, 23);
    if !before.product(after).at_most(zero) {
        bounds::a_product_is_bounded(before, after, 10, 10);
        if bounds::nought(before) || bounds::nought(after) {
            bounds::a_product_with_zero_is_zero(before, after);
            assert(false);
        }
        assert(before.value().negative == after.value().negative) by {
            reveal(Scalar::product);
        }
        lemma_weight(after_interval, before_interval);
        lemma_weight(before_interval, after_interval);
        let before_weight = two.product(after_interval).sum(before_interval);
        let after_weight = after_interval.sum(two.product(before_interval));
        bounds::a_quotient_is_sizeable(before_weight, before, -10, 10);
        bounds::a_quotient_is_sizeable(after_weight, after, -10, 10);
        let first = before_weight.quotient(before);
        let second = after_weight.quotient(after);
        lemma_same_sign(first, second, -20);
        let total = before_weight.sum(after_weight);
        bounds::a_sum_is_bounded(before_weight, after_weight, 2);
        let divisor = first.sum(second);
        if divisor.finite() {
            bounds::a_quotient_is_bounded(total, divisor, 3, -20);
        } else {
            assert(bounds::nought(total.quotient(divisor))) by {
                reveal(Scalar::quotient);
            }
            lemma_zero_is_bounded(total.quotient(divisor), 23);
        }
    }
}

/// The tangents before they are limited.
pub proof fn lemma_plain_tangent(curve: ToneCurve, point: int)
    requires
        curve.valid(),
        0 <= point < 5,
    ensures
        bounds::bounded(curve::plain_tangent(curve.inputs(), curve.values(), point), 23),
{
    if point == 0 {
        lemma_slope(curve, 0);
        lemma_wider(curve::slope(curve.inputs(), curve.values(), 0), 10, 23);
    } else if point == 4 {
        lemma_slope(curve, 3);
        lemma_wider(curve::slope(curve.inputs(), curve.values(), 3), 10, 23);
    } else {
        lemma_slope(curve, point - 1);
        lemma_slope(curve, point);
        lemma_interval(curve, point - 1);
        lemma_interval(curve, point);
        lemma_joint(
            curve::slope(curve.inputs(), curve.values(), point - 1),
            curve::slope(curve.inputs(), curve.values(), point),
            curve::interval(curve.inputs(), point - 1),
            curve::interval(curve.inputs(), point),
        );
    }
}

/// The factor by which tangents are scaled down is limited.
proof fn lemma_scale(magnitude: Scalar)
    requires
        (Scalar { bits: constants::NINE }).below(magnitude),
    ensures
        bounds::bounded(
            (Scalar { bits: constants::THREE }).quotient(magnitude.root()),
            2,
        ),
{
    let nine = Scalar { bits: constants::NINE };
    let three = Scalar { bits: constants::THREE };
    lemma_constants();
    if magnitude.finite() {
        laws::order_is_exact(nine, magnitude);
        bounds::a_root_is_sizeable(magnitude);
        bounds::a_quotient_is_bounded(three, magnitude.root(), 2, 0);
    } else {
        assert(magnitude.root() == magnitude) by {
            reveal(Scalar::root);
        }
        assert(bounds::nought(three.quotient(magnitude))) by {
            reveal(Scalar::quotient);
        }
        lemma_zero_is_bounded(three.quotient(magnitude), 2);
    }
}

/// Limiting tangents keeps them finite.
proof fn lemma_limited(first: Scalar, second: Scalar, slope: Scalar, j: int, k: int)
    requires
        bounds::bounded(first, j),
        bounds::bounded(second, k),
        bounds::bounded(slope, 10),
        0 <= j <= 58,
        0 <= k <= 58,
    ensures
        bounds::bounded(curve::limited(first, second, slope).0, j + 35),
        bounds::bounded(curve::limited(first, second, slope).1, k + 35),
{
    let zero = Scalar { bits: constants::ZERO };
    let three = Scalar { bits: constants::THREE };
    let nine = Scalar { bits: constants::NINE };
    let epsilon = Scalar { bits: constants::EPSILON };
    lemma_constants();
    lemma_nought(zero);
    lemma_zero_is_bounded(zero, j + 35);
    lemma_zero_is_bounded(zero, k + 35);
    lemma_wider(first, j, j + 35);
    lemma_wider(second, k, k + 35);
    if !values::negligible(slope) {
        assert(slope.size().finite());
        laws::order_is_exact(slope.size(), epsilon);
        assert(bounds::units(slope.size()) == bounds::units(slope));
        assert(bounds::sizeable(slope, -23));
        bounds::a_quotient_is_bounded(first, slope, j, -23);
        bounds::a_quotient_is_bounded(second, slope, k, -23);
        let a = first.quotient(slope);
        let b = second.quotient(slope);
        let magnitude = a.product(a).sum(b.product(b));
        if nine.below(magnitude) {
            lemma_scale(magnitude);
            let scale = three.quotient(magnitude.root());
            bounds::a_product_is_bounded(scale, a, 2, j + 23);
            bounds::a_product_is_bounded(scale, b, 2, k + 23);
            bounds::a_product_is_bounded(scale.product(a), slope, j + 25, 10);
            bounds::a_product_is_bounded(scale.product(b), slope, k + 25, 10);
        }
    }
}

/// The bounds of the tangents while they are being limited.
spec fn tangents_are_bounded(tangents: Seq<Scalar>, count: int) -> bool {
    &&& tangents.len() == 5
    &&& forall|i: int| 0 <= i < count && i < 5 ==> bounds::bounded(#[trigger] tangents[i], 93)
    &&& forall|i: int| i == count && 0 <= i < 5 ==> bounds::bounded(#[trigger] tangents[i], 58)
    &&& forall|i: int| count < i < 5 ==> bounds::bounded(#[trigger] tangents[i], 23)
}

/// The tangents of a valid curve are finite.
proof fn lemma_tangents(curve: ToneCurve, count: nat)
    requires
        curve.valid(),
        count <= 4,
    ensures
        tangents_are_bounded(
            curve::tangents_after(curve.inputs(), curve.values(), count),
            count as int,
        ),
    decreases count,
{
    let inputs = curve.inputs();
    let values = curve.values();
    let tangents = curve::tangents_after(inputs, values, count);
    if count == 0 {
        assert forall|i: int| 0 <= i < 5 implies bounds::bounded(#[trigger] tangents[i], 23) by {
            lemma_plain_tangent(curve, i);
        }
        lemma_wider(tangents[0], 23, 58);
    } else {
        let segment = count - 1;
        lemma_tangents(curve, segment as nat);
        let before = curve::tangents_after(inputs, values, segment as nat);
        let slope = curve::slope(inputs, values, segment);
        lemma_slope(curve, segment);
        assert(bounds::bounded(before[segment], 58));
        assert(bounds::bounded(before[segment + 1], 23));
        lemma_limited(before[segment], before[segment + 1], slope, 58, 23);
    }
}

/// Zero times what is finite, and that times what is finite, is zero.
proof fn lemma_no_share(h: Scalar, interval: Scalar, tangent: Scalar)
    requires
        bounds::nought(h),
        interval.finite(),
        tangent.finite(),
    ensures
        bounds::nought(h.product(interval).product(tangent)),
        h.product(interval).product(tangent).finite(),
{
    lemma_nought(h);
    bounds::a_product_with_zero_is_zero(h, interval);
    lemma_nought(h.product(interval));
    bounds::a_product_with_zero_is_zero(h.product(interval), tangent);
    lemma_nought(h.product(interval).product(tangent));
}

/// A segment ends at its second value.
proof fn lemma_end_of_segment(
    start: Scalar,
    end: Scalar,
    first: Scalar,
    second: Scalar,
    first_tangent: Scalar,
    second_tangent: Scalar,
)
    requires
        end.difference(start).finite(),
        !bounds::nought(end.difference(start)),
        first.finite(),
        second.finite(),
        first_tangent.finite(),
        second_tangent.finite(),
    ensures
        curve::hermite(
            end,
            start,
            end.difference(start),
            first,
            second,
            first_tangent,
            second_tangent,
        ).same(second),
{
    let zero = Scalar { bits: constants::ZERO };
    let one = Scalar { bits: constants::ONE };
    let two = Scalar { bits: constants::TWO };
    let three = Scalar { bits: constants::THREE };
    let interval = end.difference(start);
    lemma_constants();
    bounds::a_quotient_with_itself_is_one(interval);
    bounds::a_product_with_one_is_the_same(one);
    bounds::a_product_with_one_is_the_same(two);
    bounds::a_product_with_one_is_the_same(three);
    bounds::a_product_with_one_is_the_same(second);
    laws::negation_is_exact(one);
    laws::negation_is_exact(two);
    laws::negation_is_exact(three);
    bounds::a_product_with_one_is_the_same(two.negated());
    // The weights of the values and of the tangents.
    bounds::an_exact_sum_is_kept(two, three.negated(), one.negated());
    laws::order_is_exact(two.difference(three), one.negated());
    let h00 = two.difference(three).sum(one);
    bounds::an_exact_sum_is_kept(two.difference(three), one, zero);
    laws::order_is_exact(h00, zero);
    lemma_nought(h00);
    bounds::an_exact_sum_is_kept(one, two.negated(), one.negated());
    laws::order_is_exact(one.difference(two), one.negated());
    let h10 = one.difference(two).sum(one);
    bounds::an_exact_sum_is_kept(one.difference(two), one, zero);
    laws::order_is_exact(h10, zero);
    lemma_nought(h10);
    let h01 = two.negated().sum(three);
    bounds::an_exact_sum_is_kept(two.negated(), three, one);
    assert(h01 == one);
    let h11 = one.difference(one);
    laws::difference_with_itself_is_zero(one);
    lemma_nought(h11);
    // The shares of the values and of the tangents.
    bounds::a_product_with_zero_is_zero(h00, first);
    lemma_nought(h00.product(first));
    lemma_no_share(h10, interval, first_tangent);
    lemma_no_share(h11, interval, second_tangent);
    let share = h10.product(interval).product(first_tangent);
    let last_share = h11.product(interval).product(second_tangent);
    lemma_nought(share);
    lemma_nought(last_share);
    bounds::an_exact_sum_is_kept(h00.product(first), share, zero);
    let start_sum = h00.product(first).sum(share);
    laws::order_is_exact(start_sum, zero);
    bounds::an_exact_sum_is_kept(start_sum, second, second);
    let middle_sum = start_sum.sum(second);
    laws::order_is_exact(middle_sum, second);
    bounds::an_exact_sum_is_kept(middle_sum, last_share, second);
}

/// A segment starts at its first value.
proof fn lemma_start_of_segment(
    interval: Scalar,
    first: Scalar,
    second: Scalar,
    first_tangent: Scalar,
    second_tangent: Scalar,
)
    requires
        interval.finite(),
        !bounds::nought(interval),
        first.finite(),
        second.finite(),
        first_tangent.finite(),
        second_tangent.finite(),
    ensures
        curve::hermite(
            Scalar { bits: constants::ZERO },
            Scalar { bits: constants::ZERO },
            interval,
            first,
            second,
            first_tangent,
            second_tangent,
        ).same(first),
{
    let zero = Scalar { bits: constants::ZERO };
    let one = Scalar { bits: constants::ONE };
    let two = Scalar { bits: constants::TWO };
    let three = Scalar { bits: constants::THREE };
    lemma_constants();
    lemma_nought(zero);
    laws::difference_with_itself_is_zero(zero);
    let t = zero.difference(zero).quotient(interval);
    bounds::zero_divided_is_zero(zero.difference(zero), interval);
    lemma_nought(t);
    let t2 = t.product(t);
    bounds::a_product_with_zero_is_zero(t, t);
    lemma_nought(t2);
    let t3 = t2.product(t);
    bounds::a_product_with_zero_is_zero(t2, t);
    lemma_nought(t3);
    laws::negation_is_exact(two);
    bounds::a_product_with_zero_is_zero(two, t3);
    bounds::a_product_with_zero_is_zero(two, t2);
    bounds::a_product_with_zero_is_zero(three, t2);
    bounds::a_product_with_zero_is_zero(two.negated(), t3);
    lemma_nought(two.product(t3));
    lemma_nought(two.product(t2));
    lemma_nought(three.product(t2));
    lemma_nought(two.negated().product(t3));
    laws::negation_is_exact(three.product(t2));
    laws::negation_is_exact(two.product(t2));
    laws::negation_is_exact(t2);
    let rise = two.product(t3).difference(three.product(t2));
    bounds::an_exact_sum_is_kept(two.product(t3), three.product(t2).negated(), zero);
    laws::order_is_exact(rise, zero);
    let h00 = rise.sum(one);
    bounds::an_exact_sum_is_kept(rise, one, one);
    assert(h00 == one);
    let fall = t3.difference(two.product(t2));
    bounds::an_exact_sum_is_kept(t3, two.product(t2).negated(), zero);
    laws::order_is_exact(fall, zero);
    let h10 = fall.sum(t);
    bounds::an_exact_sum_is_kept(fall, t, zero);
    laws::order_is_exact(h10, zero);
    lemma_nought(h10);
    let h01 = two.negated().product(t3).sum(three.product(t2));
    bounds::an_exact_sum_is_kept(two.negated().product(t3), three.product(t2), zero);
    laws::order_is_exact(h01, zero);
    lemma_nought(h01);
    let h11 = t3.difference(t2);
    bounds::an_exact_sum_is_kept(t3, t2.negated(), zero);
    laws::order_is_exact(h11, zero);
    lemma_nought(h11);
    bounds::a_product_with_one_is_the_same(first);
    lemma_no_share(h10, interval, first_tangent);
    lemma_no_share(h11, interval, second_tangent);
    bounds::a_product_with_zero_is_zero(h01, second);
    let share = h10.product(interval).product(first_tangent);
    let last_share = h11.product(interval).product(second_tangent);
    lemma_nought(share);
    lemma_nought(last_share);
    lemma_nought(h01.product(second));
    let start_sum = first.sum(share);
    bounds::an_exact_sum_is_kept(first, share, first);
    laws::order_is_exact(start_sum, first);
    let middle_sum = start_sum.sum(h01.product(second));
    bounds::an_exact_sum_is_kept(start_sum, h01.product(second), first);
    laws::order_is_exact(middle_sum, first);
    bounds::an_exact_sum_is_kept(middle_sum, last_share, first);
}

/// The end of a segment of a valid curve.
proof fn lemma_reaches(curve: ToneCurve, segment: int)
    requires
        curve.valid(),
        0 <= segment < 4,
        curve.segment(curve.inputs()[segment + 1]) == segment,
    ensures
        curve.at(curve.inputs()[segment + 1]).same(curve.values()[segment + 1]),
{
    let inputs = curve.inputs();
    let values = curve.values();
    let tangents = curve::tangents_after(inputs, values, 4);
    lemma_points(curve);
    lemma_interval(curve, segment);
    lemma_tangents(curve, 4);
    assert(bounds::bounded(tangents[segment], 93));
    assert(bounds::bounded(tangents[segment + 1], 93) || bounds::bounded(
        tangents[segment + 1],
        58,
    ));
    assert(inputs[segment + 1].within(
        Scalar { bits: constants::ZERO },
        Scalar { bits: constants::ONE },
    ));
    assert(values[segment].within(
        Scalar { bits: constants::ZERO },
        Scalar { bits: constants::ONE },
    ));
    assert(values[segment + 1].within(
        Scalar { bits: constants::ZERO },
        Scalar { bits: constants::ONE },
    ));
    lemma_end_of_segment(
        inputs[segment],
        inputs[segment + 1],
        values[segment],
        values[segment + 1],
        tangents[segment],
        tangents[segment + 1],
    );
}

/// A valid curve passes through its ends and through its three control
/// points.
pub proof fn the_curve_passes_through_its_points(curve: ToneCurve)
    requires
        curve.valid(),
    ensures
        curve.at(Scalar { bits: constants::ZERO }).same(Scalar { bits: constants::ZERO }),
        curve.at(curve.shadow_input).same(curve.shadows),
        curve.at(curve.midtone_input).same(curve.midtones),
        curve.at(curve.highlight_input).same(curve.highlights),
        curve.at(Scalar { bits: constants::ONE }).same(Scalar { bits: constants::ONE }),
{
    let zero = Scalar { bits: constants::ZERO };
    let one = Scalar { bits: constants::ONE };
    lemma_points(curve);
    lemma_constants();
    laws::order_is_exact(curve.midtone_input, curve.shadow_input);
    laws::order_is_exact(curve.highlight_input, curve.shadow_input);
    laws::order_is_exact(curve.highlight_input, curve.midtone_input);
    laws::order_is_exact(one, curve.shadow_input);
    laws::order_is_exact(one, curve.midtone_input);
    laws::order_is_exact(one, curve.highlight_input);
    laws::order_is_exact(zero, curve.shadow_input);
    laws::order_is_exact(zero, one);
    lemma_reaches(curve, 0);
    lemma_reaches(curve, 1);
    lemma_reaches(curve, 2);
    lemma_reaches(curve, 3);
    let tangents = curve::tangents_after(curve.inputs(), curve.values(), 4);
    lemma_tangents(curve, 4);
    lemma_interval(curve, 0);
    assert(bounds::bounded(tangents[0], 93) && bounds::bounded(tangents[1], 93));
    assert(curve.values()[1].within(zero, one));
    lemma_start_of_segment(
        curve::interval(curve.inputs(), 0),
        curve.values()[0],
        curve.values()[1],
        tangents[0],
        tangents[1],
    );
}

/// What lies outside the range of a curve passes unchanged.
pub proof fn what_lies_outside_passes_unchanged(curve: ToneCurve, x: Scalar)
    requires
        x.below(Scalar { bits: constants::ZERO }) || (Scalar { bits: constants::ONE }).below(x)
            || x.nan(),
    ensures
        curve.at(x) == x,
{
}

} // verus!
