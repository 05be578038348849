//! What holds of every gesture on a crop.

use vstd::arithmetic::power2::*;
use vstd::prelude::*;

use crate::document::crop_laws;
use crate::document::values::CropRect;
use crate::number::bounds;
use crate::number::constants;
use crate::number::laws;
use crate::number::rounding;
use crate::number::scalar::Scalar;
use crate::session::gesture;
use crate::session::gesture::{Grip, Span};

verus! {

/// Whether a span has the least extent or more and ends inside the whole.
pub open spec fn span_lies_inside(span: Span) -> bool {
    let one = Scalar { bits: constants::ONE };
    &&& span.extent.within(Scalar { bits: constants::HUNDREDTH }, one)
    &&& span.start.within(Scalar { bits: constants::ZERO }, one.difference(span.extent))
}

/// Whether a crop lies inside the image, as every crop does that has been
/// brought inside.
pub open spec fn lies_inside(rect: CropRect) -> bool {
    span_lies_inside(gesture::across(rect)) && span_lies_inside(gesture::down(rect))
}

/// The constants that gestures are made of, in units.
proof fn lemma_constants()
    ensures
        laws::exact(Scalar { bits: constants::ZERO }) == 0,
        laws::exact(Scalar { bits: constants::ONE }) == pow2(149),
        laws::exact(Scalar { bits: constants::TWO }) == 2 * pow2(149),
        laws::exact(Scalar { bits: constants::EPSILON }) == pow2(126),
        laws::exact(Scalar { bits: constants::HUNDREDTH }) >= pow2(142),
        pow2(150) == 2 * pow2(149),
        pow2(126) == 2 * pow2(125),
        pow2(125) > 0,
        pow2(142) > 2 * pow2(125),
        pow2(149) > 0,
{
    lemma2_to64();
    rounding::lemma_encode(0, 0, 24);
    rounding::lemma_encode(126, 0x80_0000, 24);
    rounding::lemma_encode(127, 0x80_0000, 24);
    rounding::lemma_encode(103, 0x80_0000, 24);
    rounding::lemma_encode(119, 0xa3_d70a, 24);
    lemma_pow2_adds(23, 126);
    lemma_pow2_adds(23, 127);
    lemma_pow2_adds(23, 103);
    lemma_pow2_adds(23, 119);
    lemma_pow2_unfold(150);
    lemma_pow2_unfold(126);
    lemma_pow2_unfold(127);
    lemma_pow2_pos(125);
    lemma_pow2_pos(119);
    lemma_pow2_pos(149);
    lemma_pow2_strictly_increases(126, 142);
}

/// What is above one by half a step at most is nearest to one.
proof fn lemma_nearest_to_one(units: int)
    requires
        units <= pow2(149) + pow2(125),
    ensures
        laws::nearest_to(units).rank() <= (Scalar { bits: constants::ONE }).value().rank(),
{
    let one: nat = 0x3f80_0000;
    let top = pow2(149) + pow2(125);
    lemma_constants();
    lemma2_to64();
    rounding::lemma_encode(126, 0x80_0000, 24);
    rounding::lemma_step(one, 24);
    rounding::lemma_increasing((one - 1) as nat, one, 24);
    assert(rounding::rounds_to(top, 1, 24, one));
    rounding::lemma_nearest(top, 1, 24, one);
    laws::nearest_is_monotone(units, top as int);
}

/// Where a span that lies inside ends, and what it leaves.
pub proof fn lemma_span(span: Span)
    requires
        span_lies_inside(span),
    ensures
        span.start.finite(),
        span.extent.finite(),
        0 <= laws::exact(span.start) <= pow2(149),
        laws::exact(Scalar { bits: constants::HUNDREDTH }) <= laws::exact(span.extent) <= pow2(149),
        laws::exact(span.start) + laws::exact(span.extent) <= pow2(149) + pow2(125),
        span.end().finite(),
        laws::exact(span.extent) <= laws::exact(span.end()) <= pow2(149),
        span.can_move(),
        span.start_can_be_pulled(),
        span.end_can_be_pulled(),
{
    let zero = Scalar { bits: constants::ZERO };
    let one = Scalar { bits: constants::ONE };
    let least = Scalar { bits: constants::HUNDREDTH };
    let rest = one.difference(span.extent);
    lemma_constants();
    laws::order_is_exact(least, span.extent);
    laws::order_is_exact(span.extent, one);
    crop_laws::lemma_room_is_close(span.extent);
    laws::order_is_exact(zero, span.start);
    laws::order_is_exact(span.start, rest);
    laws::difference_has_the_sign_of_the_order(one, span.extent);
    assert(laws::exact(rest) <= laws::exact(one)) by {
        laws::negation_is_exact(span.extent);
        bounds::a_sum_stays_between(one, span.extent.negated(), zero, one);
        laws::order_is_exact(rest, one);
    }
    // The end.
    let end = span.end();
    let total = laws::exact(span.start) + laws::exact(span.extent);
    laws::sum_is_nearest(span.start, span.extent);
    lemma_nearest_to_one(total);
    laws::nearest_is_monotone(laws::exact(span.extent), total);
    laws::nearest_to_itself(span.extent);
    laws::order_is_exact(span.extent, end);
    laws::order_is_exact(end, one);
    // Room for pulling.
    laws::order_is_exact(least, end);
    laws::difference_has_the_sign_of_the_order(end, least);
    laws::sum_is_nearest(span.start, least);
    lemma_nearest_to_one(laws::exact(span.start) + laws::exact(least));
}

/// A difference of numbers of limited size is finite.
proof fn lemma_difference(a: Scalar, b: Scalar, k: int)
    requires
        bounds::bounded(a, k),
        bounds::bounded(b, k),
        -149 <= k <= 126,
    ensures
        bounds::bounded(a.difference(b), k + 1),
{
    laws::negation_is_exact(b);
    bounds::a_sum_is_bounded(a, b.negated(), k);
}

/// Clamping a sum of finite numbers between finite numbers gives a finite one.
proof fn lemma_clamped(a: Scalar, b: Scalar, low: Scalar, high: Scalar)
    requires
        a.finite(),
        b.finite(),
        low.finite(),
        high.finite(),
        low.at_most(high),
    ensures
        a.sum(b).clamped(low, high).finite(),
        a.sum(b).clamped(low, high).within(low, high),
{
    laws::sum_is_nearest(a, b);
}

/// A free pull or move of a span gives finite numbers.
proof fn lemma_free(span: Span, delta: Scalar)
    requires
        span_lies_inside(span),
        delta.finite(),
    ensures
        span.moved(delta).start.finite(),
        span.moved(delta).extent.finite(),
        span.start_pulled(delta).start.finite(),
        span.start_pulled(delta).extent.finite(),
        span.end_pulled(delta).start.finite(),
        span.end_pulled(delta).extent.finite(),
{
    let zero = Scalar { bits: constants::ZERO };
    let one = Scalar { bits: constants::ONE };
    let least = Scalar { bits: constants::HUNDREDTH };
    lemma_constants();
    lemma_span(span);
    crop_laws::lemma_room_is_close(span.extent);
    lemma_clamped(span.start, delta, zero, one.difference(span.extent));
    // Pulling the start.
    let end = span.end();
    laws::order_is_exact(least, one);
    assert(bounds::bounded(end, 0));
    assert(bounds::bounded(least, 0)) by {
        laws::order_is_exact(zero, least);
        laws::order_is_exact(least, span.extent);
    }
    lemma_difference(end, least, 0);
    let far = end.difference(least);
    lemma_clamped(span.start, delta, zero, far);
    let start = span.start.sum(delta).clamped(zero, far);
    laws::order_is_exact(zero, start);
    laws::order_is_exact(start, far);
    assert(bounds::bounded(end, 1));
    lemma_difference(end, start, 1);
    // Pulling the end.
    assert(bounds::bounded(span.start, 0));
    bounds::a_sum_is_bounded(span.start, least, 0);
    let near = span.start.sum(least);
    lemma_clamped(end, delta, near, one);
    let pulled = end.sum(delta).clamped(near, one);
    laws::order_is_exact(pulled, one);
    laws::order_is_exact(near, pulled);
    laws::sum_is_nearest(span.start, least);
    laws::nearest_is_monotone(0, laws::exact(span.start) + laws::exact(least));
    laws::nearest_to_itself(zero);
    laws::order_is_exact(zero, near);
    assert(bounds::bounded(pulled, 0));
    lemma_difference(pulled, span.start, 0);
}

/// Every free gesture on a crop that lies inside the image is possible, and
/// leaves a crop that can be applied.
pub proof fn a_free_gesture_leaves_a_valid_crop(
    start: CropRect,
    grip: Grip,
    delta_x: Scalar,
    delta_y: Scalar,
)
    requires
        lies_inside(start),
        delta_x.finite(),
        delta_y.finite(),
    ensures
        gesture::change_is_possible(start, grip, delta_x, delta_y, None),
        gesture::changed(start, grip, delta_x, delta_y, None).inside().valid(),
{
    let across = gesture::across(start);
    let down = gesture::down(start);
    lemma_span(across);
    lemma_span(down);
    lemma_free(across, delta_x);
    lemma_free(down, delta_y);
    let rect = gesture::changed(start, grip, delta_x, delta_y, None);
    assert(rect.x.finite() && rect.y.finite() && rect.width.finite() && rect.height.finite());
    crop_laws::a_normalized_crop_is_valid(rect);
}

/// Half of an extent, and the middle of a span.
pub proof fn lemma_middle(span: Span)
    requires
        span_lies_inside(span),
    ensures
        gesture::middle(span).finite(),
        0 <= laws::exact(gesture::middle(span)) <= pow2(149),
        gesture::room_round_middle(span).finite(),
        bounds::bounded(gesture::room_round_middle(span), 1),
        laws::exact(gesture::room_round_middle(span)) >= 0,
        gesture::room(span, true).finite(),
        gesture::room(span, false).finite(),
        bounds::bounded(gesture::room(span, true), 1),
        bounds::bounded(gesture::room(span, false), 1),
        laws::exact(gesture::room(span, true)) >= 0,
        laws::exact(gesture::room(span, false)) >= 0,
{
    let zero = Scalar { bits: constants::ZERO };
    let one = Scalar { bits: constants::ONE };
    let two = Scalar { bits: constants::TWO };
    lemma_constants();
    lemma_span(span);
    let half = span.extent.quotient(two);
    lemma_half(span.extent);
    let middle = gesture::middle(span);
    let total = laws::exact(span.start) + laws::exact(half);
    assert(total <= pow2(149));
    bounds::a_sum_stays_between(span.start, half, zero, one);
    laws::order_is_exact(zero, middle);
    laws::order_is_exact(middle, one);
    laws::negation_is_exact(middle);
    bounds::a_sum_stays_between(one, middle.negated(), zero, one);
    let other = one.difference(middle);
    laws::order_is_exact(zero, other);
    laws::order_is_exact(other, one);
    let nearer = middle.lesser(other);
    assert(bounds::bounded(nearer, 0));
    bounds::a_product_is_bounded(two, nearer, 1, 0);
    assert(!two.product(nearer).value().negative || bounds::nought(two.product(nearer))) by {
        reveal(Scalar::product);
        if nearer.value().negative {
            assert(bounds::nought(nearer)) by {
                rounding::lemma_zero_magnitude(24);
                if nearer.value().code > 0 {
                    rounding::lemma_increasing(0, nearer.value().code as nat, 24);
                }
            }
            bounds::a_product_with_zero_is_zero(two, nearer);
        }
    }
    rounding::lemma_zero_magnitude(24);
    // Room at one end.
    laws::negation_is_exact(span.start);
    bounds::a_sum_stays_between(one, span.start.negated(), zero, one);
    laws::order_is_exact(zero, one.difference(span.start));
    laws::order_is_exact(one.difference(span.start), one);
}

/// Half of an extent is not more than half a step away from it.
pub proof fn lemma_half(extent: Scalar)
    requires
        extent.within(Scalar { bits: constants::HUNDREDTH }, Scalar { bits: constants::ONE }),
    ensures
        extent.quotient(Scalar { bits: constants::TWO }).finite(),
        bounds::bounded(extent.quotient(Scalar { bits: constants::TWO }), -1),
        0 <= laws::exact(extent.quotient(Scalar { bits: constants::TWO })),
        2 * laws::exact(extent.quotient(Scalar { bits: constants::TWO })) == laws::exact(extent),
{
    let two = Scalar { bits: constants::TWO };
    let one = Scalar { bits: constants::ONE };
    let least = Scalar { bits: constants::HUNDREDTH };
    lemma_constants();
    laws::order_is_exact(extent, one);
    laws::order_is_exact(least, extent);
    bounds::a_quotient_is_bounded(extent, two, 0, 1);
    // Half of it is held by the code with the next smaller exponent.
    let code = extent.value().code as nat;
    let x = rounding::exponent(code, 24);
    let q = rounding::significand(code, 24);
    lemma2_to64();
    rounding::lemma_decode(code, 24);
    assert(code >= 0x3c23_d70a);
    assert(x >= 1);
    assert(q >= 0x80_0000) by {
        assert(x > 0);
    }
    let lower = (x - 1) as nat;
    rounding::lemma_encode(lower, q, 24);
    let half_code = (lower * 0x80_0000 + q) as nat;
    lemma_pow2_unfold(x);
    let half = rounding::magnitude(half_code, 24);
    assert(2 * half == bounds::units(extent)) by (nonlinear_arith)
        requires
            half == q * pow2(lower),
            bounds::units(extent) == q * pow2(x),
            pow2(x) == 2 * pow2(lower),
    ;
    rounding::lemma_held(half_code, 24);
    let n = (bounds::units(extent) * pow2(149)) as nat;
    let d = bounds::units(two);
    assert(half * d == n * 1) by (nonlinear_arith)
        requires
            d == 2 * pow2(149),
            n == bounds::units(extent) * pow2(149),
            2 * half == bounds::units(extent),
    ;
    rounding::lemma_equal_fractions(half, 1, n, d, 24, half_code);
    rounding::lemma_nearest(n, d, 24, half_code);
    reveal(Scalar::quotient);
    assert(half_code < 0x7f80_0000);
}

/// A product of a number, finite or not, with a finite one other than zero is
/// a number.
pub proof fn lemma_product_is_number(a: Scalar, b: Scalar)
    requires
        !a.nan(),
        b.finite(),
        !bounds::nought(b),
    ensures
        !a.product(b).nan(),
{
    reveal(Scalar::product);
}

/// The extent that a pull asks for is a number.
pub proof fn lemma_asked(span: Span, at_start: bool, delta: Scalar)
    requires
        span_lies_inside(span),
        delta.finite(),
    ensures
        !gesture::asked_extent(span, at_start, delta).nan(),
{
    lemma_span(span);
    laws::sum_is_nearest(span.start, delta);
    laws::sum_is_nearest(span.end(), delta);
    laws::negation_is_exact(span.start.sum(delta));
    laws::negation_is_exact(span.start);
    assert(!gesture::asked_extent(span, at_start, delta).nan()) by {
        reveal(Scalar::sum);
    }
}

/// The width at an aspect is finite and limited, and so is the height.
pub proof fn lemma_allowed(desired: Scalar, max_width: Scalar, max_height: Scalar, aspect: Scalar)
    requires
        !desired.nan(),
        bounds::bounded(max_width, 1),
        laws::exact(max_width) >= 0,
        max_height.finite(),
        laws::exact(max_height) >= 0,
        aspect.finite(),
        bounds::sizeable(aspect, -23),
        !aspect.value().negative,
        !bounds::nought(aspect),
    ensures
        !gesture::largest_width(max_width, max_height, aspect).nan(),
        ({
            let width = gesture::allowed_width(desired, max_width, max_height, aspect);
            &&& bounds::bounded(width, 1)
            &&& bounds::bounded(width.quotient(aspect), 24)
        }),
{
    let zero = Scalar { bits: constants::ZERO };
    let least = Scalar { bits: constants::HUNDREDTH };
    lemma_constants();
    lemma_product_is_number(max_height, aspect);
    lemma_product_is_number(least, aspect);
    let tall = max_height.product(aspect);
    rounding::lemma_zero_magnitude(24);
    assert(tall.value().rank() >= 0) by {
        reveal(Scalar::product);
        if max_height.value().negative {
            assert(bounds::nought(max_height)) by {
                if max_height.value().code > 0 {
                    rounding::lemma_increasing(0, max_height.value().code as nat, 24);
                }
            }
            bounds::a_product_with_zero_is_zero(max_height, aspect);
        }
    }
    let most = gesture::largest_width(max_width, max_height, aspect);
    laws::order_is_exact(zero, max_width);
    assert(zero.at_most(most));
    assert(most.at_most(max_width));
    laws::order_is_exact(zero, most);
    laws::order_is_exact(most, max_width);
    assert(bounds::bounded(most, 1));
    let wide = least.greater(least.product(aspect));
    let fewest = wide.lesser(most);
    laws::order_is_exact(zero, least);
    assert(zero.at_most(fewest));
    assert(fewest.at_most(most));
    laws::order_is_exact(zero, fewest);
    laws::order_is_exact(fewest, most);
    let width = gesture::allowed_width(desired, max_width, max_height, aspect);
    assert(width.within(fewest, most));
    laws::order_is_exact(fewest, width);
    laws::order_is_exact(width, most);
    bounds::a_quotient_is_bounded(width, aspect, 1, -23);
}

/// The start of a span that is given a new extent is finite.
proof fn lemma_kept(span: Span, at_start: bool, extent: Scalar)
    requires
        span_lies_inside(span),
        bounds::bounded(extent, 24),
    ensures
        gesture::keeping_an_end(span, at_start, extent).start.finite(),
        gesture::keeping_the_middle(span, extent).start.finite(),
{
    let two = Scalar { bits: constants::TWO };
    lemma_constants();
    lemma_span(span);
    lemma_middle(span);
    lemma_pow2_strictly_increases(149, 173);
    lemma_difference(span.end(), extent, 24);
    bounds::a_quotient_is_bounded(extent, two, 24, 1);
    lemma_pow2_strictly_increases(149, 172);
    lemma_difference(gesture::middle(span), extent.quotient(two), 23);
}

/// Every gesture on a crop that lies inside the image is possible, at any
/// locked aspect, and leaves a crop that can be applied.
pub proof fn a_gesture_leaves_a_valid_crop(
    start: CropRect,
    grip: Grip,
    delta_x: Scalar,
    delta_y: Scalar,
    locked_aspect: Option<Scalar>,
)
    requires
        lies_inside(start),
        delta_x.finite(),
        delta_y.finite(),
        locked_aspect matches Some(aspect) ==> aspect.finite(),
    ensures
        gesture::change_is_possible(start, grip, delta_x, delta_y, locked_aspect),
        gesture::changed(start, grip, delta_x, delta_y, locked_aspect).inside().valid(),
{
    a_free_gesture_leaves_a_valid_crop(start, grip, delta_x, delta_y);
    if let Some(aspect) = locked_aspect {
        if grip != Grip::Inside {
            let epsilon = Scalar { bits: constants::EPSILON };
            let zero = Scalar { bits: constants::ZERO };
            let least = Scalar { bits: constants::HUNDREDTH };
            let usable = gesture::usable_aspect(aspect);
            let across = gesture::across(start);
            let down = gesture::down(start);
            lemma_constants();
            laws::order_is_exact(epsilon, usable);
            lemma_pow2_pos(126);
            assert(bounds::sizeable(usable, -23));
            rounding::lemma_zero_magnitude(24);
            assert(!usable.value().negative && !bounds::nought(usable));
            lemma_middle(across);
            lemma_middle(down);
            lemma_asked(across, grip.moves_left(), delta_x);
            lemma_asked(down, grip.moves_top(), delta_y);
            let (desired, max_width, max_height) = gesture::asked_size(
                start,
                grip,
                delta_x,
                delta_y,
                usable,
            );
            lemma_product_is_number(
                gesture::asked_extent(down, grip.moves_top(), delta_y),
                usable,
            );
            lemma_product_is_number(
                gesture::asked_extent(down, grip.moves_top(), delta_y).greater(least),
                usable,
            );
            lemma_allowed(desired, max_width, max_height, usable);
            let width = gesture::allowed_width(desired, max_width, max_height, usable);
            let height = width.quotient(usable);
            lemma_pow2_strictly_increases(150, 173);
            assert(bounds::bounded(width, 24));
            lemma_span(across);
            lemma_span(down);
            lemma_kept(across, grip.moves_left(), width);
            lemma_kept(down, grip.moves_top(), height);
            let rect = gesture::changed(start, grip, delta_x, delta_y, locked_aspect);
            assert(rect.x.finite() && rect.y.finite());
            crop_laws::a_normalized_crop_is_valid(rect);
        }
    }
}

/// A crop that has been brought inside the image lies inside it.
pub proof fn what_is_brought_inside_lies_inside(rect: CropRect)
    requires
        rect.x.finite(),
        rect.y.finite(),
        rect.measurable(),
    ensures
        lies_inside(rect.inside()),
{
    let zero = Scalar { bits: constants::ZERO };
    let one = Scalar { bits: constants::ONE };
    let inside = rect.inside();
    laws::difference_has_the_sign_of_the_order(one, inside.width);
    laws::difference_has_the_sign_of_the_order(one, inside.height);
}

} // verus!
