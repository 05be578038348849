//! How a crop follows the pointer.

use vstd::arithmetic::power2::*;
use vstd::prelude::*;

use crate::document::crop_laws;
use crate::document::turn_laws;
use crate::document::values::CropRect;
use crate::number::bounds;
use crate::number::constants;
use crate::number::laws;
use crate::number::rounding;
use crate::number::scalar::Scalar;
use crate::session::gesture;
use crate::session::gesture::{Grip, Span};
use crate::session::gesture_laws;

verus! {

/// A place held between two others.
pub open spec fn held(place: int, low: int, high: int) -> int {
    if place < low {
        low
    } else if place > high {
        high
    } else {
        place
    }
}

/// Whether two places are the same but for one part in 2^16 of the image.
pub open spec fn is_near(place: int, other: int) -> bool {
    0x1_0000 * bounds::absolute(place - other) <= turn_laws::whole()
}

/// Whether a span is as long as before and has gone along with the pointer, as
/// far as the image goes.
pub open spec fn is_dragged(span: Span, delta: Scalar, result: Span) -> bool {
    let start = laws::exact(span.start);
    let extent = laws::exact(span.extent);
    let way = laws::exact(delta);
    let found = laws::exact(result.start);
    &&& laws::exact(result.extent) == extent
    &&& is_near(found, held(start + way, 0, turn_laws::whole() - extent))
    &&& 0 <= start + way && start + way + extent <= turn_laws::whole()
        ==> result.start.value().rank() == laws::nearest_to(start + way).rank()
    &&& start + way <= 0 ==> found == 0
    &&& way >= 0 ==> found >= start
    &&& way <= 0 ==> found <= start
}

/// Whether the start of a span has gone along with the pointer, as far as the
/// image goes and the least extent lets it, and the end has stayed.
pub open spec fn is_pulled_at_start(span: Span, delta: Scalar, result: Span) -> bool {
    let start = laws::exact(span.start);
    let end = start + laws::exact(span.extent);
    let found = laws::exact(result.start);
    &&& is_near(
        found,
        held(start + laws::exact(delta), 0, end - turn_laws::whole() / 100),
    )
    &&& is_near(found + laws::exact(result.extent), end)
}

/// Whether the end of a span has gone along with the pointer, as far as the
/// image goes and the least extent lets it, and the start has stayed.
pub open spec fn is_pulled_at_end(span: Span, delta: Scalar, result: Span) -> bool {
    let start = laws::exact(span.start);
    let end = start + laws::exact(span.extent);
    let found = laws::exact(result.start);
    &&& is_near(
        found + laws::exact(result.extent),
        held(
            end + laws::exact(delta),
            start + turn_laws::whole() / 100,
            turn_laws::whole(),
        ),
    )
    &&& is_near(found, start)
}

/// Whether a crop has gone along with the pointer: all of it if it was taken
/// hold of inside, and otherwise the edges that were taken hold of.
pub open spec fn follows_the_pointer(
    start: CropRect,
    kind: i32,
    delta_x: Scalar,
    delta_y: Scalar,
    result: CropRect,
) -> bool {
    let across = gesture::across(start);
    let down = gesture::down(start);
    let new_across = gesture::across(result);
    let new_down = gesture::down(result);
    &&& if kind == 0 {
        is_dragged(across, delta_x, new_across) && is_dragged(down, delta_y, new_down)
    } else {
        &&& if kind == 1 || kind == 3 || kind == 5 {
            is_pulled_at_start(across, delta_x, new_across)
        } else if kind == 2 || kind == 4 || kind == 7 {
            is_pulled_at_end(across, delta_x, new_across)
        } else {
            new_across == across
        }
        &&& if kind == 1 || kind == 2 || kind == 6 {
            is_pulled_at_start(down, delta_y, new_down)
        } else if kind == 3 || kind == 4 || kind == 8 {
            is_pulled_at_end(down, delta_y, new_down)
        } else {
            new_down == down
        }
    }
}

/// A span brought inside the whole.
spec fn inside(span: Span) -> Span {
    let one = Scalar { bits: constants::ONE };
    let extent = span.extent.clamped(Scalar { bits: constants::HUNDREDTH }, one);
    Span {
        start: span.start.clamped(Scalar { bits: constants::ZERO }, one.difference(extent)),
        extent,
    }
}

/// The least extent is a hundredth.
pub proof fn lemma_hundredth()
    ensures
        ({
            let least = laws::exact(Scalar { bits: constants::HUNDREDTH });
            let hundredth = turn_laws::whole() / 100;
            &&& 0 <= hundredth - least <= turn_laws::step()
            &&& 0 < least <= turn_laws::whole()
        }),
{
    turn_laws::lemma_sizes();
    lemma2_to64();
    rounding::lemma_encode(119, 0xa3_d70a, 24);
    lemma_pow2_adds(119, 7);
    let unit = pow2(119) as int;
    assert(turn_laws::whole() == 0x4000_0000 * unit);
    assert(laws::exact(Scalar { bits: constants::HUNDREDTH }) == 0xa3_d70a * unit);
}

/// Where a span that lies inside begins and ends.
pub proof fn lemma_span(span: Span)
    requires
        gesture_laws::span_lies_inside(span),
    ensures
        span.start.finite(),
        span.extent.finite(),
        0 <= laws::exact(span.start) <= turn_laws::whole(),
        laws::exact(Scalar { bits: constants::HUNDREDTH }) <= laws::exact(span.extent)
            <= turn_laws::whole(),
        laws::exact(span.start) + laws::exact(span.extent) <= turn_laws::whole()
            + turn_laws::step(),
        span.end().finite(),
        laws::exact(span.extent) <= laws::exact(span.end()) <= turn_laws::whole(),
        span.start_can_be_pulled(),
        span.end_can_be_pulled(),
{
    turn_laws::lemma_sizes();
    gesture_laws::lemma_span(span);
    lemma2_to64();
    rounding::lemma_encode(126, 0x80_0000, 24);
    lemma_pow2_adds(23, 126);
}

/// A sum held between two numbers is near to the exact sum held between them.
proof fn lemma_held_sum(a: Scalar, b: Scalar, low: Scalar, high: Scalar)
    requires
        a.finite(),
        b.finite(),
        low.finite(),
        high.finite(),
        0 <= laws::exact(a) <= 2 * turn_laws::whole(),
        0 <= laws::exact(low) <= laws::exact(high) <= 2 * turn_laws::whole(),
    ensures
        ({
            let found = a.sum(b).clamped(low, high);
            let total = laws::exact(a) + laws::exact(b);
            &&& found.finite()
            &&& bounds::absolute(
                laws::exact(found) - held(total, laws::exact(low), laws::exact(high)),
            ) <= 4 * turn_laws::step()
            &&& total <= laws::exact(low) ==> laws::exact(found) == laws::exact(low)
            &&& total >= laws::exact(high) ==> laws::exact(found) == laws::exact(high)
            &&& laws::exact(low) <= total <= laws::exact(high) ==> found == a.sum(b)
            &&& laws::exact(low) <= laws::exact(found) <= laws::exact(high)
        }),
{
    let sum = a.sum(b);
    let total = laws::exact(a) + laws::exact(b);
    let found = sum.clamped(low, high);
    turn_laws::lemma_sizes();
    laws::sum_is_nearest(a, b);
    laws::nearest_to_itself(low);
    laws::nearest_to_itself(high);
    laws::order_is_exact(low, high);
    if total <= laws::exact(low) {
        laws::nearest_is_monotone(total, laws::exact(low));
        assert(sum.at_most(low));
        assert(found.value().rank() == low.value().rank());
        laws::order_is_exact(found, low);
    }
    if total >= laws::exact(high) {
        laws::nearest_is_monotone(laws::exact(high), total);
        assert(high.at_most(sum));
        assert(found.value().rank() == high.value().rank());
        laws::order_is_exact(found, high);
    }
    if laws::exact(low) <= total <= laws::exact(high) {
        bounds::a_sum_stays_between(a, b, low, high);
        assert(bounds::bounded(a, 2));
        assert(bounds::bounded(b, 2));
        bounds::a_sum_is_close(a, b, 2);
    }
    laws::order_is_exact(low, found);
    laws::order_is_exact(found, high);
}

/// What is left beside an extent.
pub proof fn lemma_rest(extent: Scalar)
    requires
        extent.finite(),
        0 <= laws::exact(extent) <= turn_laws::whole(),
    ensures
        ({
            let rest = (Scalar { bits: constants::ONE }).difference(extent);
            &&& rest.finite()
            &&& 0 <= laws::exact(rest) <= turn_laws::whole()
            &&& bounds::absolute(
                laws::exact(rest) - (turn_laws::whole() - laws::exact(extent)),
            ) <= 2 * turn_laws::step()
            &&& rest.value().rank() == laws::nearest_to(
                turn_laws::whole() - laws::exact(extent),
            ).rank()
        }),
{
    let one = Scalar { bits: constants::ONE };
    let zero = Scalar { bits: constants::ZERO };
    turn_laws::lemma_sizes();
    turn_laws::lemma_off(one, extent);
    crop_laws::lemma_room_is_close(extent);
    laws::negation_is_exact(extent);
    laws::sum_is_nearest(one, extent.negated());
    bounds::a_sum_stays_between(one, extent.negated(), zero, one);
    laws::order_is_exact(one.difference(extent), one);
}

/// A span that lies inside stays as it is.
proof fn lemma_stays(span: Span)
    requires
        gesture_laws::span_lies_inside(span),
    ensures
        inside(span) == span,
{
    lemma_span(span);
}

/// A span that hardly leaves the whole hardly changes.
proof fn lemma_hardly_changes(span: Span)
    requires
        span.start.finite(),
        span.extent.finite(),
        0 <= laws::exact(span.start) <= 2 * turn_laws::whole(),
        laws::exact(Scalar { bits: constants::HUNDREDTH }) - 16 * turn_laws::step()
            <= laws::exact(span.extent) <= turn_laws::whole() + 16 * turn_laws::step(),
        laws::exact(span.start) + laws::exact(span.extent) <= turn_laws::whole() + 16
            * turn_laws::step(),
    ensures
        bounds::absolute(laws::exact(inside(span).extent) - laws::exact(span.extent)) <= 16
            * turn_laws::step(),
        bounds::absolute(laws::exact(inside(span).start) - laws::exact(span.start)) <= 40
            * turn_laws::step(),
{
    let one = Scalar { bits: constants::ONE };
    let zero = Scalar { bits: constants::ZERO };
    let least = Scalar { bits: constants::HUNDREDTH };
    turn_laws::lemma_sizes();
    lemma_hundredth();
    turn_laws::lemma_clamped(span.extent, least, one);
    let extent = inside(span).extent;
    lemma_rest(extent);
    turn_laws::lemma_clamped(span.start, zero, one.difference(extent));
}

/// Dragging a span that lies inside.
proof fn lemma_dragged(span: Span, delta: Scalar)
    requires
        gesture_laws::span_lies_inside(span),
        delta.finite(),
    ensures
        is_dragged(span, delta, inside(span.moved(delta))),
{
    let one = Scalar { bits: constants::ONE };
    let zero = Scalar { bits: constants::ZERO };
    let rest = one.difference(span.extent);
    let moved = span.moved(delta);
    let total = laws::exact(span.start) + laws::exact(delta);
    turn_laws::lemma_sizes();
    lemma_hundredth();
    lemma_span(span);
    lemma_rest(span.extent);
    laws::order_is_exact(span.start, rest);
    lemma_held_sum(span.start, delta, zero, rest);
    // What is dragged lies inside already.
    laws::order_is_exact(zero, moved.start);
    laws::order_is_exact(moved.start, rest);
    assert(gesture_laws::span_lies_inside(moved));
    lemma_stays(moved);
    laws::sum_is_nearest(span.start, delta);
    laws::nearest_to_itself(span.start);
    let sum = span.start.sum(delta);
    if 0 <= total && total + laws::exact(span.extent) <= turn_laws::whole() {
        laws::nearest_is_monotone(total, turn_laws::whole() - laws::exact(span.extent));
        laws::nearest_is_monotone(0, total);
        laws::nearest_to_itself(zero);
        assert(sum.at_most(rest) && zero.at_most(sum));
        assert(moved.start == sum);
    }
    if laws::exact(delta) >= 0 {
        laws::nearest_is_monotone(laws::exact(span.start), total);
        assert(span.start.at_most(sum));
        assert(span.start.at_most(moved.start));
    }
    if laws::exact(delta) <= 0 {
        laws::nearest_is_monotone(total, laws::exact(span.start));
        assert(sum.at_most(span.start));
        laws::order_is_exact(zero, span.start);
        assert(moved.start.at_most(span.start));
    }
    laws::order_is_exact(span.start, moved.start);
    laws::order_is_exact(moved.start, span.start);
}

/// Where a span that lies inside ends.
pub proof fn lemma_end(span: Span)
    requires
        gesture_laws::span_lies_inside(span),
    ensures
        bounds::absolute(
            laws::exact(span.end()) - (laws::exact(span.start) + laws::exact(span.extent)),
        ) <= 2 * turn_laws::step(),
{
    turn_laws::lemma_sizes();
    lemma_span(span);
    assert(bounds::bounded(span.start, 2));
    assert(bounds::bounded(span.extent, 2));
    bounds::a_sum_is_close(span.start, span.extent, 2);
}

/// Places that are near stay near when they are held.
proof fn lemma_held_near(found: int, place: int, low: int, high: int, other: int, e: int)
    requires
        bounds::absolute(found - held(place, low, high)) <= e,
        bounds::absolute(high - other) <= e,
        low <= high,
        low <= other + e,
    ensures
        bounds::absolute(found - held(place, low, other)) <= 3 * e,
{
}

/// Pulling the start of a span that lies inside.
proof fn lemma_pulled_at_start(span: Span, delta: Scalar)
    requires
        gesture_laws::span_lies_inside(span),
        delta.finite(),
    ensures
        is_pulled_at_start(span, delta, inside(span.start_pulled(delta))),
{
    let zero = Scalar { bits: constants::ZERO };
    let least = Scalar { bits: constants::HUNDREDTH };
    let end = span.end();
    let far = end.difference(least);
    let pulled = span.start_pulled(delta);
    turn_laws::lemma_sizes();
    lemma_hundredth();
    lemma_span(span);
    lemma_end(span);
    turn_laws::lemma_off(end, least);
    laws::order_is_exact(zero, far);
    assert(zero.at_most(far));
    lemma_held_sum(span.start, delta, zero, far);
    assert(0 <= laws::exact(pulled.start) <= laws::exact(far));
    turn_laws::lemma_off(end, pulled.start);
    let place = laws::exact(span.start) + laws::exact(delta);
    let other = laws::exact(span.start) + laws::exact(span.extent) - turn_laws::whole() / 100;
    let e = 6 * turn_laws::step();
    lemma_held_near(laws::exact(pulled.start), place, 0, laws::exact(far), other, e);
    assert(bounds::absolute(
        laws::exact(pulled.start) + laws::exact(pulled.extent) - laws::exact(end),
    ) <= 2 * turn_laws::step());
    assert(laws::exact(pulled.extent) >= laws::exact(least) - 16 * turn_laws::step());
    lemma_hardly_changes(pulled);
}

/// Pulling the end of a span that lies inside.
proof fn lemma_pulled_at_end(span: Span, delta: Scalar)
    requires
        gesture_laws::span_lies_inside(span),
        delta.finite(),
    ensures
        is_pulled_at_end(span, delta, inside(span.end_pulled(delta))),
{
    let one = Scalar { bits: constants::ONE };
    let zero = Scalar { bits: constants::ZERO };
    let least = Scalar { bits: constants::HUNDREDTH };
    let end = span.end();
    let close = span.start.sum(least);
    let pulled = span.end_pulled(delta);
    turn_laws::lemma_sizes();
    lemma_hundredth();
    lemma_span(span);
    lemma_end(span);
    assert(bounds::bounded(span.start, 2));
    assert(bounds::bounded(least, 2));
    bounds::a_sum_is_close(span.start, least, 2);
    bounds::a_sum_is_bounded(span.start, least, 2);
    laws::order_is_exact(close, one);
    assert(close.at_most(one));
    lemma_held_sum(end, delta, close, one);
    let held_end = end.sum(delta).clamped(close, one);
    turn_laws::lemma_off(held_end, span.start);
    lemma_hardly_changes(pulled);
}

/// A free gesture on a crop that lies inside the image takes along what it
/// took hold of: all of the crop, an edge, or the two edges of a corner. What
/// was not taken hold of stays. The numbers are those by which the user
/// interface names the nine places: 0 is the inside, 1 to 4 are the corners at
/// the top left, top right, bottom left and bottom right, and 5 to 8 the edges
/// at the left, top, right and bottom.
pub proof fn a_free_gesture_follows_the_pointer(
    start: CropRect,
    kind: i32,
    delta_x: Scalar,
    delta_y: Scalar,
)
    requires
        gesture_laws::lies_inside(start),
        delta_x.finite(),
        delta_y.finite(),
        0 <= kind <= 8,
    ensures
        ({
            &&& gesture::grip_of(kind) is Some
            &&& follows_the_pointer(
                start,
                kind,
                delta_x,
                delta_y,
                gesture::changed(
                    start,
                    gesture::grip_of(kind).unwrap(),
                    delta_x,
                    delta_y,
                    None,
                ).inside(),
            )
        }),
{
    let across = gesture::across(start);
    let down = gesture::down(start);
    lemma_dragged(across, delta_x);
    lemma_dragged(down, delta_y);
    lemma_pulled_at_start(across, delta_x);
    lemma_pulled_at_start(down, delta_y);
    lemma_pulled_at_end(across, delta_x);
    lemma_pulled_at_end(down, delta_y);
    lemma_stays(across);
    lemma_stays(down);
    let rect = gesture::changed(
        start,
        gesture::grip_of(kind).unwrap(),
        delta_x,
        delta_y,
        None,
    );
    assert(gesture::across(rect.inside()) == inside(gesture::across(rect)));
    assert(gesture::down(rect.inside()) == inside(gesture::down(rect)));
}

/// Dragging a crop from inside takes it along at a locked aspect too.
pub proof fn a_crop_is_dragged_at_any_aspect(
    start: CropRect,
    delta_x: Scalar,
    delta_y: Scalar,
    locked_aspect: Option<Scalar>,
)
    requires
        gesture_laws::lies_inside(start),
        delta_x.finite(),
        delta_y.finite(),
    ensures
        gesture::grip_of(0) is Some,
        follows_the_pointer(
            start,
            0,
            delta_x,
            delta_y,
            gesture::changed(
                start,
                gesture::grip_of(0).unwrap(),
                delta_x,
                delta_y,
                locked_aspect,
            ).inside(),
        ),
{
    a_free_gesture_follows_the_pointer(start, 0, delta_x, delta_y);
}

} // verus!
