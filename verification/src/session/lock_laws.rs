//! How a crop at a locked aspect follows the pointer.

use vstd::arithmetic::power2::*;
use vstd::prelude::*;

use crate::document::curve_laws;
use crate::document::turn_laws;
use crate::document::values::CropRect;
use crate::number::bounds;
use crate::number::constants;
use crate::number::laws;
use crate::number::nearness_laws;
use crate::number::scalar::Scalar;
use crate::session::aspect_laws;
use crate::session::drag_laws;
use crate::session::gesture;
use crate::session::gesture::{Grip, Span};
use crate::session::gesture_laws;

verus! {

/// Whether a width is the one that was asked for: it is larger only where that
/// is the least, and smaller only where there is no more room. All but the
/// width are in units of one times one.
pub open spec fn follows(width: int, asked: int, least: int, room: int, slack: int) -> bool {
    let found = width * turn_laws::whole();
    &&& 0x1_0000 * (found - asked) <= slack || 0x1_0000 * (found - least) <= slack
    &&& 0x1_0000 * (asked - found) <= slack || 0x1_0000 * (room - found) <= slack
}

/// How long a span is to become by a pull.
pub open spec fn pulled_extent(span: Span, at_start: bool, delta: Scalar) -> int {
    if at_start {
        laws::exact(span.extent) - laws::exact(delta)
    } else {
        laws::exact(span.extent) + laws::exact(delta)
    }
}

/// How long a span may become by a pull at one end.
pub open spec fn room_at(span: Span, at_start: bool) -> int {
    if at_start {
        laws::exact(span.start) + laws::exact(span.extent)
    } else {
        turn_laws::whole() - laws::exact(span.start)
    }
}

/// How long a span may become on both sides of its middle.
pub open spec fn room_round(span: Span) -> int {
    let twice = 2 * laws::exact(span.start) + laws::exact(span.extent);
    if twice <= 2 * turn_laws::whole() - twice {
        twice
    } else {
        2 * turn_laws::whole() - twice
    }
}

/// The smaller of two.
pub open spec fn smaller(a: int, b: int) -> int {
    if a <= b {
        a
    } else {
        b
    }
}

/// The larger of two.
pub open spec fn larger(a: int, b: int) -> int {
    if a >= b {
        a
    } else {
        b
    }
}

/// What a pull asks for, rounded.
proof fn lemma_asked(span: Span, at_start: bool, delta: Scalar)
    requires
        gesture_laws::span_lies_inside(span),
        delta.finite(),
        bounds::absolute(laws::exact(delta)) <= 0x10_0000 * turn_laws::whole(),
    ensures
        ({
            let asked = gesture::asked_extent(span, at_start, delta);
            let w = turn_laws::whole();
            &&& asked.finite()
            &&& 0x10_0000 * bounds::absolute(
                laws::exact(asked) - pulled_extent(span, at_start, delta),
            ) <= bounds::absolute(laws::exact(delta)) + 2 * w
            &&& bounds::absolute(laws::exact(asked)) <= 2 * w + 2 * bounds::absolute(
                laws::exact(delta),
            )
        }),
{
    let w = turn_laws::whole();
    turn_laws::lemma_sizes();
    curve_laws::lemma_constants();
    lemma2_to64();
    lemma_pow2_adds(149, 22);
    drag_laws::lemma_span(span);
    drag_laws::lemma_end(span);
    let end = span.end();
    assert(bounds::bounded(span.start, 22) && bounds::bounded(end, 22) && bounds::bounded(
        delta,
        22,
    ));
    if at_start {
        bounds::a_sum_is_close(span.start, delta, 22);
        bounds::a_sum_is_bounded(span.start, delta, 22);
        let moved = span.start.sum(delta);
        assert(bounds::bounded(moved, 22));
        laws::negation_is_exact(moved);
        bounds::a_sum_is_close(end, moved.negated(), 22);
        bounds::a_sum_is_bounded(end, moved.negated(), 22);
    } else {
        bounds::a_sum_is_close(end, delta, 22);
        bounds::a_sum_is_bounded(end, delta, 22);
        let moved = end.sum(delta);
        assert(bounds::bounded(moved, 22));
        laws::negation_is_exact(span.start);
        bounds::a_sum_is_close(moved, span.start.negated(), 22);
        bounds::a_sum_is_bounded(moved, span.start.negated(), 22);
    }
}

/// The room at either end, rounded.
proof fn lemma_room(span: Span, at_start: bool)
    requires
        gesture_laws::span_lies_inside(span),
    ensures
        ({
            let room = gesture::room(span, at_start);
            &&& room.finite()
            &&& 0 <= laws::exact(room) <= turn_laws::whole()
            &&& bounds::absolute(laws::exact(room) - room_at(span, at_start)) <= 16
                * turn_laws::step()
        }),
{
    turn_laws::lemma_sizes();
    drag_laws::lemma_span(span);
    drag_laws::lemma_end(span);
    drag_laws::lemma_rest(span.start);
}

/// The room round the middle, rounded.
proof fn lemma_room_round(span: Span)
    requires
        gesture_laws::span_lies_inside(span),
    ensures
        ({
            let room = gesture::room_round_middle(span);
            &&& room.finite()
            &&& 0 <= laws::exact(room) <= 2 * turn_laws::whole()
            &&& bounds::absolute(laws::exact(room) - room_round(span)) <= 16 * turn_laws::step()
        }),
{
    let two = Scalar { bits: constants::TWO };
    let one = Scalar { bits: constants::ONE };
    let w = turn_laws::whole();
    turn_laws::lemma_sizes();
    curve_laws::lemma_constants();
    drag_laws::lemma_span(span);
    gesture_laws::lemma_middle(span);
    gesture_laws::lemma_half(span.extent);
    let half = span.extent.quotient(two);
    assert(bounds::bounded(span.start, 2) && bounds::bounded(half, 2));
    bounds::a_sum_is_close(span.start, half, 2);
    let middle = gesture::middle(span);
    drag_laws::lemma_rest(middle);
    let other = one.difference(middle);
    laws::order_is_exact(other, middle);
    let nearer = middle.lesser(other);
    nearness_laws::lemma_signed(nearer);
    nearness_laws::lemma_signed(two);
    assert(bounds::bounded(nearer, 0));
    nearness_laws::a_product_is_near(two, nearer, 1, 0);
    let (p, x) = (laws::exact(two.product(nearer)), laws::exact(nearer));
    let d = p - 2 * x;
    assert(p * w - (2 * w) * x == d * w) by (nonlinear_arith)
        requires
            d == p - 2 * x,
    ;
    assert(bounds::absolute((2 * w) * x) == (2 * x) * w) by (nonlinear_arith)
        requires
            x >= 0,
            w > 0,
    ;
    assert(0x40_0000 * bounds::absolute(d) <= 2 * x + 0x80_0000) by (nonlinear_arith)
        requires
            0x40_0000 * bounds::absolute(d * w) <= (2 * x) * w + 0x80_0000 * w,
            w > 0,
    {
        assert(bounds::absolute(d * w) == bounds::absolute(d) * w);
        assert((2 * x) * w + 0x80_0000 * w == (2 * x + 0x80_0000) * w);
    }
}

/// A product with the aspect, in units of one times one.
proof fn lemma_scaled(a: Scalar, aspect: Scalar, goal: int, error: int)
    requires
        a.finite(),
        aspect.finite(),
        bounds::absolute(laws::exact(a)) <= 0x40_0000 * turn_laws::whole(),
        0 < laws::exact(aspect) <= 128 * turn_laws::whole(),
        bounds::absolute(laws::exact(a) - goal) <= error,
    ensures
        a.product(aspect).finite(),
        0x40_0000 * bounds::absolute(
            laws::exact(a.product(aspect)) * turn_laws::whole() - goal * laws::exact(aspect),
        ) <= (bounds::absolute(laws::exact(a)) + 0x40_0000 * error) * laws::exact(aspect)
            + 0x80_0000 * turn_laws::whole(),
{
    let w = turn_laws::whole();
    turn_laws::lemma_sizes();
    curve_laws::lemma_constants();
    lemma2_to64();
    lemma_pow2_adds(149, 22);
    lemma_pow2_adds(149, 7);
    nearness_laws::lemma_signed(a);
    nearness_laws::lemma_signed(aspect);
    nearness_laws::a_product_is_near(a, aspect, 22, 7);
    let (x, r, p) = (laws::exact(a), laws::exact(aspect), laws::exact(a.product(aspect)));
    let size = bounds::absolute(x);
    assert(bounds::absolute(x * r) == size * r) by (nonlinear_arith)
        requires
            size == bounds::absolute(x),
            r > 0,
    ;
    let d = x - goal;
    assert(x * r - goal * r == d * r) by (nonlinear_arith)
        requires
            d == x - goal,
    ;
    assert(bounds::absolute(d * r) <= error * r) by (nonlinear_arith)
        requires
            bounds::absolute(d) <= error,
            r > 0,
    {
        assert(bounds::absolute(d * r) == bounds::absolute(d) * r);
    }
    assert((size + 0x40_0000 * error) * r == size * r + 0x40_0000 * (error * r))
        by (nonlinear_arith);
}

/// A width between two bounds, all of them near to exact ones.
proof fn lemma_follows(
    width: int,
    desired: int,
    low: int,
    high: int,
    asked: int,
    least: int,
    room: int,
    slack: int,
)
    requires
        low <= high,
        width == drag_laws::held(desired, low, high),
        0x2_0000 * bounds::absolute(desired * turn_laws::whole() - asked) <= slack,
        0x2_0000 * bounds::absolute(low * turn_laws::whole() - least) <= slack,
        0x2_0000 * bounds::absolute(high * turn_laws::whole() - room) <= slack,
    ensures
        follows(width, asked, least, room, slack),
{
    let w = turn_laws::whole();
    turn_laws::lemma_sizes();
    assert(desired >= high ==> desired * w >= high * w) by (nonlinear_arith)
        requires
            w > 0,
    ;
    assert(desired <= low ==> desired * w <= low * w) by (nonlinear_arith)
        requires
            w > 0,
    ;
}

/// The least and the largest width at an aspect, in units of one times one.
proof fn lemma_limits(
    max_width: Scalar,
    max_height: Scalar,
    aspect: Scalar,
    room_width: int,
    room_height: int,
)
    requires
        max_width.finite(),
        max_height.finite(),
        aspect.finite(),
        0 <= laws::exact(max_width) <= 2 * turn_laws::whole(),
        0 <= laws::exact(max_height) <= 2 * turn_laws::whole(),
        0 < laws::exact(aspect) <= 128 * turn_laws::whole(),
        bounds::absolute(laws::exact(max_width) - room_width) <= 16 * turn_laws::step(),
        bounds::absolute(laws::exact(max_height) - room_height) <= 16 * turn_laws::step(),
    ensures
        ({
            let w = turn_laws::whole();
            let a = laws::exact(aspect);
            let least = Scalar { bits: constants::HUNDREDTH };
            let most = gesture::largest_width(max_width, max_height, aspect);
            let wider = least.greater(least.product(aspect));
            let slack = 4 * (w * (w + a));
            &&& most.finite()
            &&& wider.finite()
            &&& 0x2_0000 * bounds::absolute(
                laws::exact(most) * w - smaller(room_width * w, room_height * a),
            ) <= slack
            &&& 0x2_0000 * bounds::absolute(
                laws::exact(wider) * w - larger((w / 100) * w, (w / 100) * a),
            ) <= slack
        }),
{
    let w = turn_laws::whole();
    let a = laws::exact(aspect);
    let g = turn_laws::step();
    let least = Scalar { bits: constants::HUNDREDTH };
    turn_laws::lemma_sizes();
    drag_laws::lemma_hundredth();
    lemma_scaled(max_height, aspect, room_height, 16 * g);
    lemma_scaled(least, aspect, w / 100, g);
    let tall = max_height.product(aspect);
    let wide = least.product(aspect);
    laws::order_is_exact(tall, max_width);
    laws::order_is_exact(least, wide);
    let (gw, ga, ww, wa) = (g * w, g * a, w * w, w * a);
    assert(ww == 0x80_0000 * gw && wa == 0x80_0000 * ga && w * (w + a) == ww + wa)
        by (nonlinear_arith)
        requires
            w == 0x80_0000 * g,
            gw == g * w,
            ga == g * a,
            ww == w * w,
            wa == w * a,
    ;
    assert(gw >= 0x1_0000_0000 * w && gw > 0 && ga > 0) by (nonlinear_arith)
        requires
            gw == g * w,
            ga == g * a,
            g >= 0x1_0000_0000,
            w > 0,
            a > 0,
    ;
    // The room across, times one.
    let (x, d) = (laws::exact(max_width), laws::exact(max_width) - room_width);
    assert(x * w - room_width * w == d * w && bounds::absolute(d * w) <= 16 * gw)
        by (nonlinear_arith)
        requires
            d == x - room_width,
            bounds::absolute(d) <= 16 * g,
            gw == g * w,
            w > 0,
    {
        assert(bounds::absolute(d * w) == bounds::absolute(d) * w);
    }
    let h = laws::exact(max_height);
    assert((bounds::absolute(h) + 0x40_0000 * (16 * g)) * a <= 2 * wa + 0x40_0000 * (16 * ga))
        by (nonlinear_arith)
        requires
            0 <= h <= 2 * w,
            wa == w * a,
            ga == g * a,
            a > 0,
    ;
    // A hundredth, times one.
    let (l, e) = (laws::exact(least), laws::exact(least) - w / 100);
    assert(l * w - (w / 100) * w == e * w && bounds::absolute(e * w) <= gw) by (nonlinear_arith)
        requires
            e == l - w / 100,
            bounds::absolute(e) <= g,
            gw == g * w,
            w > 0,
    {
        assert(bounds::absolute(e * w) == bounds::absolute(e) * w);
    }
    assert((bounds::absolute(l) + 0x40_0000 * g) * a <= wa + 0x40_0000 * ga) by (nonlinear_arith)
        requires
            0 <= l <= w,
            wa == w * a,
            ga == g * a,
            a > 0,
    ;
    lemma_order(x, laws::exact(tall), w);
    lemma_order(l, laws::exact(wide), w);
}

/// Products with one are ordered as their factors are.
proof fn lemma_order(x: int, y: int, w: int)
    requires
        w > 0,
    ensures
        x <= y ==> x * w <= y * w,
        y <= x ==> y * w <= x * w,
{
    assert(x <= y ==> x * w <= y * w) by (nonlinear_arith)
        requires
            w > 0,
    ;
    assert(y <= x ==> y * w <= x * w) by (nonlinear_arith)
        requires
            w > 0,
    ;
}

/// Whether a crop at a locked aspect is as wide as the pointer asks for. An edge
/// at the left or the right asks for a width, one at the top or the bottom for
/// a height, and a corner for both, of which the one decides that changes more
/// of its extent. `aspect` is the ratio of the fractions, in units.
pub open spec fn follows_at_aspect(
    start: CropRect,
    kind: i32,
    delta_x: Scalar,
    delta_y: Scalar,
    aspect: int,
    width: int,
) -> bool {
    let one = turn_laws::whole();
    let (across, down) = (gesture::across(start), gesture::down(start));
    let way = bounds::absolute(laws::exact(delta_x)) + bounds::absolute(laws::exact(delta_y));
    let slack = (4 * one + way) * (one + aspect);
    let least = larger((one / 100) * one, (one / 100) * aspect);
    if kind == 5 || kind == 7 {
        let room = smaller(room_at(across, kind == 5) * one, room_round(down) * aspect);
        follows(width, pulled_extent(across, kind == 5, delta_x) * one, least, room, slack)
    } else if kind == 6 || kind == 8 {
        let room = smaller(room_round(across) * one, room_at(down, kind == 6) * aspect);
        follows(width, pulled_extent(down, kind == 6, delta_y) * aspect, least, room, slack)
    } else {
        let (left, top) = (kind == 1 || kind == 3, kind == 1 || kind == 2);
        let room = smaller(room_at(across, left) * one, room_at(down, top) * aspect);
        let wide = larger(pulled_extent(across, left, delta_x), one / 100);
        let tall = larger(pulled_extent(down, top, delta_y), one / 100);
        let (old_width, old_height) = (laws::exact(start.width), laws::exact(start.height));
        let across_change = bounds::absolute(wide - old_width) * old_height;
        let down_change = bounds::absolute(tall - old_height) * old_width;
        let margin = (4 * one + way) * one / 0x400;
        &&& follows(width, wide * one, least, room, slack) || follows(
            width,
            tall * aspect,
            least,
            room,
            slack,
        )
        &&& across_change > down_change + margin ==> follows(
            width,
            wide * one,
            least,
            room,
            slack,
        )
        &&& down_change > across_change + margin ==> follows(
            width,
            tall * aspect,
            least,
            room,
            slack,
        )
    }
}

/// A width that is asked for at an aspect, after it has been brought inside.
#[verifier::rlimit(40)]
proof fn lemma_width(
    desired: Scalar,
    max_width: Scalar,
    max_height: Scalar,
    aspect: Scalar,
    asked: int,
    room_width: int,
    room_height: int,
    slack: int,
)
    requires
        desired.finite(),
        max_width.finite(),
        max_height.finite(),
        aspect.finite(),
        0 <= laws::exact(max_width) <= turn_laws::whole(),
        0 <= laws::exact(max_height) <= turn_laws::whole(),
        0 < laws::exact(aspect) <= 128 * turn_laws::whole(),
        bounds::absolute(laws::exact(max_width) - room_width) <= 16 * turn_laws::step(),
        bounds::absolute(laws::exact(max_height) - room_height) <= 16 * turn_laws::step(),
        0x2_0000 * bounds::absolute(laws::exact(desired) * turn_laws::whole() - asked) <= slack,
        4 * (turn_laws::whole() * (turn_laws::whole() + laws::exact(aspect))) <= slack,
        ({
            let least = Scalar { bits: constants::HUNDREDTH };
            let most = gesture::largest_width(max_width, max_height, aspect);
            least.at_most(most) && least.product(aspect).at_most(most)
        }),
    ensures
        ({
            let width = gesture::allowed_width(desired, max_width, max_height, aspect);
            let one = turn_laws::whole();
            let a = laws::exact(aspect);
            follows(
                laws::exact(
                    width.clamped(
                        Scalar { bits: constants::HUNDREDTH },
                        Scalar { bits: constants::ONE },
                    ),
                ),
                asked,
                larger((one / 100) * one, (one / 100) * a),
                smaller(room_width * one, room_height * a),
                slack,
            )
        }),
{
    let least = Scalar { bits: constants::HUNDREDTH };
    let one = Scalar { bits: constants::ONE };
    let most = gesture::largest_width(max_width, max_height, aspect);
    let wider = least.greater(least.product(aspect));
    let width = gesture::allowed_width(desired, max_width, max_height, aspect);
    let w = turn_laws::whole();
    let a = laws::exact(aspect);
    turn_laws::lemma_sizes();
    lemma_limits(max_width, max_height, aspect, room_width, room_height);
    laws::order_is_exact(wider, most);
    assert(wider.lesser(most) == wider);
    turn_laws::lemma_clamped(desired, wider, most);
    assert(width == desired.clamped(wider, most));
    // It lies inside already.
    laws::order_is_exact(least, wider);
    laws::order_is_exact(most, max_width);
    assert(most.at_most(max_width));
    turn_laws::lemma_clamped(width, least, one);
    lemma_follows(
        laws::exact(width),
        laws::exact(desired),
        laws::exact(wider),
        laws::exact(most),
        asked,
        larger((w / 100) * w, (w / 100) * a),
        smaller(room_width * w, room_height * a),
        slack,
    );
}

/// A width that is asked for across, in units of one times one.
proof fn lemma_across(x: int, goal: int, d: int, other: int, a: int, w: int)
    requires
        w > 0,
        a > 0,
        d >= 0,
        other >= 0,
        0x10_0000 * bounds::absolute(x - goal) <= d + 2 * w,
    ensures
        0x2_0000 * bounds::absolute(x * w - goal * w) <= (4 * w + (d + other)) * (w + a),
{
    let e = x - goal;
    assert(x * w - goal * w == e * w) by (nonlinear_arith)
        requires
            e == x - goal,
    ;
    assert(0x10_0000 * bounds::absolute(e * w) <= (d + 2 * w) * w) by (nonlinear_arith)
        requires
            0x10_0000 * bounds::absolute(e) <= d + 2 * w,
            w > 0,
    {
        assert(bounds::absolute(e * w) == bounds::absolute(e) * w);
    }
    assert((d + 2 * w) * w <= (4 * w + (d + other)) * (w + a)) by (nonlinear_arith)
        requires
            d >= 0,
            other >= 0,
            w > 0,
            a > 0,
    ;
}

/// A height that is asked for, times the aspect, in units of one times one.
proof fn lemma_down(asked: Scalar, aspect: Scalar, goal: int, d: int, other: int)
    requires
        asked.finite(),
        aspect.finite(),
        0 <= d <= 0x10_0000 * turn_laws::whole(),
        other >= 0,
        bounds::absolute(laws::exact(asked)) <= 2 * turn_laws::whole() + 2 * d,
        0 < laws::exact(aspect) <= 128 * turn_laws::whole(),
        0x10_0000 * bounds::absolute(laws::exact(asked) - goal) <= d + 2 * turn_laws::whole(),
    ensures
        asked.product(aspect).finite(),
        0x2_0000 * bounds::absolute(
            laws::exact(asked.product(aspect)) * turn_laws::whole() - goal * laws::exact(aspect),
        ) <= (4 * turn_laws::whole() + (d + other)) * (turn_laws::whole() + laws::exact(aspect)),
{
    let w = turn_laws::whole();
    let a = laws::exact(aspect);
    let error = (d + 2 * w) / 0x10_0000;
    turn_laws::lemma_sizes();
    lemma_scaled(asked, aspect, goal, error);
    let size = bounds::absolute(laws::exact(asked));
    let sum = size + 0x40_0000 * error;
    assert(sum <= 10 * w + 6 * d);
    assert(sum * a <= (10 * w + 6 * d) * a) by (nonlinear_arith)
        requires
            sum <= 10 * w + 6 * d,
            a > 0,
    ;
    let all = (4 * w + (d + other)) * (w + a);
    assert((10 * w + 6 * d) * a + 0x80_0000 * w <= 8 * all) by (nonlinear_arith)
        requires
            all == (4 * w + (d + other)) * (w + a),
            d >= 0,
            other >= 0,
            w >= 0x80_0000,
            a > 0,
    {
        assert(all >= (4 * w + d) * (w + a)) by {
            assert(other * (w + a) >= 0);
        }
        assert((4 * w + d) * (w + a) == 4 * (w * w) + 4 * (w * a) + d * w + d * a);
        assert(w * w >= 0x80_0000 * w);
        assert(d * w >= 0 && w * a >= 0);
    }
}

/// How much of its extent a size changes.
spec fn change(size: Scalar, old: Scalar) -> Scalar {
    size.difference(old).quotient(old).size()
}

/// How much of its extent a size changes, rounded.
#[verifier::rlimit(40)]
proof fn lemma_change(size: Scalar, old: Scalar, goal: int, way: int)
    requires
        size.finite(),
        old.finite(),
        0 <= way <= 0x20_0000 * turn_laws::whole(),
        turn_laws::whole() <= 128 * laws::exact(old),
        laws::exact(old) <= turn_laws::whole(),
        bounds::absolute(laws::exact(size)) <= 2 * turn_laws::whole() + 2 * way,
        0x10_0000 * bounds::absolute(laws::exact(size) - goal) <= way + 2 * turn_laws::whole(),
    ensures
        change(size, old).finite(),
        laws::exact(change(size, old)) >= 0,
        0x4_0000 * bounds::absolute(
            laws::exact(change(size, old)) * laws::exact(old) - bounds::absolute(
                goal - laws::exact(old),
            ) * turn_laws::whole(),
        ) <= (way + 4 * turn_laws::whole()) * turn_laws::whole(),
{
    let w = turn_laws::whole();
    let e = laws::exact(old);
    turn_laws::lemma_sizes();
    curve_laws::lemma_constants();
    lemma2_to64();
    lemma_pow2_adds(149, 23);
    lemma_pow2_adds(142, 7);
    nearness_laws::lemma_signed(size);
    nearness_laws::lemma_signed(old);
    laws::negation_is_exact(old);
    assert(bounds::bounded(size, 23) && bounds::bounded(old.negated(), 23));
    bounds::a_sum_is_close(size, old.negated(), 23);
    bounds::a_sum_is_bounded(size, old.negated(), 23);
    let gap = size.difference(old);
    nearness_laws::lemma_signed(gap);
    assert(bounds::sizeable(old, -7));
    nearness_laws::a_quotient_is_near(gap, old, 24, -7);
    let share = gap.quotient(old);
    nearness_laws::lemma_signed(share);
    let found = share.size();
    nearness_laws::lemma_signed(found);
    let (x, q, r) = (laws::exact(gap), laws::exact(found), laws::exact(share));
    assert(q == bounds::absolute(r));
    let ax = bounds::absolute(x);
    assert(bounds::absolute(q * e - ax * w) <= bounds::absolute(r * e - x * w)) by (nonlinear_arith)
        requires
            q == bounds::absolute(r),
            ax == bounds::absolute(x),
            e > 0,
            w > 0,
    {
        assert(q * e == bounds::absolute(r * e));
        assert(ax * w == bounds::absolute(x * w));
    }
    assert(bounds::absolute(x * w) == ax * w) by (nonlinear_arith)
        requires
            ax == bounds::absolute(x),
            w > 0,
    ;
    let goal_gap = bounds::absolute(goal - e);
    let d = ax - goal_gap;
    assert(ax * w - goal_gap * w == d * w) by (nonlinear_arith)
        requires
            d == ax - goal_gap,
    ;
    assert(ax <= 5 * w + 3 * way);
    assert(0x10_0000 * bounds::absolute(d) <= 2 * way + 3 * w);
    assert(0x10_0000 * bounds::absolute(d * w) <= (2 * way + 3 * w) * w) by (nonlinear_arith)
        requires
            0x10_0000 * bounds::absolute(d) <= 2 * way + 3 * w,
            w > 0,
    {
        assert(bounds::absolute(d * w) == bounds::absolute(d) * w);
    }
    let (ww, yw) = (w * w, way * w);
    assert(ax * w <= 5 * ww + 3 * yw && (2 * way + 3 * w) * w == 2 * yw + 3 * ww && (way + 4 * w)
        * w == yw + 4 * ww) by (nonlinear_arith)
        requires
            ax <= 5 * w + 3 * way,
            ww == w * w,
            yw == way * w,
            w > 0,
    ;
    assert(ww >= 0x1000_0000_0000 * w && yw >= 0) by (nonlinear_arith)
        requires
            ww == w * w,
            yw == way * w,
            w >= 0x1000_0000_0000,
            way >= 0,
    ;
}

/// The larger of two changes has the larger number.
proof fn lemma_larger_change(
    less: int,
    more: int,
    less_old: int,
    more_old: int,
    less_gap: int,
    more_gap: int,
    way: int,
    w: int,
)
    requires
        w > 0,
        way >= 0,
        less >= 0,
        more >= 0,
        0 < less_old <= w,
        0 < more_old <= w,
        0x4_0000 * bounds::absolute(less * less_old - less_gap * w) <= (way + 4 * w) * w,
        0x4_0000 * bounds::absolute(more * more_old - more_gap * w) <= (way + 4 * w) * w,
        more_gap * less_old > less_gap * more_old + (4 * w + way) * w / 0x400,
    ensures
        less < more,
{
    let all = (way + 4 * w) * w;
    assert(all > 0 && (4 * w + way) * w == all) by (nonlinear_arith)
        requires
            all == (way + 4 * w) * w,
            way >= 0,
            w > 0,
    ;
    let margin = all / 0x400;
    if less >= more {
        let (lo, mo) = (less * less_old, more * more_old);
        let (lg, mg) = (less_gap * w, more_gap * w);
        let both = less * less_old * more_old;
        // Both products with the other extent.
        assert(lo * more_old >= mo * less_old) by (nonlinear_arith)
            requires
                lo == less * less_old,
                mo == more * more_old,
                less >= more,
                less_old > 0,
                more_old > 0,
        {
            assert(lo * more_old == less * (less_old * more_old));
            assert(mo * less_old == more * (less_old * more_old));
            assert(less_old * more_old > 0);
        }
        assert(0x4_0000 * (lo * more_old) <= (0x4_0000 * lg + all) * more_old) by (nonlinear_arith)
            requires
                0x4_0000 * lo <= 0x4_0000 * lg + all,
                more_old > 0,
        ;
        assert((0x4_0000 * mg - all) * less_old <= 0x4_0000 * (mo * less_old)) by (nonlinear_arith)
            requires
                0x4_0000 * mg - all <= 0x4_0000 * mo,
                less_old > 0,
        ;
        assert((0x4_0000 * lg + all) * more_old == 0x4_0000 * ((less_gap * more_old) * w) + all
            * more_old) by (nonlinear_arith)
            requires
                lg == less_gap * w,
        ;
        assert((0x4_0000 * mg - all) * less_old == 0x4_0000 * ((more_gap * less_old) * w) - all
            * less_old) by (nonlinear_arith)
            requires
                mg == more_gap * w,
        ;
        assert(all * more_old <= all * w && all * less_old <= all * w) by (nonlinear_arith)
            requires
                all > 0,
                more_old <= w,
                less_old <= w,
        ;
        let gap = more_gap * less_old - less_gap * more_old;
        assert((more_gap * less_old) * w - (less_gap * more_old) * w == gap * w)
            by (nonlinear_arith)
            requires
                gap == more_gap * less_old - less_gap * more_old,
        ;
        assert(0x4_0000 * (gap * w) <= 2 * (all * w));
        assert(0x4_0000 * gap <= 2 * all) by (nonlinear_arith)
            requires
                0x4_0000 * (gap * w) <= 2 * (all * w),
                w > 0,
        ;
        assert(gap > margin);
        assert(false);
    }
}

/// The larger of an extent that is asked for and the least.
proof fn lemma_at_least(asked: Scalar, goal: int, way: int)
    requires
        asked.finite(),
        way >= 0,
        bounds::absolute(laws::exact(asked)) <= 2 * turn_laws::whole() + 2 * way,
        0x10_0000 * bounds::absolute(laws::exact(asked) - goal) <= way + 2 * turn_laws::whole(),
    ensures
        ({
            let found = asked.greater(Scalar { bits: constants::HUNDREDTH });
            let w = turn_laws::whole();
            &&& found.finite()
            &&& bounds::absolute(laws::exact(found)) <= 2 * w + 2 * way
            &&& 0x10_0000 * bounds::absolute(laws::exact(found) - larger(goal, w / 100)) <= way + 2
                * w
        }),
{
    turn_laws::lemma_sizes();
    drag_laws::lemma_hundredth();
    laws::order_is_exact(asked, Scalar { bits: constants::HUNDREDTH });
}

/// A pull of an edge at a locked aspect follows the pointer.
#[verifier::rlimit(40)]
proof fn lemma_edge(
    start: CropRect,
    kind: i32,
    delta_x: Scalar,
    delta_y: Scalar,
    aspect: Scalar,
)
    requires
        gesture_laws::lies_inside(start),
        delta_x.finite(),
        delta_y.finite(),
        aspect.finite(),
        5 <= kind <= 8,
        bounds::absolute(laws::exact(delta_x)) <= 0x10_0000 * turn_laws::whole(),
        bounds::absolute(laws::exact(delta_y)) <= 0x10_0000 * turn_laws::whole(),
        0 < laws::exact(aspect) <= 128 * turn_laws::whole(),
        aspect_laws::has_room(
            start,
            gesture::grip_of(kind).unwrap(),
            delta_x,
            delta_y,
            aspect,
        ),
    ensures
        follows_at_aspect(
            start,
            kind,
            delta_x,
            delta_y,
            laws::exact(aspect),
            laws::exact(
                gesture::changed_at_aspect(
                    start,
                    gesture::grip_of(kind).unwrap(),
                    delta_x,
                    delta_y,
                    aspect,
                ).inside().width,
            ),
        ),
{
    let w = turn_laws::whole();
    let a = laws::exact(aspect);
    let (across, down) = (gesture::across(start), gesture::down(start));
    let grip = gesture::grip_of(kind).unwrap();
    let (dx, dy) = (
        bounds::absolute(laws::exact(delta_x)),
        bounds::absolute(laws::exact(delta_y)),
    );
    turn_laws::lemma_sizes();
    lemma_room(across, grip == Grip::Left);
    lemma_room(down, grip == Grip::Top);
    lemma_room_round(across);
    lemma_room_round(down);
    aspect_laws::lemma_room_round_middle(across);
    aspect_laws::lemma_room_round_middle(down);
    lemma_asked(across, grip == Grip::Left, delta_x);
    lemma_asked(down, grip == Grip::Top, delta_y);
    let (desired, max_width, max_height) = gesture::asked_size(
        start,
        grip,
        delta_x,
        delta_y,
        aspect,
    );
    let way = dx + dy;
    let slack = (4 * w + way) * (w + a);
    assert(4 * (w * (w + a)) <= slack) by (nonlinear_arith)
        requires
            slack == (4 * w + way) * (w + a),
            way >= 0,
            w > 0,
            a > 0,
    ;
    if kind == 5 || kind == 7 {
        let goal = pulled_extent(across, kind == 5, delta_x);
        lemma_across(laws::exact(desired), goal, dx, dy, a, w);
        lemma_width(
            desired,
            max_width,
            max_height,
            aspect,
            goal * w,
            room_at(across, kind == 5),
            room_round(down),
            slack,
        );
    } else {
        let goal = pulled_extent(down, kind == 6, delta_y);
        let asked = gesture::asked_extent(down, kind == 6, delta_y);
        lemma_down(asked, aspect, goal, dy, dx);
        lemma_width(
            desired,
            max_width,
            max_height,
            aspect,
            goal * a,
            room_round(across),
            room_at(down, kind == 6),
            slack,
        );
    }
}

/// A pull of a corner at a locked aspect follows the pointer.
#[verifier::rlimit(60)]
proof fn lemma_corner(
    start: CropRect,
    kind: i32,
    delta_x: Scalar,
    delta_y: Scalar,
    aspect: Scalar,
)
    requires
        gesture_laws::lies_inside(start),
        delta_x.finite(),
        delta_y.finite(),
        aspect.finite(),
        1 <= kind <= 4,
        bounds::absolute(laws::exact(delta_x)) <= 0x10_0000 * turn_laws::whole(),
        bounds::absolute(laws::exact(delta_y)) <= 0x10_0000 * turn_laws::whole(),
        0 < laws::exact(aspect) <= 128 * turn_laws::whole(),
        aspect_laws::has_room(
            start,
            gesture::grip_of(kind).unwrap(),
            delta_x,
            delta_y,
            aspect,
        ),
    ensures
        follows_at_aspect(
            start,
            kind,
            delta_x,
            delta_y,
            laws::exact(aspect),
            laws::exact(
                gesture::changed_at_aspect(
                    start,
                    gesture::grip_of(kind).unwrap(),
                    delta_x,
                    delta_y,
                    aspect,
                ).inside().width,
            ),
        ),
{
    let w = turn_laws::whole();
    let a = laws::exact(aspect);
    let least = Scalar { bits: constants::HUNDREDTH };
    let (across, down) = (gesture::across(start), gesture::down(start));
    let grip = gesture::grip_of(kind).unwrap();
    let (left, top) = (kind == 1 || kind == 3, kind == 1 || kind == 2);
    assert(grip.moves_left() == left && grip.moves_top() == top);
    let (dx, dy) = (
        bounds::absolute(laws::exact(delta_x)),
        bounds::absolute(laws::exact(delta_y)),
    );
    let way = dx + dy;
    turn_laws::lemma_sizes();
    drag_laws::lemma_hundredth();
    drag_laws::lemma_span(across);
    drag_laws::lemma_span(down);
    lemma_room(across, left);
    lemma_room(down, top);
    lemma_asked(across, left, delta_x);
    lemma_asked(down, top, delta_y);
    let (wide_goal, tall_goal) = (
        pulled_extent(across, left, delta_x),
        pulled_extent(down, top, delta_y),
    );
    lemma_at_least(gesture::asked_extent(across, left, delta_x), wide_goal, dx);
    lemma_at_least(gesture::asked_extent(down, top, delta_y), tall_goal, dy);
    let width = gesture::asked_extent(across, left, delta_x).greater(least);
    let height = gesture::asked_extent(down, top, delta_y).greater(least);
    let (wide, tall) = (larger(wide_goal, w / 100), larger(tall_goal, w / 100));
    let (desired, max_width, max_height) = gesture::asked_size(
        start,
        grip,
        delta_x,
        delta_y,
        aspect,
    );
    let slack = (4 * w + way) * (w + a);
    assert(4 * (w * (w + a)) <= slack) by (nonlinear_arith)
        requires
            slack == (4 * w + way) * (w + a),
            way >= 0,
            w > 0,
            a > 0,
    ;
    if gesture::width_drives(start, width, height) {
        lemma_across(laws::exact(width), wide, dx, dy, a, w);
        lemma_width(
            width,
            max_width,
            max_height,
            aspect,
            wide * w,
            room_at(across, left),
            room_at(down, top),
            slack,
        );
    } else {
        lemma_down(height, aspect, tall, dy, dx);
        lemma_width(
            height.product(aspect),
            max_width,
            max_height,
            aspect,
            tall * a,
            room_at(across, left),
            room_at(down, top),
            slack,
        );
    }
    lemma_driver(start, width, height, wide, tall, way);
}

/// Which of two changes decides.
proof fn lemma_driver(
    start: CropRect,
    width: Scalar,
    height: Scalar,
    wide: int,
    tall: int,
    way: int,
)
    requires
        gesture_laws::lies_inside(start),
        width.finite(),
        height.finite(),
        0 <= way <= 0x20_0000 * turn_laws::whole(),
        bounds::absolute(laws::exact(width)) <= 2 * turn_laws::whole() + 2 * way,
        bounds::absolute(laws::exact(height)) <= 2 * turn_laws::whole() + 2 * way,
        0x10_0000 * bounds::absolute(laws::exact(width) - wide) <= way + 2 * turn_laws::whole(),
        0x10_0000 * bounds::absolute(laws::exact(height) - tall) <= way + 2 * turn_laws::whole(),
    ensures
        ({
            let one = turn_laws::whole();
            let (old_width, old_height) = (laws::exact(start.width), laws::exact(start.height));
            let across_change = bounds::absolute(wide - old_width) * old_height;
            let down_change = bounds::absolute(tall - old_height) * old_width;
            let margin = (4 * one + way) * one / 0x400;
            &&& across_change > down_change + margin ==> gesture::width_drives(
                start,
                width,
                height,
            )
            &&& down_change > across_change + margin ==> !gesture::width_drives(
                start,
                width,
                height,
            )
        }),
{
    let w = turn_laws::whole();
    turn_laws::lemma_sizes();
    drag_laws::lemma_span(gesture::across(start));
    drag_laws::lemma_span(gesture::down(start));
    lemma_change(width, start.width, wide, way);
    lemma_change(height, start.height, tall, way);
    let (across, down) = (change(width, start.width), change(height, start.height));
    let (old_width, old_height) = (laws::exact(start.width), laws::exact(start.height));
    let (wide_gap, tall_gap) = (
        bounds::absolute(wide - old_width),
        bounds::absolute(tall - old_height),
    );
    let margin = (4 * w + way) * w / 0x400;
    laws::order_is_exact(down, across);
    if wide_gap * old_height > tall_gap * old_width + margin {
        lemma_larger_change(
            laws::exact(down),
            laws::exact(across),
            old_height,
            old_width,
            tall_gap,
            wide_gap,
            way,
            w,
        );
    }
    if tall_gap * old_width > wide_gap * old_height + margin {
        lemma_larger_change(
            laws::exact(across),
            laws::exact(down),
            old_width,
            old_height,
            wide_gap,
            tall_gap,
            way,
            w,
        );
    }
}

/// A gesture at a locked aspect leaves a crop as wide as the pointer asks for:
/// larger only where that is the least crop, and smaller only where the image
/// has no more room. The numbers are those by which the user interface names
/// the corners and the edges.
pub proof fn a_locked_gesture_follows_the_pointer(
    start: CropRect,
    kind: i32,
    delta_x: Scalar,
    delta_y: Scalar,
    aspect: Scalar,
)
    requires
        gesture_laws::lies_inside(start),
        delta_x.finite(),
        delta_y.finite(),
        aspect.finite(),
        1 <= kind <= 8,
        bounds::absolute(laws::exact(delta_x)) <= 0x10_0000 * turn_laws::whole(),
        bounds::absolute(laws::exact(delta_y)) <= 0x10_0000 * turn_laws::whole(),
        turn_laws::step() <= laws::exact(aspect) <= 128 * turn_laws::whole(),
        aspect_laws::has_room(
            start,
            gesture::grip_of(kind).unwrap(),
            delta_x,
            delta_y,
            aspect,
        ),
    ensures
        follows_at_aspect(
            start,
            kind,
            delta_x,
            delta_y,
            laws::exact(aspect),
            laws::exact(
                gesture::changed(
                    start,
                    gesture::grip_of(kind).unwrap(),
                    delta_x,
                    delta_y,
                    Some(aspect),
                ).inside().width,
            ),
        ),
{
    let epsilon = Scalar { bits: constants::EPSILON };
    turn_laws::lemma_sizes();
    curve_laws::lemma_constants();
    laws::order_is_exact(aspect, epsilon);
    assert(gesture::usable_aspect(aspect) == aspect);
    if kind <= 4 {
        lemma_corner(start, kind, delta_x, delta_y, aspect);
    } else {
        lemma_edge(start, kind, delta_x, delta_y, aspect);
    }
}

} // verus!
