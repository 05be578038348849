//! A gesture at a locked aspect keeps the aspect, and what it does not pull.

use vstd::arithmetic::power2::*;
use vstd::prelude::*;

use crate::document::crop_laws;
use crate::document::curve_laws;
use crate::document::turn_laws;
use crate::document::values::CropRect;
use crate::number::bounds;
use crate::number::constants;
use crate::number::laws;
use crate::number::rounding;
use crate::number::scalar::Scalar;
use crate::session::gesture;
use crate::session::gesture::{Grip, Span};
use crate::session::gesture_laws;

verus! {

/// Every finite number is at most this large.
proof fn lemma_finite_is_bounded(a: Scalar)
    requires
        a.finite(),
    ensures
        bounds::bounded(a, 128),
{
    let code = a.value().code as nat;
    rounding::lemma_decode(code, 24);
    lemma2_to64();
    let x = rounding::exponent(code, 24);
    let q = rounding::significand(code, 24);
    assert(x <= 253);
    if x < 253 {
        lemma_pow2_strictly_increases(x, 253);
    }
    lemma_pow2_adds(24, 253);
    assert(q * pow2(x) <= 0x100_0000 * pow2(253)) by (nonlinear_arith)
        requires
            q <= 0x100_0000,
            pow2(x) <= pow2(253),
    ;
}

/// What the height is at an aspect: `w` is the width, `a` the aspect, `h` the
/// height, `most` the height that there is room for, and `least` the least one.
proof fn lemma_height(w: int, a: int, h: int, most: int, least: int, t: int, l: int, b: int, g: int)
    requires
        g >= 0x1_0000_0000,
        b == 8388608 * g,
        128 * least >= b,
        least <= w <= b,
        0 <= most <= b,
        0 < a,
        h >= 0,
        w <= t,
        l <= w,
        h * a * 8388608 <= w * b * 8388609 + a * 8388608,
        w * b * 8388608 <= h * a * 8388609 + a * 8388608,
        t * b * 8388608 <= most * a * 8388609 + b * 8388608,
        least * a * 8388608 <= l * b * 8388609 + b * 8388608,
    ensures
        h <= most + 3 * g,
        b <= 129 * a,
        a <= 129 * b,
        (least - h) * 8388608 <= 3 * least,
{
    let wb = w * b;
    let ha = h * a;
    let ma = most * a;
    let la = least * a;
    assert(h * a * 8388608 == ha * 8388608 && w * b * 8388609 == wb * 8388609);
    assert(wb <= t * b) by (nonlinear_arith)
        requires
            wb == w * b,
            w <= t,
            b >= 0,
    ;
    assert(l * b <= wb) by (nonlinear_arith)
        requires
            wb == w * b,
            l <= w,
            b >= 0,
    ;
    // The aspect has limits.
    assert(128 * wb >= b * b) by (nonlinear_arith)
        requires
            wb == w * b,
            128 * w >= b,
            b >= 0,
    ;
    assert(ma <= b * a) by (nonlinear_arith)
        requires
            ma == most * a,
            most <= b,
            a > 0,
    ;
    assert(b * 8388608 <= 128 * (a * 8388609 + 8388608)) by (nonlinear_arith)
        requires
            b * b <= 128 * wb,
            wb * 8388608 <= ma * 8388609 + b * 8388608,
            ma <= b * a,
            b > 0,
    ;
    assert(wb <= b * b) by (nonlinear_arith)
        requires
            wb == w * b,
            w <= b,
            b > 0,
    ;
    assert(128 * la >= b * a) by (nonlinear_arith)
        requires
            la == least * a,
            128 * least >= b,
            a > 0,
    ;
    assert(a * 8388608 <= 128 * (b * 8388609 + 8388608)) by (nonlinear_arith)
        requires
            b * a <= 128 * la,
            la * 8388608 <= wb * 8388609 + b * 8388608,
            wb <= b * b,
            b > 0,
    ;
    // The height is at most what there is room for.
    assert(ha * 8388608 * 8388608 <= (ma * 8388609 + b * 8388608) * 8388609 + a * 8388608
        * 8388608);
    assert(h * 70368744177664 <= most * 70368760954881 + 9077569081049088 + 70368744177664)
        by (nonlinear_arith)
        requires
            ha * 70368744177664 <= ma * 70368760954881 + b * 70368752566272 + a * 70368744177664,
            ha == h * a,
            ma == most * a,
            b <= 129 * a,
            a > 0,
    ;
    // It is at least the least one.
    assert(least * 70368744177664 <= h * 70368760954881 + 70368752566272 + 9077567998918656)
        by (nonlinear_arith)
        requires
            la * 70368744177664 <= ha * 70368760954881 + a * 70368752566272 + b * 70368744177664,
            ha == h * a,
            la == least * a,
            b <= 129 * a,
            a > 0,
    ;
}

/// Whether an extent has the least size, and what there is room for, or is a
/// little off.
spec fn nearly_fits(extent: Scalar, space: int) -> bool {
    &&& extent.finite()
    &&& laws::exact(extent) + turn_laws::step() >= laws::exact(
        Scalar { bits: constants::HUNDREDTH },
    )
    &&& laws::exact(extent) <= space + 3 * turn_laws::step()
}

/// An extent that is nearly right, brought inside.
proof fn lemma_kept_extent(extent: Scalar, space: int)
    requires
        nearly_fits(extent, space),
        space <= turn_laws::whole(),
    ensures
        ({
            let e = turn_laws::kept_extent(extent);
            let g = turn_laws::step();
            let rest = (Scalar { bits: constants::ONE }).difference(e);
            &&& e.finite()
            &&& 0 < laws::exact(e) <= turn_laws::whole()
            &&& -g <= laws::exact(extent) - laws::exact(e) <= 3 * g
            &&& rest.finite()
            &&& 0 <= laws::exact(rest)
            &&& -g - 1 <= laws::exact(rest) - (turn_laws::whole() - laws::exact(e)) <= g + 1
        }),
{
    let one = Scalar { bits: constants::ONE };
    turn_laws::lemma_sizes();
    turn_laws::lemma_clamped(extent, Scalar { bits: constants::HUNDREDTH }, one);
    let e = turn_laws::kept_extent(extent);
    turn_laws::lemma_off(one, e);
    crop_laws::lemma_room_is_close(e);
}

/// A span that keeps one end keeps it when it is brought inside.
proof fn lemma_end_is_kept(span: Span, at_start: bool, extent: Scalar)
    requires
        gesture_laws::span_lies_inside(span),
        nearly_fits(extent, laws::exact(gesture::room(span, at_start))),
    ensures
        ({
            let kept = gesture::keeping_an_end(span, at_start, extent);
            let start = laws::exact(turn_laws::kept(kept.start, extent));
            let e = laws::exact(turn_laws::kept_extent(extent));
            let g = turn_laws::step();
            let end = laws::exact(span.start) + laws::exact(span.extent);
            &&& laws::exact(gesture::room(span, at_start)) <= turn_laws::whole()
            &&& at_start ==> -16 * g <= start + e - end <= 16 * g
            &&& !at_start ==> -16 * g <= start - laws::exact(span.start) <= 16 * g
        }),
{
    let zero = Scalar { bits: constants::ZERO };
    let one = Scalar { bits: constants::ONE };
    turn_laws::lemma_sizes();
    gesture_laws::lemma_span(span);
    curve_laws::lemma_constants();
    turn_laws::lemma_off(one, span.start);
    lemma_sum_off(span.start, span.extent);
    assert(laws::exact(one.difference(span.start)) <= turn_laws::whole()) by {
        laws::negation_is_exact(span.start);
        bounds::a_sum_stays_between(one, span.start.negated(), zero, one);
        laws::order_is_exact(one.difference(span.start), one);
    }
    lemma_kept_extent(extent, laws::exact(gesture::room(span, at_start)));
    let e = turn_laws::kept_extent(extent);
    let rest = one.difference(e);
    let kept = gesture::keeping_an_end(span, at_start, extent);
    if at_start {
        turn_laws::lemma_off(span.end(), extent);
    }
    turn_laws::lemma_clamped(kept.start, zero, rest);
}

/// A sum of moderate size, and how far it is off.
proof fn lemma_sum_off(a: Scalar, c: Scalar)
    requires
        a.finite(),
        c.finite(),
        -4 * turn_laws::whole() <= laws::exact(a) <= 4 * turn_laws::whole(),
        -4 * turn_laws::whole() <= laws::exact(c) <= 4 * turn_laws::whole(),
    ensures
        ({
            let exact = laws::exact(a) + laws::exact(c);
            let found = laws::exact(a.sum(c));
            &&& a.sum(c).finite()
            &&& (found - exact) * 0x80_0000 <= bounds::absolute(exact) + 0x80_0000
            &&& (exact - found) * 0x80_0000 <= bounds::absolute(exact) + 0x80_0000
        }),
{
    turn_laws::lemma_sizes();
    bounds::a_sum_is_close(a, c, 2);
    bounds::a_sum_is_bounded(a, c, 2);
}

/// Half of an extent.
proof fn lemma_half_off(extent: Scalar)
    requires
        extent.finite(),
        0 < laws::exact(extent) <= 2 * turn_laws::whole(),
    ensures
        ({
            let half = extent.quotient(Scalar { bits: constants::TWO });
            let g = turn_laws::step();
            &&& half.finite()
            &&& 0 <= laws::exact(half) <= 4 * turn_laws::whole()
            &&& -2 * g - 2 <= 2 * laws::exact(half) - laws::exact(extent) <= 2 * g + 2
        }),
{
    let two = Scalar { bits: constants::TWO };
    let b = turn_laws::whole();
    let g = turn_laws::step();
    turn_laws::lemma_sizes();
    curve_laws::lemma_constants();
    bounds::a_quotient_is_close(extent, two, 1, 1);
    bounds::a_quotient_is_bounded(extent, two, 1, 1);
    let half = extent.quotient(two);
    let u = bounds::units(half) as int;
    let e = bounds::units(extent) as int;
    assert(bounds::units(two) == 2 * b && bounds::power(0) == b);
    assert(u * (2 * b) * 8388608 <= e * b * 8388609 + 2 * b * 8388608);
    assert(e * b * 8388608 <= u * (2 * b) * 8388609 + 2 * b * 8388608);
    assert(2 * u * 8388608 <= e * 8388609 + 2 * 8388608) by (nonlinear_arith)
        requires
            u * (2 * b) * 8388608 <= e * b * 8388609 + 2 * b * 8388608,
            b > 0,
    ;
    assert(e * 8388608 <= 2 * u * 8388609 + 2 * 8388608) by (nonlinear_arith)
        requires
            e * b * 8388608 <= u * (2 * b) * 8388609 + 2 * b * 8388608,
            b > 0,
    ;
    curve_laws::lemma_nought(extent);
    curve_laws::lemma_nought(half);
}

/// What there is room for round the middle of a span.
pub proof fn lemma_room_round_middle(span: Span)
    requires
        gesture_laws::span_lies_inside(span),
    ensures
        ({
            let middle = laws::exact(gesture::middle(span));
            let room = laws::exact(gesture::room_round_middle(span));
            let g = turn_laws::step();
            &&& gesture::middle(span).finite()
            &&& 0 <= middle <= turn_laws::whole()
            &&& -2 * g - 2 <= 2 * middle - (2 * laws::exact(span.start) + laws::exact(
                span.extent,
            )) <= 2 * g + 2
            &&& room <= 2 * middle + 2 * g + 2
            &&& room <= 2 * (turn_laws::whole() - middle) + 4 * g + 4
            &&& room <= turn_laws::whole()
        }),
{
    let one = Scalar { bits: constants::ONE };
    let two = Scalar { bits: constants::TWO };
    turn_laws::lemma_sizes();
    curve_laws::lemma_constants();
    gesture_laws::lemma_span(span);
    gesture_laws::lemma_middle(span);
    gesture_laws::lemma_half(span.extent);
    let half = span.extent.quotient(two);
    lemma_sum_off(span.start, half);
    let middle = gesture::middle(span);
    let other = one.difference(middle);
    turn_laws::lemma_off(one, middle);
    let zero = Scalar { bits: constants::ZERO };
    laws::negation_is_exact(middle);
    bounds::a_sum_stays_between(one, middle.negated(), zero, one);
    laws::order_is_exact(zero, other);
    laws::order_is_exact(other, one);
    laws::order_is_exact(other, middle);
    laws::order_is_exact(middle, other);
    let nearer = middle.lesser(other);
    let b = turn_laws::whole();
    assert(0 <= laws::exact(nearer) <= b);
    bounds::a_product_is_close(two, nearer, 1, 0);
    let n = bounds::units(nearer) as int;
    let u = bounds::units(two.product(nearer)) as int;
    assert(bounds::units(two) == 2 * b && bounds::power(0) == b);
    assert(u * b * 8388608 <= 2 * b * n * 8388609 + b * 8388608);
    assert(u * 8388608 <= 2 * n * 8388609 + 8388608) by (nonlinear_arith)
        requires
            u * b * 8388608 <= 2 * b * n * 8388609 + b * 8388608,
            b > 0,
    ;
    let half_of_one = Scalar { bits: constants::HALF };
    lemma2_to64();
    rounding::lemma_encode(125, 0x80_0000, 24);
    lemma_pow2_adds(125, 23);
    lemma_pow2_unfold(149);
    assert(laws::exact(half_of_one) == pow2(148));
    if 2 * laws::exact(middle) > b {
        bounds::a_sum_stays_between(one, middle.negated(), zero, half_of_one);
        laws::order_is_exact(other, half_of_one);
    }
    bounds::a_product_is_bounded(two, nearer, 1, -1);
}

/// A span that keeps its middle keeps it when it is brought inside.
proof fn lemma_middle_is_kept(span: Span, extent: Scalar)
    requires
        gesture_laws::span_lies_inside(span),
        nearly_fits(extent, laws::exact(gesture::room_round_middle(span))),
    ensures
        ({
            let kept = gesture::keeping_the_middle(span, extent);
            let start = laws::exact(turn_laws::kept(kept.start, extent));
            let e = laws::exact(turn_laws::kept_extent(extent));
            let g = turn_laws::step();
            -32 * g <= 2 * start + e - (2 * laws::exact(span.start) + laws::exact(span.extent))
                <= 32 * g
        }),
{
    let zero = Scalar { bits: constants::ZERO };
    let one = Scalar { bits: constants::ONE };
    turn_laws::lemma_sizes();
    lemma_room_round_middle(span);
    lemma_kept_extent(extent, laws::exact(gesture::room_round_middle(span)));
    lemma_half_off(extent);
    let half = extent.quotient(Scalar { bits: constants::TWO });
    turn_laws::lemma_off(gesture::middle(span), half);
    let kept = gesture::keeping_the_middle(span, extent);
    turn_laws::lemma_clamped(kept.start, zero, one.difference(turn_laws::kept_extent(extent)));
}

/// The aspect of a width and a height that has been brought inside: `e` is
/// the height as it is kept.
proof fn lemma_ratio(w: int, a: int, h: int, e: int, least: int, l: int, b: int, g: int)
    requires
        g >= 0x1_0000_0000,
        b == 8388608 * g,
        128 * least >= b,
        least <= w <= b,
        0 < a <= 129 * b,
        h >= 0,
        l <= w,
        h <= b + 3 * g,
        (least - h) * 8388608 <= 3 * least,
        h * a * 8388608 <= w * b * 8388609 + a * 8388608,
        w * b * 8388608 <= h * a * 8388609 + a * 8388608,
        least * a * 8388608 <= l * b * 8388609 + b * 8388608,
        e == if h < least {
            least
        } else if h > b {
            b
        } else {
            h
        },
    ensures
        0x10_0000 * bounds::absolute(w * b - a * e) <= w * b,
{
    let wb = w * b;
    let ha = h * a;
    let la = least * a;
    let ae = a * e;
    assert(128 * wb >= b * b) by (nonlinear_arith)
        requires
            wb == w * b,
            128 * w >= b,
            b >= 0,
    ;
    assert(b * b >= 1099511627776 * b) by (nonlinear_arith)
        requires
            b >= 1099511627776,
    ;
    assert(l * b <= wb) by (nonlinear_arith)
        requires
            wb == w * b,
            l <= w,
            b >= 0,
    ;
    assert(ha * 8388608 <= wb * 8388609 + a * 8388608);
    assert(wb * 8388608 <= ha * 8388609 + a * 8388608);
    assert(la * 8388608 <= wb * 8388609 + b * 8388608);
    if h < least {
        assert(ae == la && (la - ha) * 8388608 <= 3 * la) by (nonlinear_arith)
            requires
                ae == a * e,
                e == least,
                la == least * a,
                ha == h * a,
                (least - h) * 8388608 <= 3 * least,
                a > 0,
        ;
        assert(la >= ha) by (nonlinear_arith)
            requires
                la == least * a,
                ha == h * a,
                h < least,
                a > 0,
        ;
    } else if h > b {
        assert(ae <= ha && (ha - ae) * 8388608 <= 3 * ae) by (nonlinear_arith)
            requires
                ae == a * e,
                e == b,
                ha == h * a,
                b < h <= b + 3 * g,
                b == 8388608 * g,
                a > 0,
        ;
    } else {
        assert(ae == ha) by (nonlinear_arith)
            requires
                ae == a * e,
                ha == h * a,
                e == h,
        ;
    }
}

/// Whether there is room for the least crop at an aspect.
pub open spec fn has_room(
    start: CropRect,
    grip: Grip,
    delta_x: Scalar,
    delta_y: Scalar,
    aspect: Scalar,
) -> bool {
    let least = Scalar { bits: constants::HUNDREDTH };
    let (desired, max_width, max_height) = gesture::asked_size(
        start,
        grip,
        delta_x,
        delta_y,
        aspect,
    );
    let most = gesture::largest_width(max_width, max_height, aspect);
    least.at_most(most) && least.product(aspect).at_most(most)
}

/// The size that a gesture at an aspect leaves.
proof fn lemma_size(desired: Scalar, max_width: Scalar, max_height: Scalar, aspect: Scalar)
    requires
        !desired.nan(),
        max_width.finite(),
        0 <= laws::exact(max_width) <= turn_laws::whole(),
        max_height.finite(),
        0 <= laws::exact(max_height) <= turn_laws::whole(),
        aspect.finite(),
        bounds::sizeable(aspect, -23),
        !aspect.value().negative,
        !bounds::nought(aspect),
        ({
            let least = Scalar { bits: constants::HUNDREDTH };
            let most = gesture::largest_width(max_width, max_height, aspect);
            least.at_most(most) && least.product(aspect).at_most(most)
        }),
    ensures
        ({
            let width = gesture::allowed_width(desired, max_width, max_height, aspect);
            let height = width.quotient(aspect);
            let w = laws::exact(turn_laws::kept_extent(width));
            let h = laws::exact(turn_laws::kept_extent(height));
            &&& nearly_fits(width, laws::exact(max_width))
            &&& nearly_fits(height, laws::exact(max_height))
            &&& 0x10_0000 * bounds::absolute(w * turn_laws::whole() - laws::exact(aspect) * h) <= w
                * turn_laws::whole()
        }),
{
    let zero = Scalar { bits: constants::ZERO };
    let one = Scalar { bits: constants::ONE };
    let least = Scalar { bits: constants::HUNDREDTH };
    let b = turn_laws::whole();
    let g = turn_laws::step();
    turn_laws::lemma_sizes();
    curve_laws::lemma_constants();
    lemma_finite_is_bounded(aspect);
    gesture_laws::lemma_allowed(desired, max_width, max_height, aspect);
    let tall = max_height.product(aspect);
    let most = gesture::largest_width(max_width, max_height, aspect);
    let smallest = least.product(aspect);
    let width = gesture::allowed_width(desired, max_width, max_height, aspect);
    let height = width.quotient(aspect);
    gesture_laws::lemma_product_is_number(max_height, aspect);
    // The aspect is not too large for the least crop.
    lemma2_to64();
    let more = Scalar { bits: 0x3c80_0000 };
    rounding::lemma_encode(120, 0x80_0000, 24);
    lemma_pow2_adds(23, 120);
    lemma_pow2_adds(143, 6);
    assert(laws::exact(more) == pow2(143));
    laws::order_is_exact(least, more);
    assert(least.at_most(more));
    assert(bounds::bounded(least, -6));
    bounds::a_product_is_close(least, aspect, -6, 128);
    bounds::a_product_is_bounded(least, aspect, -6, 128);
    assert(most.at_most(max_width));
    laws::order_is_exact(smallest, max_width);
    let a = laws::exact(aspect);
    let lw = laws::exact(least);
    let l = laws::exact(smallest);
    assert(bounds::units(aspect) == a && bounds::units(least) == lw && bounds::units(smallest) == l);
    assert(bounds::power(0) == b);
    assert(lw * a * 8388608 <= l * b * 8388609 + b * 8388608);
    lemma_aspect_is_limited(a, lw, l, b);
    lemma_pow2_adds(149, 8);
    assert(bounds::bounded(aspect, 8));
    bounds::a_product_is_close(max_height, aspect, 0, 8);
    bounds::a_product_is_bounded(max_height, aspect, 0, 8);
    let t = laws::exact(tall);
    assert(tall.finite());
    laws::order_is_exact(zero, max_height);
    // The width.
    laws::order_is_exact(least, most);
    laws::order_is_exact(smallest, most);
    laws::order_is_exact(most, max_width);
    laws::order_is_exact(most, tall);
    assert(most.at_most(tall));
    let wider = least.greater(smallest);
    laws::order_is_exact(wider, most);
    laws::order_is_exact(least, smallest);
    let fewest = wider.lesser(most);
    laws::order_is_exact(most, wider);
    assert(width.within(fewest, most));
    laws::order_is_exact(fewest, width);
    laws::order_is_exact(width, most);
    laws::order_is_exact(fewest, least);
    laws::order_is_exact(fewest, smallest);
    let w = laws::exact(width);
    assert(lw <= w <= b && l <= w && w <= t);
    // The height.
    bounds::a_quotient_is_close(width, aspect, 0, -23);
    bounds::a_quotient_is_bounded(width, aspect, 0, -23);
    let h = laws::exact(height);
    assert(bounds::units(height) == h && bounds::units(width) == w);
    let m = laws::exact(max_height);
    assert(bounds::units(max_height) == m && bounds::units(tall) >= t);
    lemma_height(w, a, h, m, lw, t, l, b, g);
    turn_laws::lemma_clamped(width, least, one);
    turn_laws::lemma_clamped(height, least, one);
    let e = laws::exact(turn_laws::kept_extent(height));
    lemma_ratio(w, a, h, e, lw, l, b, g);
}

proof fn lemma_aspect_is_limited(a: int, least: int, l: int, b: int)
    requires
        b >= 0x1_0000_0000,
        128 * least >= b,
        0 <= a,
        l <= b,
        least * a * 8388608 <= l * b * 8388609 + b * 8388608,
    ensures
        a <= 129 * b,
{
    let la = least * a;
    let lb = l * b;
    assert(lb <= b * b) by (nonlinear_arith)
        requires
            lb == l * b,
            l <= b,
            b > 0,
    ;
    assert(128 * la >= b * a) by (nonlinear_arith)
        requires
            la == least * a,
            128 * least >= b,
            a >= 0,
    ;
    assert(a * 8388608 <= 128 * (b * 8388609 + 8388608)) by (nonlinear_arith)
        requires
            b * a <= 128 * la,
            la * 8388608 <= lb * 8388609 + b * 8388608,
            lb <= b * b,
            b > 0,
    ;
}

/// What a pull at one end, or at both sides of the middle, leaves of a span:
/// the other end, or the middle, stays where it was, but for one part in 2^19
/// of the whole.
pub open spec fn is_anchored(before: Span, after: Span, at_start: bool, at_end: bool) -> bool {
    let (old_start, old_extent) = (laws::exact(before.start), laws::exact(before.extent));
    let (start, extent) = (laws::exact(after.start), laws::exact(after.extent));
    if at_start {
        0x8_0000 * bounds::absolute(start + extent - (old_start + old_extent))
            <= turn_laws::whole()
    } else if at_end {
        0x8_0000 * bounds::absolute(start - old_start) <= turn_laws::whole()
    } else {
        0x4_0000 * bounds::absolute(2 * start + extent - (2 * old_start + old_extent))
            <= turn_laws::whole()
    }
}

/// A gesture at a locked aspect leaves a crop of that aspect, but for one part
/// in 2^20, where there is room for one. What the gesture does not pull stays
/// where it was: the other edges, or the middle between two edges, but for one
/// part in 2^19 of the image.
pub proof fn a_locked_gesture_keeps_aspect_and_anchor(
    start: CropRect,
    grip: Grip,
    delta_x: Scalar,
    delta_y: Scalar,
    aspect: Scalar,
)
    requires
        gesture_laws::lies_inside(start),
        delta_x.finite(),
        delta_y.finite(),
        aspect.finite(),
        grip != Grip::Inside,
        has_room(start, grip, delta_x, delta_y, gesture::usable_aspect(aspect)),
    ensures
        ({
            let rect = gesture::changed(start, grip, delta_x, delta_y, Some(aspect)).inside();
            let ratio = laws::exact(gesture::usable_aspect(aspect));
            let width = laws::exact(rect.width) * turn_laws::whole();
            &&& 0x10_0000 * bounds::absolute(width - ratio * laws::exact(rect.height)) <= width
            &&& is_anchored(
                gesture::across(start),
                gesture::across(rect),
                grip.moves_left(),
                grip.moves_right(),
            )
            &&& is_anchored(
                gesture::down(start),
                gesture::down(rect),
                grip.moves_top(),
                grip.moves_bottom(),
            )
        }),
{
    let epsilon = Scalar { bits: constants::EPSILON };
    let least = Scalar { bits: constants::HUNDREDTH };
    let usable = gesture::usable_aspect(aspect);
    let across = gesture::across(start);
    let down = gesture::down(start);
    turn_laws::lemma_sizes();
    curve_laws::lemma_constants();
    laws::order_is_exact(epsilon, usable);
    rounding::lemma_zero_magnitude(24);
    assert(bounds::sizeable(usable, -23));
    assert(!usable.value().negative && !bounds::nought(usable));
    gesture_laws::lemma_middle(across);
    gesture_laws::lemma_middle(down);
    gesture_laws::lemma_span(across);
    gesture_laws::lemma_span(down);
    lemma_room_at_end(across);
    lemma_room_at_end(down);
    lemma_room_round_middle(across);
    lemma_room_round_middle(down);
    gesture_laws::lemma_asked(across, grip.moves_left(), delta_x);
    gesture_laws::lemma_asked(down, grip.moves_top(), delta_y);
    let (desired, max_width, max_height) = gesture::asked_size(
        start,
        grip,
        delta_x,
        delta_y,
        usable,
    );
    gesture_laws::lemma_product_is_number(
        gesture::asked_extent(down, grip.moves_top(), delta_y),
        usable,
    );
    gesture_laws::lemma_product_is_number(
        gesture::asked_extent(down, grip.moves_top(), delta_y).greater(least),
        usable,
    );
    lemma_size(desired, max_width, max_height, usable);
    let width = gesture::allowed_width(desired, max_width, max_height, usable);
    let height = width.quotient(usable);
    match grip {
        Grip::Left | Grip::Right => {
            lemma_end_is_kept(across, grip == Grip::Left, width);
            lemma_middle_is_kept(down, height);
        },
        Grip::Top | Grip::Bottom => {
            lemma_middle_is_kept(across, width);
            lemma_end_is_kept(down, grip == Grip::Top, height);
        },
        _ => {
            lemma_end_is_kept(across, grip.moves_left(), width);
            lemma_end_is_kept(down, grip.moves_top(), height);
        },
    }
}

/// What there is room for at one end of a span is at most the whole.
proof fn lemma_room_at_end(span: Span)
    requires
        gesture_laws::span_lies_inside(span),
    ensures
        laws::exact(gesture::room(span, true)) <= turn_laws::whole(),
        laws::exact(gesture::room(span, false)) <= turn_laws::whole(),
{
    let zero = Scalar { bits: constants::ZERO };
    let one = Scalar { bits: constants::ONE };
    gesture_laws::lemma_span(span);
    curve_laws::lemma_constants();
    laws::negation_is_exact(span.start);
    bounds::a_sum_stays_between(one, span.start.negated(), zero, one);
    laws::order_is_exact(one.difference(span.start), one);
}

} // verus!
