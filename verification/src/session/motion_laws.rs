//! How zooming and dragging move the photo.

use vstd::arithmetic::power2::*;
use vstd::prelude::*;

use crate::document::curve_laws;
use crate::document::turn_laws;
use crate::number::binary::Format;
use crate::number::bounds;
use crate::number::constants;
use crate::number::convert;
use crate::number::integer_laws;
use crate::number::laws;
use crate::number::nearness_laws;
use crate::number::rounding;
use crate::number::scalar::Scalar;
use crate::render::extent_laws;
use crate::render::geometry;
use crate::render::geometry::Angle;
use crate::session::navigation;
use crate::session::preview;
use crate::session::state::SessionView;

verus! {

/// Whether so many pixels are what a logical extent comes to at a scale factor:
/// the nearest integer, from none to 4096, but for one part in 2^15 of the
/// extent.
pub open spec fn is_canvas_extent(pixels: int, logical: int, scale_factor: Scalar) -> bool {
    let one = turn_laws::whole();
    let share = logical * laws::exact(scale_factor);
    let slack = logical * one / 0x8000;
    &&& 0 <= pixels <= 4096
    &&& logical <= 0 ==> pixels == 0
    &&& logical > 0 ==> {
        &&& 2 * (pixels * one - share) <= one + 2 * slack
        &&& pixels == 4096 || 2 * (share - pixels * one) <= one + 2 * slack
    }
}

/// The canvas has the pixels that its logical size comes to.
pub proof fn a_canvas_goes_with_the_scale_factor(logical: i32, scale_factor: Scalar)
    requires
        scale_factor.finite(),
        0 <= laws::exact(scale_factor) <= 64 * turn_laws::whole(),
    ensures
        is_canvas_extent(
            preview::canvas_extent(logical, scale_factor),
            logical as int,
            scale_factor,
        ),
{
    let n = geometry::max(logical as int, 0);
    let product = Scalar::integer(n).product(scale_factor);
    let w = turn_laws::whole();
    turn_laws::lemma_sizes();
    curve_laws::lemma_constants();
    if n > 0 {
        extent_laws::lemma_share(n, scale_factor);
    } else {
        integer_laws::a_small_integer_is_exact(0);
        nearness_laws::lemma_signed(Scalar::integer(0));
        assert(0 * pow2(149) == 0) by (nonlinear_arith);
        bounds::a_product_with_zero_is_zero(Scalar::integer(0), scale_factor);
        nearness_laws::lemma_signed(product);
    }
    integer_laws::integers_round_a_small_number(product);
    let found = convert::nearest_integer(Format::Single, product.value());
    assert(found < 0 ==> found * w <= -w) by (nonlinear_arith)
        requires
            w > 0,
    ;
    assert(found > 0 ==> found * w >= w) by (nonlinear_arith)
        requires
            w > 0,
    ;
    assert(found >= 4096 ==> found * w >= 4096 * w) by (nonlinear_arith)
        requires
            w > 0,
    ;
}

/// Whether a zoom is another times a factor, held between a hundredth and 32.
pub open spec fn is_zoomed(zoom: Scalar, before: Scalar, factor: Scalar) -> bool {
    let one = turn_laws::whole();
    let (z, f) = (laws::exact(before), laws::exact(factor));
    let least = laws::exact(Scalar { bits: 0x3c23_d70a });
    let found = laws::exact(zoom);
    &&& zoom.finite()
    &&& 0x1_0000 * bounds::absolute(
        found * one - geometry::held(z * f, least * one, 32 * one * one),
    ) <= one * one
    &&& least <= found <= 32 * one
    &&& least <= z <= 32 * one && f >= one ==> found >= z
    &&& least <= z <= 32 * one && f <= one ==> found <= z
    &&& f == one && least <= z <= 32 * one ==> found == z
}

/// The numbers that zooms are held between.
proof fn lemma_zooms()
    ensures
        turn_laws::whole() == pow2(149),
        turn_laws::whole() >= 0x1000_0000_0000_0000,
        laws::exact(Scalar { bits: constants::THIRTY_TWO }) == 32 * turn_laws::whole(),
        turn_laws::whole() <= 128 * laws::exact(Scalar { bits: constants::HUNDREDTH }),
        laws::exact(Scalar { bits: constants::HUNDREDTH }) <= turn_laws::whole(),
        bounds::power(5) == 32 * turn_laws::whole(),
        bounds::power(6) == 64 * turn_laws::whole(),
        bounds::power(20) == 0x10_0000 * turn_laws::whole(),
        128 * bounds::power(-7) == turn_laws::whole(),
{
    turn_laws::lemma_sizes();
    curve_laws::lemma_constants();
    lemma2_to64();
    rounding::lemma_encode(131, 0x80_0000, 24);
    lemma_pow2_adds(131, 23);
    lemma_pow2_adds(149, 5);
    lemma_pow2_adds(149, 6);
    lemma_pow2_adds(149, 20);
    lemma_pow2_adds(142, 7);
}

/// Zooming by a factor multiplies the zoom, as far as zooms are offered.
pub proof fn zooming_multiplies_the_zoom(before: Scalar, factor: Scalar)
    requires
        before.finite(),
        factor.finite(),
        0 < laws::exact(before) <= 32 * turn_laws::whole(),
        0 < laws::exact(factor) <= 64 * turn_laws::whole(),
    ensures
        is_zoomed(navigation::offered_zoom(before.product(factor)), before, factor),
{
    let low = Scalar { bits: constants::HUNDREDTH };
    let high = Scalar { bits: constants::THIRTY_TWO };
    let product = before.product(factor);
    let w = turn_laws::whole();
    let (z, f) = (laws::exact(before), laws::exact(factor));
    lemma_zooms();
    nearness_laws::lemma_signed(before);
    nearness_laws::lemma_signed(factor);
    nearness_laws::a_product_is_near(before, factor, 5, 6);
    nearness_laws::lemma_signed(product);
    let p = laws::exact(product);
    turn_laws::lemma_clamped(product, low, high);
    let found = laws::exact(navigation::offered_zoom(product));
    let least = laws::exact(low);
    assert(found == geometry::held(p, least, 32 * w));
    let (zf, pw, ww) = (z * f, p * w, w * w);
    assert(zf > 0) by (nonlinear_arith)
        requires
            zf == z * f,
            z > 0,
            f > 0,
    ;
    assert(ww >= 0x1000_0000_0000_0000 * w && 32 * w * w == 32 * ww) by (nonlinear_arith)
        requires
            ww == w * w,
            w >= 0x1000_0000_0000_0000,
    ;
    assert(p < least ==> pw <= least * w) by (nonlinear_arith)
        requires
            pw == p * w,
            w > 0,
    ;
    assert(p > 32 * w ==> pw >= 32 * ww) by (nonlinear_arith)
        requires
            pw == p * w,
            ww == w * w,
            w > 0,
    ;
    assert(p >= least ==> pw >= least * w) by (nonlinear_arith)
        requires
            pw == p * w,
            w > 0,
    ;
    assert(p <= 32 * w ==> pw <= 32 * ww) by (nonlinear_arith)
        requires
            pw == p * w,
            ww == w * w,
            w > 0,
    ;
    assert((32 * w) * w == 32 * ww) by (nonlinear_arith)
        requires
            ww == w * w,
    ;
    assert(found * w == geometry::held(pw, least * w, 32 * ww));
    assert(least * w <= ww) by (nonlinear_arith)
        requires
            least <= w,
            ww == w * w,
            w > 0,
    ;
    assert(0x1_0000 * bounds::absolute(found * w - geometry::held(zf, least * w, 32 * ww)) <= ww);
    lemma_same_zoom(before, factor);
}

/// A factor of one or more leaves no smaller product, and one of one or less
/// no larger.
proof fn lemma_same_zoom(before: Scalar, factor: Scalar)
    requires
        before.finite(),
        factor.finite(),
        0 < laws::exact(before) <= 32 * turn_laws::whole(),
        0 < laws::exact(factor) <= 64 * turn_laws::whole(),
    ensures
        laws::exact(factor) >= turn_laws::whole() ==> laws::exact(before.product(factor))
            >= laws::exact(before),
        laws::exact(factor) <= turn_laws::whole() ==> laws::exact(before.product(factor))
            <= laws::exact(before),
{
    let product = before.product(factor);
    let w = pow2(149);
    lemma_zooms();
    nearness_laws::lemma_signed(before);
    nearness_laws::lemma_signed(factor);
    nearness_laws::a_product_is_near(before, factor, 5, 6);
    nearness_laws::lemma_signed(product);
    reveal(Scalar::product);
    let (x, y) = (bounds::units(before), bounds::units(factor));
    let code = before.value().code as nat;
    rounding::lemma_held(code, 24);
    rounding::lemma_nearest(x, 1, 24, code);
    let num = x * y;
    if y >= w {
        assert(x * w <= num * 1) by (nonlinear_arith)
            requires
                num == x * y,
                y >= w,
        ;
        rounding::rounding_is_monotone(x, 1, num, w, 24);
    }
    if y <= w {
        assert(num * 1 <= x * w) by (nonlinear_arith)
            requires
                num == x * y,
                y <= w,
        ;
        rounding::rounding_is_monotone(num, w, x, 1, 24);
    }
    laws::order_is_exact(before, product);
    laws::order_is_exact(product, before);
}

/// Whether a centre has gone against the way that the photo was dragged by:
/// by the way in pixels over the pixels of the photo at its zoom, as far as the
/// photo goes.
pub open spec fn is_dragged_centre(
    centre: Scalar,
    before: Scalar,
    delta: Scalar,
    scale_factor: Scalar,
    pixels: int,
    zoom: Scalar,
) -> bool {
    let one = turn_laws::whole();
    let shown = pixels * laws::exact(zoom);
    let way = laws::exact(delta) * laws::exact(scale_factor);
    let gone = (laws::exact(before) - laws::exact(centre)) * shown;
    let slack = 4 * bounds::absolute(way) + shown * one;
    &&& centre.finite()
    &&& 0 <= laws::exact(centre) <= one
    &&& laws::exact(centre) > 0 ==> 0x4_0000 * (way - gone) <= slack
    &&& laws::exact(centre) < one ==> 0x4_0000 * (gone - way) <= slack
    &&& laws::exact(delta) >= 0 ==> laws::exact(centre) <= laws::exact(before)
    &&& laws::exact(delta) <= 0 ==> laws::exact(centre) >= laws::exact(before)
}

/// Errors of the quotient by which a centre goes.
proof fn lemma_way(pz: int, n: int, q: int, d: int, ds: int, w: int)
    requires
        w >= 0x1000_0000_0000_0000,
        128 * pz >= w,
        0x10_0000 * bounds::absolute(n - pz) <= pz,
        0x40_0000 * bounds::absolute(d * w - ds) <= bounds::absolute(ds) + 0x80_0000 * w,
        0x40_0000 * bounds::absolute(q * n - d * w) <= bounds::absolute(d * w) + 0x80_0000 * n,
    ensures
        0x8_0000 * bounds::absolute(q * pz - ds) <= 4 * bounds::absolute(ds) + pz * w,
        bounds::absolute(q * pz) <= 4 * bounds::absolute(ds) + pz * w,
{
    let (dw, qn, e) = (d * w, q * n, n - pz);
    let size = bounds::absolute(ds);
    assert(pz * w >= 0x1000_0000_0000_0000 * pz) by (nonlinear_arith)
        requires
            w >= 0x1000_0000_0000_0000,
            pz >= 0,
    ;
    assert(bounds::absolute(dw) <= 2 * size + 4 * w);
    assert(bounds::absolute(qn) <= 3 * size + 4 * n + 12 * w);
    let qe = q * e;
    assert(q * pz == qn - qe) by (nonlinear_arith)
        requires
            qn == q * n,
            qe == q * e,
            e == n - pz,
    ;
    assert(0x10_0000 * bounds::absolute(qe) <= 2 * bounds::absolute(qn)) by (nonlinear_arith)
        requires
            qe == q * e,
            qn == q * n,
            0x10_0000 * bounds::absolute(e) <= 2 * n,
            n >= 0,
    {
        let a = bounds::absolute(q);
        assert(bounds::absolute(qe) == a * bounds::absolute(e));
        assert(bounds::absolute(qn) == a * n);
        assert(a * (0x10_0000 * bounds::absolute(e)) <= a * (2 * n));
    }
}

/// How far the pixels at a zoom are off.
proof fn lemma_shown(i: int, n: int, pixels: int, z: int, w: int)
    requires
        w >= 0x1000_0000_0000_0000,
        1 <= pixels <= 0x1_0000_0000,
        128 * z >= w,
        z <= 32 * w,
        i >= 0,
        0x80_0000 * bounds::absolute(i - pixels * w) <= pixels * w + 0x80_0000,
        0x40_0000 * bounds::absolute(n * w - i * z) <= bounds::absolute(i * z) + 0x80_0000 * w,
    ensures
        0x10_0000 * bounds::absolute(n - pixels * z) <= pixels * z,
        128 * (pixels * z) >= w,
{
    let (pw, iz, nw, pz) = (pixels * w, i * z, n * w, pixels * z);
    let e = i - pw;
    assert(pz >= z && pw >= w) by (nonlinear_arith)
        requires
            pz == pixels * z,
            pw == pixels * w,
            pixels >= 1,
            z >= 0,
            w >= 0,
    ;
    let pzw = pz * w;
    assert(iz == pzw + e * z) by (nonlinear_arith)
        requires
            iz == i * z,
            e == i - pw,
            pw == pixels * w,
            pzw == pz * w,
            pz == pixels * z,
    ;
    assert(0x80_0000 * bounds::absolute(e * z) <= 2 * pzw) by (nonlinear_arith)
        requires
            0x80_0000 * bounds::absolute(e) <= 2 * pw,
            pw == pixels * w,
            pzw == pz * w,
            pz == pixels * z,
            z >= 0,
    {
        assert(bounds::absolute(e * z) == bounds::absolute(e) * z);
        assert((0x80_0000 * bounds::absolute(e)) * z <= (2 * pw) * z);
        assert((2 * pw) * z == 2 * pzw);
    }
    assert(pzw >= 0x1000_0000_0000 * (128 * w)) by (nonlinear_arith)
        requires
            pzw == pz * w,
            128 * pz >= w,
            w >= 0x1000_0000_0000_0000,
    ;
    let d = n - pz;
    assert(nw - pzw == d * w) by (nonlinear_arith)
        requires
            nw == n * w,
            pzw == pz * w,
            d == n - pz,
    ;
    assert(0x10_0000 * bounds::absolute(d * w) <= pzw);
    assert(0x10_0000 * bounds::absolute(d) <= pz) by (nonlinear_arith)
        requires
            0x10_0000 * bounds::absolute(d * w) <= pzw,
            pzw == pz * w,
            w > 0,
    {
        assert(bounds::absolute(d * w) == bounds::absolute(d) * w);
    }
}

/// How far the centre goes, in pixels.
proof fn lemma_gone(c: int, s: int, q: int, pz: int, ds: int, w: int)
    requires
        w >= 0x1000_0000_0000_0000,
        pz > 0,
        0 <= c <= w,
        0x80_0000 * bounds::absolute(s - (c - q)) <= bounds::absolute(c - q) + 0x80_0000,
        0x8_0000 * bounds::absolute(q * pz - ds) <= 4 * bounds::absolute(ds) + pz * w,
        bounds::absolute(q * pz) <= 4 * bounds::absolute(ds) + pz * w,
    ensures
        0x4_0000 * bounds::absolute((c - s) * pz - ds) <= 4 * bounds::absolute(ds) + pz * w,
{
    let e = s - (c - q);
    let (qp, ep, pw) = (q * pz, e * pz, pz * w);
    assert((c - s) * pz == qp - ep) by (nonlinear_arith)
        requires
            e == s - (c - q),
            qp == q * pz,
            ep == e * pz,
    ;
    let aq = bounds::absolute(q);
    assert(bounds::absolute(qp) == aq * pz) by (nonlinear_arith)
        requires
            qp == q * pz,
            aq == bounds::absolute(q),
            pz > 0,
    ;
    assert(0x80_0000 * bounds::absolute(ep) <= pw + aq * pz + 0x80_0000 * pz) by (nonlinear_arith)
        requires
            ep == e * pz,
            pw == pz * w,
            0x80_0000 * bounds::absolute(e) <= w + aq + 0x80_0000,
            pz > 0,
    {
        assert(bounds::absolute(ep) == bounds::absolute(e) * pz);
        assert((0x80_0000 * bounds::absolute(e)) * pz <= (w + aq + 0x80_0000) * pz);
        assert((w + aq + 0x80_0000) * pz == w * pz + aq * pz + 0x80_0000 * pz);
    }
    assert(pw >= 0x1000_0000_0000_0000 * pz) by (nonlinear_arith)
        requires
            pw == pz * w,
            w >= 0x1000_0000_0000_0000,
            pz > 0,
    ;
}

/// The difference by which a centre goes has the sign of the way.
proof fn lemma_direction(before: Scalar, delta: Scalar, quotient: Scalar)
    requires
        before.finite(),
        quotient.finite(),
        0 <= laws::exact(before) <= turn_laws::whole(),
        laws::exact(delta) >= 0 ==> laws::exact(quotient) >= 0,
        laws::exact(delta) <= 0 ==> laws::exact(quotient) <= 0,
    ensures
        ({
            let centre = before.difference(quotient).clamped(
                Scalar { bits: constants::ZERO },
                Scalar { bits: constants::ONE },
            );
            &&& laws::exact(delta) >= 0 ==> centre.at_most(before)
            &&& laws::exact(delta) <= 0 ==> before.at_most(centre)
        }),
{
    let zero = Scalar { bits: constants::ZERO };
    let one = Scalar { bits: constants::ONE };
    turn_laws::lemma_sizes();
    laws::negation_is_exact(quotient);
    laws::sum_is_nearest(before, quotient.negated());
    laws::nearest_to_itself(before);
    laws::order_is_exact(zero, before);
    laws::order_is_exact(before, one);
    let exact = laws::exact(before) - laws::exact(quotient);
    if laws::exact(delta) >= 0 {
        laws::nearest_is_monotone(exact, laws::exact(before));
    }
    if laws::exact(delta) <= 0 {
        laws::nearest_is_monotone(laws::exact(before), exact);
    }
}

/// Dragging the photo takes it along: its centre goes the other way.
#[verifier::rlimit(40)]
pub proof fn dragging_moves_the_centre(
    before: Scalar,
    delta: Scalar,
    scale_factor: Scalar,
    pixels: int,
    zoom: Scalar,
)
    requires
        before.finite(),
        delta.finite(),
        scale_factor.finite(),
        zoom.finite(),
        0 <= laws::exact(before) <= turn_laws::whole(),
        bounds::absolute(laws::exact(delta)) <= bounds::power(20),
        0 <= laws::exact(scale_factor) <= bounds::power(6),
        1 <= pixels <= 0x1_0000_0000,
        laws::exact(Scalar { bits: constants::HUNDREDTH }) <= laws::exact(zoom) <= bounds::power(5),
    ensures
        is_dragged_centre(
            navigation::dragged_centre(before, delta, scale_factor, pixels, zoom),
            before,
            delta,
            scale_factor,
            pixels,
            zoom,
        ),
{
    let w = turn_laws::whole();
    let count = Scalar::integer(pixels);
    let way = delta.product(scale_factor);
    let shown = count.product(zoom);
    lemma_zooms();
    turn_laws::lemma_sizes();
    nearness_laws::lemma_signed(delta);
    nearness_laws::lemma_signed(scale_factor);
    nearness_laws::lemma_signed(zoom);
    integer_laws::an_integer_is_near(pixels);
    nearness_laws::lemma_signed(count);
    nearness_laws::a_product_is_near(delta, scale_factor, 20, 6);
    nearness_laws::a_product_is_near(count, zoom, 32, 5);
    nearness_laws::lemma_signed(way);
    nearness_laws::lemma_signed(shown);
    let (z, f) = (laws::exact(zoom), laws::exact(scale_factor));
    let (d, n) = (laws::exact(way), laws::exact(shown));
    let ds = laws::exact(delta) * f;
    let pz = pixels * z;
    lemma_shown(laws::exact(count), n, pixels, z, w);
    assert(bounds::sizeable(shown, -8)) by {
        lemma_pow2_unfold(142);
    }
    nearness_laws::a_quotient_is_near(way, shown, 26, -8);
    let quotient = way.quotient(shown);
    let q = laws::exact(quotient);
    assert(bounds::absolute(d * w) >= 0);
    lemma_way(pz, n, q, d, ds, w);
    // The centre.
    lemma_pow2_strictly_increases(149, 183);
    assert(bounds::bounded(before, 34));
    laws::negation_is_exact(quotient);
    bounds::a_sum_is_close(before, quotient.negated(), 34);
    bounds::a_sum_is_bounded(before, quotient.negated(), 34);
    let moved = before.difference(quotient);
    let (c, s) = (laws::exact(before), laws::exact(moved));
    lemma_gone(c, s, q, pz, ds, w);
    let zero = Scalar { bits: constants::ZERO };
    let one = Scalar { bits: constants::ONE };
    turn_laws::lemma_clamped(moved, zero, one);
    let centre = moved.clamped(zero, one);
    let r = laws::exact(centre);
    assert(r <= s ==> (c - r) * pz >= (c - s) * pz) by (nonlinear_arith)
        requires
            pz > 0,
    ;
    assert(r >= s ==> (c - r) * pz <= (c - s) * pz) by (nonlinear_arith)
        requires
            pz > 0,
    ;
    // The direction.
    nearness_laws::lemma_signed(quotient);
    if bounds::nought(delta) || bounds::nought(scale_factor) {
        bounds::a_product_with_zero_is_zero(delta, scale_factor);
        bounds::zero_divided_is_zero(way, shown);
    } else {
        bounds::a_product_is_close(delta, scale_factor, 20, 6);
    }
    bounds::a_product_is_close(count, zoom, 32, 5);
    lemma_direction(before, delta, quotient);
    laws::order_is_exact(centre, before);
    laws::order_is_exact(before, centre);
}

/// Zooming a photo leaves its middle where it is, and multiplies the zoom that
/// it is shown at.
pub proof fn zooming_a_session_multiplies_its_zoom(session: SessionView, factor: Scalar)
    requires
        session.document is Some,
        session.document->0.view.zoom.finite(),
        session.effective_zoom.finite(),
        factor.finite(),
        0 < laws::exact(factor) <= 64 * turn_laws::whole(),
        laws::exact(session.document->0.view.zoom) <= 32 * turn_laws::whole(),
        0 < laws::exact(session.effective_zoom) <= 32 * turn_laws::whole(),
    ensures
        ({
            let view = session.document->0.view;
            let zoomed = session.zoomed(factor);
            let before = if laws::exact(view.zoom) > 0 {
                view.zoom
            } else {
                session.effective_zoom
            };
            &&& is_zoomed(zoomed.zoom, before, factor)
            &&& zoomed.center_x == view.center_x
            &&& zoomed.center_y == view.center_y
        }),
{
    let zero = Scalar { bits: constants::ZERO };
    turn_laws::lemma_sizes();
    laws::order_is_exact(session.document->0.view.zoom, zero);
    zooming_multiplies_the_zoom(session.current_zoom(), factor);
}

/// Dragging a photo that is not fitted moves its centre against the way, and
/// keeps its zoom.
pub proof fn dragging_a_session_moves_its_centre(
    session: SessionView,
    delta_x: Scalar,
    delta_y: Scalar,
    scale_factor: Scalar,
    angle: Angle,
)
    requires
        session.can_pan(),
        ({
            let view = session.document->0.view;
            let size = session.document->0.output(
                session.image_info->0.width,
                session.image_info->0.height,
                angle,
            );
            &&& view.zoom.finite() && view.center_x.finite() && view.center_y.finite()
            &&& laws::exact(view.zoom) <= bounds::power(5)
            &&& 0 <= laws::exact(view.center_x) <= turn_laws::whole()
            &&& 0 <= laws::exact(view.center_y) <= turn_laws::whole()
            &&& 1 <= size.0 <= 0x1_0000_0000
            &&& 1 <= size.1 <= 0x1_0000_0000
        }),
        delta_x.finite(),
        delta_y.finite(),
        scale_factor.finite(),
        bounds::absolute(laws::exact(delta_x)) <= bounds::power(20),
        bounds::absolute(laws::exact(delta_y)) <= bounds::power(20),
        0 <= laws::exact(scale_factor) <= bounds::power(6),
    ensures
        ({
            let view = session.document->0.view;
            let panned = session.panned(delta_x, delta_y, scale_factor, angle);
            let size = session.document->0.output(
                session.image_info->0.width,
                session.image_info->0.height,
                angle,
            );
            let zoom = view.zoom.greater(Scalar { bits: 0x3c23_d70a });
            &&& panned.zoom == view.zoom
            &&& is_dragged_centre(
                panned.center_x,
                view.center_x,
                delta_x,
                scale_factor,
                size.0,
                zoom,
            )
            &&& is_dragged_centre(
                panned.center_y,
                view.center_y,
                delta_y,
                scale_factor,
                size.1,
                zoom,
            )
        }),
{
    let view = session.document->0.view;
    let least = Scalar { bits: constants::HUNDREDTH };
    let zoom = view.zoom.greater(least);
    let size = session.document->0.output(
        session.image_info->0.width,
        session.image_info->0.height,
        angle,
    );
    lemma_zooms();
    laws::order_is_exact(view.zoom, least);
    dragging_moves_the_centre(view.center_x, delta_x, scale_factor, size.0, zoom);
    dragging_moves_the_centre(view.center_y, delta_y, scale_factor, size.1, zoom);
}

} // verus!
