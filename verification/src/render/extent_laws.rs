//! How many pixels crops and frames come to.

use vstd::arithmetic::power2::*;
use vstd::prelude::*;

use crate::document::curve_laws;
use crate::document::project::DocumentView;
use crate::document::turn_laws;
use crate::document::values::CropRect;
use crate::number::binary::Format;
use crate::number::bounds;
use crate::number::constants;
use crate::number::convert;
use crate::number::integer_laws;
use crate::number::laws;
use crate::number::rounding;
use crate::number::scalar::Scalar;
use crate::render::contracts::{ImageInfo, Viewport};
use crate::render::crop_laws;
use crate::render::geometry;
use crate::render::geometry::{Angle, CanvasPlacement};
use crate::render::straighten_laws;

verus! {

/// Whether so many pixels are a share of a side: the nearest integer, and one
/// at least, but for one part in 2^20 of the side.
pub open spec fn is_share(pixels: int, whole: int, fraction: Scalar) -> bool {
    let one = turn_laws::whole();
    let share = whole * laws::exact(fraction);
    let slack = whole * one / 0x10_0000;
    &&& pixels >= 1
    &&& 2 * (share - pixels * one) <= one + 2 * slack
    &&& pixels == 1 || 2 * (pixels * one - share) <= one + 2 * slack
}

/// Whether so many pixels from a first one on are the part of a side between
/// two places, rounded outwards, but for one part in 2^19 of the side.
pub open spec fn is_part(
    first: int,
    pixels: int,
    whole: int,
    start: Scalar,
    extent: Scalar,
) -> bool {
    let one = turn_laws::whole();
    let (begin, end) = (
        whole * laws::exact(start),
        whole * (laws::exact(start) + laws::exact(extent)),
    );
    let slack = whole * one / 0x8_0000;
    &&& 0 <= first
    &&& pixels >= 1
    &&& first + pixels <= whole
    &&& first * one <= begin + slack
    &&& begin < (first + 1) * one + slack
    &&& first + pixels == whole || end <= (first + pixels) * one + slack
    &&& pixels == 1 || (first + pixels - 1) * one < end + slack
}

/// Whether a border is a share of the shorter side in hundredths: the nearest
/// integer, and one at least, but for one part in 2^20 of what the largest
/// share is.
pub open spec fn is_border(border: int, shorter: int, width_pct: Scalar) -> bool {
    let one = turn_laws::whole();
    let share = shorter * laws::exact(width_pct);
    let slack = 64 * (shorter * one) / 0x10_0000;
    &&& border >= 1
    &&& share - 100 * (border * one) <= 50 * one + slack
    &&& border == 1 || 100 * (border * one) - share <= 50 * one + slack
}

/// A product of the number of pixels of a side with a fraction.
proof fn lemma_product(i: int, f: int, m: int, whole: int, w: int)
    requires
        w >= 0x1000_0000_0000_0000,
        1 <= whole <= 0x1_0000_0000,
        0 <= f <= 64 * w,
        i >= 0,
        m >= 0,
        0x80_0000 * bounds::absolute(i - whole * w) <= whole * w + 0x80_0000,
        m * w * 0x80_0000 <= i * f * 0x80_0001 + w * 0x80_0000,
        i * f * 0x80_0000 <= m * w * 0x80_0001 + w * 0x80_0000,
    ensures
        0x20_0000 * bounds::absolute(m - whole * f) <= 64 * (whole * w),
        f <= 2 * w ==> 0x20_0000 * bounds::absolute(m - whole * f) <= 2 * (whole * w),
        whole * w >= w,
{
    let (ww, mw, p) = (whole * w, m * w, i * f);
    let goal = whole * f;
    assert(ww >= w) by (nonlinear_arith)
        requires
            ww == whole * w,
            whole >= 1,
            w > 0,
    ;
    let e = i - ww;
    assert(p == goal * w + e * f) by (nonlinear_arith)
        requires
            p == i * f,
            e == i - ww,
            ww == whole * w,
            goal == whole * f,
    ;
    lemma_scaled_error(e, f, ww, w);
    lemma_scaled_goal(goal, f, whole, w);
    assert(m * w * 0x80_0000 == 0x80_0000 * mw && m * w * 0x80_0001 == 0x80_0001 * mw
        && i * f * 0x80_0000 == 0x80_0000 * p && i * f * 0x80_0001 == 0x80_0001 * p)
        by (nonlinear_arith)
        requires
            mw == m * w,
            p == i * f,
    ;
    let d = m - goal;
    assert(mw - goal * w == d * w) by (nonlinear_arith)
        requires
            d == m - goal,
            mw == m * w,
    ;
    let ef = e * f;
    let gw = goal * w;
    let www = ww * w;
    assert(www >= 0x1000_0000_0000_0000 * w) by (nonlinear_arith)
        requires
            www == ww * w,
            ww >= w,
            w >= 0x1000_0000_0000_0000,
    ;
    assert(0x80_0000 * bounds::absolute(d * w) <= 256 * www);
    assert(0x80_0000 * bounds::absolute(d) <= 256 * ww) by (nonlinear_arith)
        requires
            0x80_0000 * bounds::absolute(d * w) <= 256 * www,
            www == ww * w,
            w > 0,
    {
        assert(bounds::absolute(d * w) == bounds::absolute(d) * w);
    }
    if f <= 2 * w {
        assert(0x80_0000 * bounds::absolute(d * w) <= 8 * www);
        assert(0x80_0000 * bounds::absolute(d) <= 8 * ww) by (nonlinear_arith)
            requires
                0x80_0000 * bounds::absolute(d * w) <= 8 * www,
                www == ww * w,
                w > 0,
        {
            assert(bounds::absolute(d * w) == bounds::absolute(d) * w);
        }
    }
}

proof fn lemma_scaled_error(e: int, f: int, ww: int, w: int)
    requires
        w >= 0x1000_0000_0000_0000,
        ww >= w,
        0 <= f <= 64 * w,
        0x80_0000 * bounds::absolute(e) <= ww + 0x80_0000,
    ensures
        0x80_0000 * bounds::absolute(e * f) <= 65 * (ww * w),
        f <= 2 * w ==> 0x80_0000 * bounds::absolute(e * f) <= 3 * (ww * w),
{
    let (ae, af) = (bounds::absolute(e), bounds::absolute(e * f));
    assert(af == ae * f) by (nonlinear_arith)
        requires
            af == bounds::absolute(e * f),
            ae == bounds::absolute(e),
            f >= 0,
    ;
    assert(0x80_0000 * af <= (ww + 0x80_0000) * (64 * w)) by (nonlinear_arith)
        requires
            af == ae * f,
            0x80_0000 * ae <= ww + 0x80_0000,
            0 <= f <= 64 * w,
            ae >= 0,
            ww >= 0,
    {
        assert(0x80_0000 * (ae * f) == (0x80_0000 * ae) * f);
        assert((0x80_0000 * ae) * f <= (ww + 0x80_0000) * f);
        assert((ww + 0x80_0000) * f <= (ww + 0x80_0000) * (64 * w));
    }
    assert((ww + 0x80_0000) * (64 * w) == 64 * (ww * w) + 64 * (0x80_0000 * w)) by (nonlinear_arith);
    assert(64 * (0x80_0000 * w) <= ww * w) by (nonlinear_arith)
        requires
            ww >= w,
            w >= 0x1000_0000_0000_0000,
    ;
    if f <= 2 * w {
        assert(0x80_0000 * af <= (ww + 0x80_0000) * (2 * w)) by (nonlinear_arith)
            requires
                af == ae * f,
                0x80_0000 * ae <= ww + 0x80_0000,
                0 <= f <= 2 * w,
                ae >= 0,
                ww >= 0,
        {
            assert(0x80_0000 * (ae * f) == (0x80_0000 * ae) * f);
            assert((0x80_0000 * ae) * f <= (ww + 0x80_0000) * f);
            assert((ww + 0x80_0000) * f <= (ww + 0x80_0000) * (2 * w));
        }
        assert((ww + 0x80_0000) * (2 * w) == 2 * (ww * w) + 2 * (0x80_0000 * w))
            by (nonlinear_arith);
    }
}

proof fn lemma_scaled_goal(goal: int, f: int, whole: int, w: int)
    requires
        w > 0,
        whole >= 1,
        goal == whole * f,
        0 <= f <= 64 * w,
    ensures
        0 <= goal * w <= 64 * ((whole * w) * w),
        f <= 2 * w ==> goal * w <= 2 * ((whole * w) * w),
{
    let ww = whole * w;
    assert(0 <= goal <= 64 * ww) by (nonlinear_arith)
        requires
            goal == whole * f,
            ww == whole * w,
            0 <= f <= 64 * w,
            whole >= 1,
    ;
    assert(0 <= goal * w <= 64 * (ww * w)) by (nonlinear_arith)
        requires
            0 <= goal <= 64 * ww,
            w > 0,
    ;
    if f <= 2 * w {
        assert(goal <= 2 * ww) by (nonlinear_arith)
            requires
                goal == whole * f,
                ww == whole * w,
                f <= 2 * w,
                whole >= 1,
        ;
        assert(goal * w <= 2 * (ww * w)) by (nonlinear_arith)
            requires
                goal <= 2 * ww,
                w > 0,
        ;
    }
}

/// A number of at least nothing is not negative, or it is zero.
proof fn lemma_not_negative(a: Scalar)
    requires
        a.finite(),
        laws::exact(a) >= 0,
    ensures
        bounds::units(a) == laws::exact(a),
        a.value().negative ==> bounds::nought(a),
{
    rounding::lemma_zero_magnitude(24);
    if a.value().negative && a.value().code > 0 {
        rounding::lemma_increasing(0, a.value().code as nat, 24);
    }
}

/// The product of the number of pixels of a side with a fraction is near to
/// the exact one.
pub proof fn lemma_share(whole: int, fraction: Scalar)
    requires
        1 <= whole <= 0x1_0000_0000,
        fraction.finite(),
        0 <= laws::exact(fraction) <= 64 * turn_laws::whole(),
    ensures
        ({
            let pixels = Scalar::integer(whole);
            let goal = whole * laws::exact(fraction);
            let side = whole * turn_laws::whole();
            let found = laws::exact(pixels.product(fraction));
            &&& pixels.product(fraction).finite()
            &&& fraction.product(pixels).finite()
            &&& laws::exact(fraction.product(pixels)) == found
            &&& found >= 0
            &&& bounds::bounded(pixels.product(fraction), 38)
            &&& 0x20_0000 * bounds::absolute(found - goal) <= 64 * side
            &&& laws::exact(fraction) <= 2 * turn_laws::whole() ==> 0x20_0000 * bounds::absolute(
                found - goal,
            ) <= 2 * side
            &&& side >= turn_laws::whole()
        }),
{
    let pixels = Scalar::integer(whole);
    turn_laws::lemma_sizes();
    curve_laws::lemma_constants();
    lemma2_to64();
    lemma_pow2_adds(149, 6);
    integer_laws::an_integer_is_near(whole);
    lemma_not_negative(fraction);
    lemma_not_negative(pixels);
    assert(bounds::bounded(fraction, 6));
    bounds::a_product_is_close(pixels, fraction, 32, 6);
    bounds::a_product_is_bounded(pixels, fraction, 32, 6);
    let (i, f) = (laws::exact(pixels), laws::exact(fraction));
    let product = pixels.product(fraction);
    reveal(Scalar::product);
    assert(i * f == f * i) by (nonlinear_arith);
    assert(fraction.product(pixels) == product);
    if fraction.value().negative {
        bounds::a_product_with_zero_is_zero(pixels, fraction);
        rounding::lemma_zero_magnitude(24);
    }
    lemma_product(i, f, bounds::units(product) as int, whole, turn_laws::whole());
}

/// A cropped side has the nearest number of pixels to its share, and one at
/// least.
pub proof fn a_cropped_side_is_its_share(whole: int, fraction: Scalar)
    requires
        1 <= whole <= i32::MAX,
        fraction.finite(),
        0 <= 2 * laws::exact(fraction) <= 3 * turn_laws::whole(),
    ensures
        is_share(geometry::cropped_extent(whole, fraction), whole, fraction),
{
    let product = Scalar::integer(whole).product(fraction);
    let w = turn_laws::whole();
    curve_laws::lemma_constants();
    lemma_share(whole, fraction);
    integer_laws::integers_round_a_small_number(product);
    let n = convert::nearest_integer(Format::Single, product.value());
    let m = laws::exact(product);
    let (side, goal) = (whole * w, whole * laws::exact(fraction));
    assert(2 * goal <= 3 * side && side <= 0x7fff_ffff * w) by (nonlinear_arith)
        requires
            side == whole * w,
            goal == whole * laws::exact(fraction),
            2 * laws::exact(fraction) <= 3 * w,
            1 <= whole <= 0x7fff_ffff,
            w > 0,
    ;
    assert(n >= 0) by {
        assert(n < 0 ==> n * w <= -w) by (nonlinear_arith)
            requires
                w > 0,
        ;
    }
    assert(1 * w == w && 0 * w == 0) by (nonlinear_arith);
    let most = u32::MAX as int;
    if n > most {
        assert(n * w >= 0x1_0000_0000 * w) by (nonlinear_arith)
            requires
                n >= 0x1_0000_0000,
                w > 0,
        ;
    }
}

/// The extents of a crop that may be applied, in units.
proof fn lemma_crop(start: Scalar, extent: Scalar)
    requires
        start.finite(),
        extent.finite(),
        (Scalar { bits: constants::ZERO }).at_most(start),
        (Scalar { bits: constants::HUNDREDTH }).at_most(extent),
        start.sum(extent).at_most(
            (Scalar { bits: constants::ONE }).sum(Scalar { bits: constants::TINY }),
        ),
    ensures
        0 <= laws::exact(start) <= 2 * turn_laws::whole(),
        0 < 2 * laws::exact(extent) <= 3 * turn_laws::whole(),
        start.sum(extent).finite(),
        0 <= laws::exact(start.sum(extent)) <= 2 * turn_laws::whole(),
        0x80_0000 * bounds::absolute(
            laws::exact(start.sum(extent)) - (laws::exact(start) + laws::exact(extent)),
        ) <= 4 * turn_laws::whole() + 0x80_0000,
{
    let zero = Scalar { bits: constants::ZERO };
    let one = Scalar { bits: constants::ONE };
    let most = Scalar { bits: 0x3f90_0000 };
    let tiny = Scalar { bits: constants::TINY };
    let least = Scalar { bits: constants::HUNDREDTH };
    let sum = start.sum(extent);
    turn_laws::lemma_sizes();
    curve_laws::lemma_constants();
    laws::order_is_exact(zero, start);
    laws::order_is_exact(least, extent);
    laws::order_is_exact(zero, tiny);
    bounds::a_sum_stays_between(one, tiny, zero, most);
    assert(sum.at_most(most));
    laws::sum_is_nearest(start, extent);
    laws::nearest_is_monotone(laws::exact(start), laws::exact(start) + laws::exact(extent));
    laws::nearest_is_monotone(laws::exact(extent), laws::exact(start) + laws::exact(extent));
    laws::nearest_to_itself(start);
    laws::nearest_to_itself(extent);
    laws::order_is_exact(start, most);
    laws::order_is_exact(extent, most);
    laws::order_is_exact(sum, most);
    laws::order_is_exact(zero, sum);
    assert(bounds::bounded(start, 2) && bounds::bounded(extent, 2));
    bounds::a_sum_is_close(start, extent, 2);
}

/// The pixels of one side of a crop.
proof fn lemma_part(whole: u32, start: Scalar, extent: Scalar)
    requires
        0 < whole <= i32::MAX,
        start.finite(),
        extent.finite(),
        (Scalar { bits: constants::ZERO }).at_most(start),
        (Scalar { bits: constants::HUNDREDTH }).at_most(extent),
        start.sum(extent).at_most(
            (Scalar { bits: constants::ONE }).sum(Scalar { bits: constants::TINY }),
        ),
        0 <= geometry::crop_edges(whole, start, extent).0 < whole,
    ensures
        ({
            let (first, last) = geometry::crop_edges(whole, start, extent);
            is_part(
                first,
                geometry::held(last, first + 1, whole as int) - first,
                whole as int,
                start,
                extent,
            )
        }),
{
    let n = whole as int;
    let w = turn_laws::whole();
    let pixels = Scalar::integer(n);
    let sum = start.sum(extent);
    turn_laws::lemma_sizes();
    curve_laws::lemma_constants();
    lemma_crop(start, extent);
    lemma_share(n, start);
    lemma_share(n, sum);
    let (at, to) = (start.product(pixels), sum.product(pixels));
    integer_laws::integers_round_a_small_number(at);
    integer_laws::integers_round_a_small_number(to);
    let (m1, m2) = (laws::exact(at), laws::exact(to));
    let side = n * w;
    let slack = side / 0x8_0000;
    let (begin, end) = (
        n * laws::exact(start),
        n * (laws::exact(start) + laws::exact(extent)),
    );
    let total = laws::exact(start) + laws::exact(extent);
    let e = laws::exact(sum) - total;
    assert(n * laws::exact(sum) - end == n * e) by (nonlinear_arith)
        requires
            end == n * total,
            e == laws::exact(sum) - total,
    ;
    assert(0x80_0000 * bounds::absolute(n * e) <= 4 * side + n * 0x80_0000) by (nonlinear_arith)
        requires
            0x80_0000 * bounds::absolute(e) <= 4 * w + 0x80_0000,
            side == n * w,
            n >= 1,
    {
        assert(bounds::absolute(n * e) == n * bounds::absolute(e));
        assert(n * (0x80_0000 * bounds::absolute(e)) <= n * (4 * w + 0x80_0000));
    }
    assert(0x20_0000 * bounds::absolute(m2 - end) <= 4 * side);
    let first = convert::floor_integer(Format::Single, at.value());
    let last = convert::ceiling_integer(Format::Single, to.value());
    let (left, right) = geometry::crop_edges(whole, start, extent);
    assert(first >= 0) by {
        assert(first < 0 ==> (first + 1) * w <= 0) by (nonlinear_arith)
            requires
                w > 0,
        ;
    }
    assert(left == first);
    let held = geometry::held(right, left + 1, n);
    assert(held <= last ==> (held - 1) * w <= (last - 1) * w) by (nonlinear_arith)
        requires
            w > 0,
    ;
    assert(last <= held ==> last * w <= held * w) by (nonlinear_arith)
        requires
            w > 0,
    ;
    assert(last >= 0) by {
        assert(last < 0 ==> last * w <= -w) by (nonlinear_arith)
            requires
                w > 0,
        ;
    }
}

/// A crop cuts out the pixels that it covers, rounded outwards.
pub proof fn a_crop_cuts_out_what_it_covers(info: ImageInfo, crop: CropRect)
    requires
        crop.valid(),
        0 < info.width <= i32::MAX,
        0 < info.height <= i32::MAX,
    ensures
        ({
            let (left, top, width, height) = geometry::cropped_area(info, crop);
            &&& is_part(left, width, info.width as int, crop.x, crop.width)
            &&& is_part(top, height, info.height as int, crop.y, crop.height)
        }),
{
    crop_laws::a_valid_crop_begins_inside(info, crop);
    lemma_part(info.width, crop.x, crop.width);
    lemma_part(info.height, crop.y, crop.height);
}

/// The width of a border before it is rounded.
proof fn lemma_border_width(shorter: int, width_pct: Scalar)
    requires
        1 <= shorter <= u32::MAX,
        width_pct.finite(),
        0 <= laws::exact(width_pct) <= 50 * turn_laws::whole(),
    ensures
        ({
            let border = geometry::border_width(shorter, width_pct);
            let side = shorter * turn_laws::whole();
            &&& border.finite()
            &&& laws::exact(border) >= 0
            &&& 0x10_0000 * bounds::absolute(
                100 * laws::exact(border) - shorter * laws::exact(width_pct),
            ) <= 64 * side - 0x10_0000
            &&& laws::exact(border) <= side
        }),
{
    let hundred = Scalar { bits: constants::HUNDRED };
    let w = turn_laws::whole();
    turn_laws::lemma_sizes();
    curve_laws::lemma_constants();
    lemma2_to64();
    rounding::lemma_encode(132, 0xc8_0000, 24);
    lemma_pow2_adds(126, 6);
    lemma_pow2_adds(126, 23);
    assert(laws::exact(hundred) == 100 * w);
    lemma_share(shorter, width_pct);
    let product = Scalar::integer(shorter).product(width_pct);
    let m = laws::exact(product);
    lemma_not_negative(product);
    lemma_pow2_adds(149, 6);
    bounds::a_quotient_is_close(product, hundred, 38, 6);
    bounds::a_quotient_is_bounded(product, hundred, 38, 6);
    let border = product.quotient(hundred);
    let q = bounds::units(border) as int;
    let side = shorter * w;
    let goal = shorter * laws::exact(width_pct);
    assert(0 <= goal <= 50 * side) by (nonlinear_arith)
        requires
            goal == shorter * laws::exact(width_pct),
            side == shorter * w,
            0 <= laws::exact(width_pct) <= 50 * w,
            shorter >= 1,
    ;
    let mw = m * w;
    assert(0x80_0000 * (100 * q - m) <= m + 100 * 0x80_0000 && 0x80_0000 * (m - 100 * q) <= 100 * q
        + 100 * 0x80_0000) by (nonlinear_arith)
        requires
            q * (100 * w) * 0x80_0000 <= (m * w) * 0x80_0001 + (100 * w) * 0x80_0000,
            (m * w) * 0x80_0000 <= q * (100 * w) * 0x80_0001 + (100 * w) * 0x80_0000,
            w > 0,
    {
        assert(q * (100 * w) * 0x80_0000 == (q * 100 * 0x80_0000) * w);
        assert((m * w) * 0x80_0001 + (100 * w) * 0x80_0000 == (m * 0x80_0001 + 100 * 0x80_0000)
            * w);
        assert(q * (100 * w) * 0x80_0001 + (100 * w) * 0x80_0000 == (q * 100 * 0x80_0001 + 100
            * 0x80_0000) * w);
        assert((m * w) * 0x80_0000 == (m * 0x80_0000) * w);
    }
    assert(product.value().negative ==> q == 0) by {
        if product.value().negative {
            curve_laws::lemma_nought(hundred);
            bounds::zero_divided_is_zero(product, hundred);
            rounding::lemma_zero_magnitude(24);
        }
    }
    assert(laws::exact(border) == q);
}

/// The border of a frame is a share of the shorter side in hundredths, and one
/// pixel at least.
pub proof fn a_border_is_its_share(shorter: int, width_pct: Scalar, low: int, high: int)
    requires
        1 <= shorter <= high <= u32::MAX,
        low <= 0,
        width_pct.finite(),
        0 <= laws::exact(width_pct) <= 50 * turn_laws::whole(),
    ensures
        ({
            let border = geometry::max(
                geometry::border_width(shorter, width_pct).nearest_within(low, high),
                1,
            );
            is_border(border, shorter, width_pct)
        }),
{
    let border = geometry::border_width(shorter, width_pct);
    let w = turn_laws::whole();
    turn_laws::lemma_sizes();
    curve_laws::lemma_constants();
    lemma_border_width(shorter, width_pct);
    integer_laws::integers_round_a_small_number(border);
    let n = convert::nearest_integer(Format::Single, border.value());
    let side = shorter * w;
    assert(n < 0 ==> n * w <= -w) by (nonlinear_arith)
        requires
            w > 0,
    ;
    assert(n > shorter ==> n * w >= side + w) by (nonlinear_arith)
        requires
            w > 0,
            side == shorter * w,
    {
        if n > shorter {
            assert(n * w >= (shorter + 1) * w);
            assert((shorter + 1) * w == shorter * w + w);
        }
    }
    assert(1 * w == w && 0 * w == 0) by (nonlinear_arith);
}

/// Whether a photo with a frame, or without one, has a size: the crop of the
/// straightened photo, and a border on either side.
pub open spec fn is_exported_size(
    size: (int, int),
    straight: (int, int),
    crop: CropRect,
    border: int,
) -> bool {
    &&& is_share(size.0 - 2 * border, straight.0, crop.width)
    &&& is_share(size.1 - 2 * border, straight.1, crop.height)
}

/// An exported photo is as large as its crop, and where a frame is drawn, as
/// the crop and a border on each of the four sides.
pub proof fn an_exported_photo_has_its_size(
    document: DocumentView,
    width: u32,
    height: u32,
    angle: Angle,
)
    requires
        document.crop().valid(),
        document.border().0.finite(),
        0 <= laws::exact(document.border().0) <= 50 * turn_laws::whole(),
        ({
            let straight = document.geometry(width, height, angle);
            1 <= straight.0 <= i32::MAX && 1 <= straight.1 <= i32::MAX
        }),
    ensures
        ({
            let size = document.output(width, height, angle);
            let straight = document.geometry(width, height, angle);
            let pct = document.border().0;
            if laws::exact(pct) > turn_laws::step() {
                exists|border: int| #[trigger]
                    is_exported_size(size, straight, document.crop(), border) && is_border(
                        border,
                        if size.0 <= size.1 {
                            size.0 - 2 * border
                        } else {
                            size.1 - 2 * border
                        },
                        pct,
                    )
            } else {
                is_exported_size(size, straight, document.crop(), 0)
            }
        }),
{
    let straight = document.geometry(width, height, angle);
    let crop = document.crop();
    let pct = document.border().0;
    let size = document.output(width, height, angle);
    turn_laws::lemma_sizes();
    curve_laws::lemma_constants();
    lemma_crop(crop.x, crop.width);
    lemma_crop(crop.y, crop.height);
    a_cropped_side_is_its_share(straight.0, crop.width);
    a_cropped_side_is_its_share(straight.1, crop.height);
    laws::order_is_exact(Scalar { bits: constants::EPSILON }, pct);
    let cropped = (
        geometry::cropped_extent(straight.0, crop.width),
        geometry::cropped_extent(straight.1, crop.height),
    );
    if geometry::frame_is_drawn(pct) {
        let shorter = geometry::min(cropped.0, cropped.1);
        lemma_share_is_limited(cropped.0, straight.0, crop.width);
        lemma_share_is_limited(cropped.1, straight.1, crop.height);
        a_border_is_its_share(shorter, pct, 0, u32::MAX as int);
        let border = geometry::max(
            geometry::border_width(shorter, pct).nearest_within(0, u32::MAX as int),
            1,
        );
        assert(is_exported_size(size, straight, crop, border));
    }
}

/// A share is hardly larger than the side.
proof fn lemma_share_is_limited(pixels: int, whole: int, fraction: Scalar)
    requires
        is_share(pixels, whole, fraction),
        1 <= whole <= i32::MAX,
        0 <= 2 * laws::exact(fraction) <= 3 * turn_laws::whole(),
    ensures
        1 <= pixels <= u32::MAX,
{
    let w = turn_laws::whole();
    let f = laws::exact(fraction);
    turn_laws::lemma_sizes();
    let side = whole * w;
    assert(2 * (whole * f) <= 3 * side && w <= side && side <= 0x7fff_ffff * w)
        by (nonlinear_arith)
        requires
            side == whole * w,
            1 <= whole <= 0x7fff_ffff,
            0 <= 2 * f <= 3 * w,
    ;
    if pixels > u32::MAX {
        assert(pixels * w >= 0x1_0000_0000 * w) by (nonlinear_arith)
            requires
                pixels >= 0x1_0000_0000,
                w > 0,
        ;
    }
}

/// A quarter turn to either side changes the sides of a photo round before it
/// is straightened.
pub proof fn quarter_turns_change_the_sides_round(
    document: DocumentView,
    width: u32,
    height: u32,
    angle: Angle,
)
    requires
        0 <= document.turns() <= 3,
    ensures
        ({
            let size = document.geometry(width, height, angle);
            let sideways = document.turns() == 1 || document.turns() == 3;
            let turned = if sideways {
                ImageInfo { width: height, height: width }
            } else {
                ImageInfo { width, height }
            };
            &&& !geometry::straightens(document.degrees()) ==> size == (
                turned.width as int,
                turned.height as int,
            )
            &&& geometry::straightens(document.degrees()) && straighten_laws::is_photo_at_an_angle(
                turned.width,
                turned.height,
                angle,
            ) ==> straighten_laws::is_what_straightening_leaves(turned, angle, size.0, size.1)
        }),
{
    let degrees = document.degrees();
    if document.turns() == 1 || document.turns() == 3 {
        if straighten_laws::is_photo_at_an_angle(height, width, angle) {
            straighten_laws::a_straightened_photo_is_the_largest_that_fits(
                height,
                width,
                degrees,
                angle,
            );
        }
    } else {
        if straighten_laws::is_photo_at_an_angle(width, height, angle) {
            straighten_laws::a_straightened_photo_is_the_largest_that_fits(
                width,
                height,
                degrees,
                angle,
            );
        }
    }
}

/// Whether a side of an image is in the middle of a side of a canvas, but for
/// half a pixel: with an even border where it is shorter, and cut evenly where
/// it is longer.
pub open spec fn is_in_the_middle(
    side: int,
    canvas: int,
    border: int,
    cut_off: int,
    left: int,
) -> bool {
    if side <= canvas {
        &&& 0 <= canvas - side - 2 * border <= 1
        &&& border >= 0
        &&& cut_off == 0
        &&& left == side
    } else {
        &&& border == 0
        &&& 0 <= side - canvas - 2 * cut_off <= 1
        &&& left == canvas
    }
}

/// Whether an image stands in the middle of a canvas.
pub open spec fn stands_in_the_middle(
    info: ImageInfo,
    viewport: Viewport,
    placement: CanvasPlacement,
) -> bool {
    let (cut_left, cut_top, width, height) = match placement.cut {
        Some(area) => area.numbers(),
        None => (0, 0, info.width as int, info.height as int),
    };
    &&& placement.width == viewport.output_width
    &&& placement.height == viewport.output_height
    &&& placement.cut is None <==> info.width <= viewport.output_width && info.height
        <= viewport.output_height
    &&& is_in_the_middle(
        info.width as int,
        viewport.output_width as int,
        placement.left as int,
        cut_left,
        width,
    )
    &&& is_in_the_middle(
        info.height as int,
        viewport.output_height as int,
        placement.top as int,
        cut_top,
        height,
    )
}

/// An image is placed in the middle of its canvas.
pub proof fn an_image_stands_in_the_middle(info: ImageInfo, viewport: Viewport)
    requires
        info.width <= i32::MAX,
        info.height <= i32::MAX,
        viewport.output_width <= i32::MAX,
        viewport.output_height <= i32::MAX,
    ensures
        stands_in_the_middle(info, viewport, geometry::on_canvas(info, viewport)),
{
}

} // verus!
