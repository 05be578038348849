//! What choosing an aspect does, and where the photo lies meanwhile.

use vstd::arithmetic::power2::*;
use vstd::prelude::*;

use crate::document::curve_laws;
use crate::document::turn_laws;
use crate::document::values::CropRect;
use crate::number::bounds;
use crate::number::constants;
use crate::number::integer_laws;
use crate::number::laws;
use crate::number::nearness_laws;
use crate::number::rounding;
use crate::number::scalar::Scalar;
use crate::session::crop;

verus! {

/// Whether a crop has an aspect in an image of an aspect, lies in its middle
/// and is as large as it can be, but for one part in 2^20.
pub open spec fn is_largest_of_aspect(rect: CropRect, target: Scalar, image: Scalar) -> bool {
    let one = turn_laws::whole();
    let (t, i) = (laws::exact(target), laws::exact(image));
    let (width, height) = (laws::exact(rect.width), laws::exact(rect.height));
    &&& 0x10_0000 * bounds::absolute(width * i - t * height) <= t * one + i * one
    &&& 0 < width <= one && 0 < height <= one
    &&& width == one || height == one
    &&& 0x10_0000 * bounds::absolute(2 * laws::exact(rect.x) + width - one) <= one
    &&& 0x10_0000 * bounds::absolute(2 * laws::exact(rect.y) + height - one) <= one
}

/// The numbers that crops of an aspect are made of.
proof fn lemma_sizes()
    ensures
        turn_laws::whole() == pow2(149),
        turn_laws::whole() == 0x80_0000 * turn_laws::step(),
        turn_laws::step() >= 0x1_0000_0000_0000_0000,
        laws::exact(Scalar { bits: constants::ZERO }) == 0,
        laws::exact(Scalar { bits: constants::TWO }) == 2 * turn_laws::whole(),
        laws::exact(Scalar { bits: constants::HUNDREDTH }) * 64 <= turn_laws::whole(),
        laws::exact(Scalar { bits: constants::HUNDREDTH }) > 0,
        bounds::power(0) == turn_laws::whole(),
        bounds::power(1) == 2 * turn_laws::whole(),
        bounds::power(6) == 64 * turn_laws::whole(),
        bounds::power(32) == 0x1_0000_0000 * turn_laws::whole(),
        64 * bounds::power(-6) == turn_laws::whole(),
        0x1_0000_0000 * bounds::power(-32) == turn_laws::whole(),
{
    turn_laws::lemma_sizes();
    curve_laws::lemma_constants();
    lemma2_to64();
    rounding::lemma_encode(119, 0xa3_d70a, 24);
    lemma_pow2_adds(119, 7);
    lemma_pow2_pos(119);
    lemma_pow2_adds(149, 6);
    lemma_pow2_adds(149, 32);
    lemma_pow2_adds(143, 6);
    lemma_pow2_adds(117, 32);
    lemma_pow2_unfold(150);
}

/// Half of what an extent leaves.
proof fn lemma_rest(extent: Scalar)
    requires
        extent.finite(),
        0 < laws::exact(extent) <= turn_laws::whole(),
    ensures
        ({
            let one = Scalar { bits: constants::ONE };
            let zero = Scalar { bits: constants::ZERO };
            let rest = one.difference(extent);
            let half = rest.quotient(Scalar { bits: constants::TWO });
            &&& half.clamped(zero, rest) == half
            &&& half.finite()
            &&& bounds::absolute(
                2 * laws::exact(half) + laws::exact(extent) - turn_laws::whole(),
            ) <= 4 * turn_laws::step()
        }),
{
    let one = Scalar { bits: constants::ONE };
    let two = Scalar { bits: constants::TWO };
    let zero = Scalar { bits: constants::ZERO };
    let rest = one.difference(extent);
    let w = turn_laws::whole();
    lemma_sizes();
    turn_laws::lemma_off(one, extent);
    laws::order_is_exact(extent, one);
    laws::difference_has_the_sign_of_the_order(one, extent);
    laws::order_is_exact(zero, rest);
    laws::negation_is_exact(extent);
    bounds::a_sum_stays_between(one, extent.negated(), zero, one);
    laws::order_is_exact(rest, one);
    nearness_laws::lemma_signed(rest);
    nearness_laws::lemma_signed(two);
    nearness_laws::a_quotient_is_near(rest, two, 0, 1);
    let half = rest.quotient(two);
    nearness_laws::lemma_signed(half);
    let (h, r) = (laws::exact(half), laws::exact(rest));
    let d = 2 * h - r;
    assert(h * (2 * w) - r * w == d * w) by (nonlinear_arith)
        requires
            d == 2 * h - r,
    ;
    assert(bounds::absolute(r * w) == r * w) by (nonlinear_arith)
        requires
            r >= 0,
            w > 0,
    ;
    assert(0x40_0000 * bounds::absolute(d) <= r + 2 * 0x80_0000) by (nonlinear_arith)
        requires
            0x40_0000 * bounds::absolute(d * w) <= r * w + 0x80_0000 * (2 * w),
            w > 0,
    {
        assert(bounds::absolute(d * w) == bounds::absolute(d) * w);
        assert(r * w + 0x80_0000 * (2 * w) == (r + 2 * 0x80_0000) * w);
    }
    // Half is no more than all.
    if bounds::nought(rest) {
        bounds::zero_divided_is_zero(rest, two);
    } else {
        assert(h >= 0);
        lemma_half_is_less(rest);
    }
    turn_laws::lemma_clamped(half, zero, rest);
}

/// Half of a number is no more than the number.
proof fn lemma_half_is_less(a: Scalar)
    requires
        a.finite(),
        !a.value().negative,
    ensures
        laws::exact(a.quotient(Scalar { bits: constants::TWO })) <= laws::exact(a),
{
    let two = Scalar { bits: constants::TWO };
    lemma_sizes();
    nearness_laws::lemma_signed(a);
    nearness_laws::lemma_signed(two);
    integer_laws::a_quotient_compares(a, two, a);
    let (x, w) = (laws::exact(a), turn_laws::whole());
    assert(x * w <= x * (2 * w)) by (nonlinear_arith)
        requires
            x >= 0,
            w > 0,
    ;
    laws::order_is_exact(a.quotient(two), a);
}

/// The share of one aspect in another.
proof fn lemma_share(small: Scalar, large: Scalar)
    requires
        small.finite(),
        large.finite(),
        0 < laws::exact(small) <= laws::exact(large) <= 64 * laws::exact(small),
        bounds::power(-32) <= laws::exact(small),
        laws::exact(large) <= bounds::power(32),
    ensures
        ({
            let share = small.quotient(large);
            let one = turn_laws::whole();
            let (s, l) = (laws::exact(small), laws::exact(large));
            &&& share.finite()
            &&& laws::exact(Scalar { bits: constants::HUNDREDTH }) <= laws::exact(share) <= one
            &&& 0x10_0000 * bounds::absolute(laws::exact(share) * l - s * one) <= s * one + l * one
        }),
{
    let share = small.quotient(large);
    let w = turn_laws::whole();
    lemma_sizes();
    nearness_laws::lemma_signed(small);
    nearness_laws::lemma_signed(large);
    nearness_laws::a_quotient_is_near(small, large, 32, -32);
    bounds::a_share_is_at_most_one(small, large);
    nearness_laws::lemma_signed(share);
    let (q, s, l) = (laws::exact(share), laws::exact(small), laws::exact(large));
    assert(bounds::absolute(s * w) == s * w) by (nonlinear_arith)
        requires
            s > 0,
            w > 0,
    ;
    assert(l * w >= 0x8000_0000 * l) by (nonlinear_arith)
        requires
            w >= 0x8000_0000,
            l > 0,
    ;
    // It is more than a hundredth.
    let least = laws::exact(Scalar { bits: constants::HUNDREDTH });
    integer_laws::a_quotient_compares(small, large, Scalar { bits: constants::HUNDREDTH });
    assert(least * l <= s * w) by (nonlinear_arith)
        requires
            64 * least <= w,
            l <= 64 * s,
            least > 0,
            s > 0,
    ;
    laws::order_is_exact(Scalar { bits: constants::HUNDREDTH }, share);
}

/// Choosing an aspect crops to the largest rectangle of that aspect in the
/// middle of the image.
pub proof fn a_chosen_aspect_takes_the_largest_crop(target: Scalar, image: Scalar)
    requires
        target.finite(),
        image.finite(),
        bounds::power(-32) <= laws::exact(target) <= bounds::power(32),
        bounds::power(-32) <= laws::exact(image) <= bounds::power(32),
        laws::exact(target) <= 64 * laws::exact(image),
        laws::exact(image) <= 64 * laws::exact(target),
    ensures
        is_largest_of_aspect(crop::centred(target, image).inside(), target, image),
{
    let one = Scalar { bits: constants::ONE };
    let zero = Scalar { bits: constants::ZERO };
    let least = Scalar { bits: constants::HUNDREDTH };
    let w = turn_laws::whole();
    lemma_sizes();
    lemma_pow2_pos(117);
    laws::order_is_exact(target, image);
    let rect = crop::centred(target, image);
    let (t, i) = (laws::exact(target), laws::exact(image));
    if target.at_most(image) {
        lemma_share(target, image);
    } else {
        lemma_share(image, target);
    }
    turn_laws::lemma_clamped(rect.width, least, one);
    turn_laws::lemma_clamped(rect.height, least, one);
    lemma_rest(rect.width);
    lemma_rest(rect.height);
    let (width, height) = (laws::exact(rect.width), laws::exact(rect.height));
    assert(w * i == i * w && t * w == w * t && t * height == height * t) by (nonlinear_arith);
    assert(rect.inside() == rect);
}

/// Whether a number is the aspect of an image, but for one part in 2^20.
pub open spec fn is_aspect(aspect: Scalar, width: int, height: int) -> bool {
    let one = turn_laws::whole();
    &&& aspect.finite()
    &&& 0x10_0000 * bounds::absolute(laws::exact(aspect) * height - width * one) <= width * one
}

/// The errors of an aspect.
proof fn lemma_aspect(q: int, i: int, j: int, width: int, height: int, w: int)
    requires
        w >= 0x1000_0000_0000_0000_0000,
        1 <= width <= 0x1_0000_0000,
        1 <= height <= 0x1_0000_0000,
        q >= 0,
        0x80_0000 * bounds::absolute(i - width * w) <= width * w + 0x80_0000,
        0x80_0000 * bounds::absolute(j - height * w) <= height * w + 0x80_0000,
        0x40_0000 * bounds::absolute(q * j - i * w) <= bounds::absolute(i * w) + 0x80_0000
            * bounds::absolute(j),
    ensures
        0x10_0000 * bounds::absolute(q * height - width * w) <= width * w,
{
    let (iw, qj, ww, hw) = (i * w, q * j, width * w, height * w);
    assert(ww >= w && hw >= w && hw <= 0x1_0000_0000 * w) by (nonlinear_arith)
        requires
            ww == width * w,
            hw == height * w,
            width >= 1,
            1 <= height <= 0x1_0000_0000,
            w > 0,
    ;
    let www = ww * w;
    let e = i - ww;
    assert(iw == www + e * w) by (nonlinear_arith)
        requires
            iw == i * w,
            www == ww * w,
            e == i - ww,
    ;
    assert(0x80_0000 * bounds::absolute(e * w) <= 2 * www && iw >= 0) by (nonlinear_arith)
        requires
            0x80_0000 * bounds::absolute(e) <= 2 * ww,
            www == ww * w,
            iw == www + e * w,
            ww >= 0,
            w > 0,
    {
        assert(bounds::absolute(e * w) == bounds::absolute(e) * w);
        assert((0x80_0000 * bounds::absolute(e)) * w <= (2 * ww) * w);
        assert(www >= 0);
    }
    assert(www >= 0x100_0000_0000 * hw) by (nonlinear_arith)
        requires
            www == ww * w,
            ww >= w,
            hw <= 0x1_0000_0000 * w,
            w >= 0x1000_0000_0000_0000_0000,
    {
        assert(www >= w * w);
        assert(w * w >= 0x1000_0000_0000_0000_0000 * w);
    }
    let f = j - hw;
    let (qh, qf) = (q * height, q * f);
    let qhw = qh * w;
    assert(qj == qhw + qf) by (nonlinear_arith)
        requires
            qj == q * j,
            f == j - hw,
            hw == height * w,
            qhw == qh * w,
            qh == q * height,
            qf == q * f,
    ;
    assert(0x80_0000 * bounds::absolute(qf) <= 2 * qhw) by (nonlinear_arith)
        requires
            qf == q * f,
            0x80_0000 * bounds::absolute(f) <= 2 * hw,
            hw == height * w,
            qhw == qh * w,
            qh == q * height,
            q >= 0,
    {
        assert(bounds::absolute(qf) == q * bounds::absolute(f));
        assert(q * (0x80_0000 * bounds::absolute(f)) <= q * (2 * hw));
        assert(q * (2 * hw) == 2 * qhw);
    }
    let d = qh - ww;
    assert(qhw - www == d * w) by (nonlinear_arith)
        requires
            d == qh - ww,
            qhw == qh * w,
            www == ww * w,
    ;
    assert(0x10_0000 * bounds::absolute(d * w) <= www);
    assert(0x10_0000 * bounds::absolute(d) <= ww) by (nonlinear_arith)
        requires
            0x10_0000 * bounds::absolute(d * w) <= www,
            www == ww * w,
            w > 0,
    {
        assert(bounds::absolute(d * w) == bounds::absolute(d) * w);
    }
}

/// The aspect of an image is its width over its height.
pub proof fn an_aspect_is_width_over_height(width: int, height: int)
    requires
        1 <= width <= 0x1_0000_0000,
        1 <= height <= 0x1_0000_0000,
    ensures
        is_aspect(crop::aspect_of(width, height), width, height),
{
    let (across, down) = (Scalar::integer(width), Scalar::integer(height));
    let w = turn_laws::whole();
    lemma_sizes();
    integer_laws::an_integer_is_near(width);
    integer_laws::an_integer_is_near(height);
    nearness_laws::lemma_signed(across);
    nearness_laws::lemma_signed(down);
    assert(height * w >= w) by (nonlinear_arith)
        requires
            height >= 1,
            w > 0,
    ;
    lemma_pow2_unfold(149);
    assert(bounds::sizeable(down, -1));
    nearness_laws::a_quotient_is_near(across, down, 32, -1);
    let aspect = crop::aspect_of(width, height);
    nearness_laws::lemma_signed(aspect);
    lemma_aspect(
        laws::exact(aspect),
        laws::exact(across),
        laws::exact(down),
        width,
        height,
        w,
    );
}

/// An aspect that a crop is locked to, times that of the image, is the aspect
/// that was chosen, but for one part in 2^20.
pub proof fn a_locked_aspect_counts_in_shares(target: Scalar, image: Scalar)
    requires
        target.finite(),
        image.finite(),
        0 <= laws::exact(target) <= bounds::power(32),
        bounds::power(-32) <= laws::exact(image) <= bounds::power(32),
    ensures
        ({
            let locked = laws::exact(target.quotient(image));
            let goal = laws::exact(target) * turn_laws::whole();
            &&& target.quotient(image).finite()
            &&& 0x10_0000 * bounds::absolute(locked * laws::exact(image) - goal) <= goal
                + laws::exact(image) * turn_laws::whole()
        }),
{
    let w = turn_laws::whole();
    lemma_sizes();
    lemma_pow2_pos(117);
    nearness_laws::lemma_signed(target);
    nearness_laws::lemma_signed(image);
    nearness_laws::a_quotient_is_near(target, image, 32, -32);
    let (t, i) = (laws::exact(target), laws::exact(image));
    assert(bounds::absolute(t * w) == t * w) by (nonlinear_arith)
        requires
            t >= 0,
            w > 0,
    ;
    assert(i * w >= 0x8000_0000 * i) by (nonlinear_arith)
        requires
            w >= 0x8000_0000,
            i > 0,
    ;
}

/// Whether the photo lies in the middle of one side of the canvas, as large as
/// its pixels at its zoom, but no larger than the canvas.
pub open spec fn lies_on_canvas(
    place: (Scalar, Scalar),
    pixels: int,
    zoom: Scalar,
    scale_factor: Scalar,
    canvas: int,
) -> bool {
    let one = turn_laws::whole();
    let f = laws::exact(scale_factor);
    let (start, extent) = (laws::exact(place.0), laws::exact(place.1));
    let whole = canvas * one;
    let photo = pixels * laws::exact(zoom) * one;
    &&& place.0.finite() && place.1.finite()
    &&& start >= 0
    &&& 0x1_0000 * bounds::absolute(
        extent * f - if photo <= whole * f {
            photo
        } else {
            whole * f
        },
    ) <= whole * f
    &&& 0x1_0000 * bounds::absolute(2 * start + extent - whole) <= whole
}

/// The errors of a photo on a canvas.
proof fn lemma_photo(i: int, m: int, q: int, pixels: int, z: int, f: int, w: int)
    requires
        w >= 0x1000_0000_0000_0000_0000,
        1 <= pixels <= 0x1_0000_0000,
        0 < z <= 64 * w,
        0x10_0000 * z >= w,
        64 * f >= w,
        f <= 64 * w,
        i >= 0,
        q >= 0,
        0x80_0000 * bounds::absolute(i - pixels * w) <= pixels * w + 0x80_0000,
        0x40_0000 * bounds::absolute(m * w - i * z) <= bounds::absolute(i * z) + 0x80_0000 * w,
        0x40_0000 * bounds::absolute(q * f - m * w) <= bounds::absolute(m * w) + 0x80_0000 * f,
    ensures
        0x8_0000 * bounds::absolute(q * f - pixels * z * w) <= pixels * z * w,
{
    let (pw, iz, mw, qf) = (pixels * w, i * z, m * w, q * f);
    let pz = pixels * z;
    let pzw = pz * w;
    assert(pixels * z * w == pzw && pz >= z && pw >= w) by (nonlinear_arith)
        requires
            pzw == pz * w,
            pz == pixels * z,
            pw == pixels * w,
            pixels >= 1,
            z > 0,
            w > 0,
    ;
    let e = i - pw;
    assert(iz == pzw + e * z) by (nonlinear_arith)
        requires
            iz == i * z,
            e == i - pw,
            pw == pixels * w,
            pzw == pz * w,
            pz == pixels * z,
    ;
    assert(0x80_0000 * bounds::absolute(e * z) <= 2 * pzw && pzw > 0) by (nonlinear_arith)
        requires
            0x80_0000 * bounds::absolute(e) <= 2 * pw,
            pw == pixels * w,
            pzw == pz * w,
            pz == pixels * z,
            pz >= z,
            z > 0,
            w > 0,
    {
        assert(bounds::absolute(e * z) == bounds::absolute(e) * z);
        assert((0x80_0000 * bounds::absolute(e)) * z <= (2 * pw) * z);
        assert((2 * pw) * z == 2 * pzw);
        assert(pz * w > 0);
    }
    assert(pzw >= 0x1000_0000_0000 * (64 * w)) by (nonlinear_arith)
        requires
            pzw == pz * w,
            0x10_0000 * pz >= w,
            w >= 0x1000_0000_0000_0000_0000,
    ;
}

/// What lies on a canvas, from near values.
proof fn lemma_on_canvas(p: int, v: int, start: int, photo: int, whole: int, f: int)
    requires
        f > 0,
        whole >= 0x1000_0000_0000_0000,
        p >= 0,
        photo >= 0,
        0x8_0000 * bounds::absolute(p * f - photo) <= photo,
        0x40_0000 * bounds::absolute(v - whole) <= whole,
        start >= 0,
        p <= v ==> 0x20_0000 * bounds::absolute(2 * start - (v - p)) <= v - p + 0x200_0000,
        p > v ==> start == 0,
    ensures
        ({
            let extent = if p <= v {
                p
            } else {
                v
            };
            &&& 0x1_0000 * bounds::absolute(
                extent * f - if photo <= whole * f {
                    photo
                } else {
                    whole * f
                },
            ) <= whole * f
            &&& 0x1_0000 * bounds::absolute(2 * start + extent - whole) <= whole
        }),
{
    let (pf, vf, wf) = (p * f, v * f, whole * f);
    let e = v - whole;
    assert(vf == wf + e * f) by (nonlinear_arith)
        requires
            vf == v * f,
            wf == whole * f,
            e == v - whole,
    ;
    assert(0x40_0000 * bounds::absolute(e * f) <= wf) by (nonlinear_arith)
        requires
            0x40_0000 * bounds::absolute(e) <= whole,
            wf == whole * f,
            f > 0,
    {
        assert(bounds::absolute(e * f) == bounds::absolute(e) * f);
    }
    assert(p <= v ==> pf <= vf) by (nonlinear_arith)
        requires
            pf == p * f,
            vf == v * f,
            f > 0,
    ;
    assert(p > v ==> pf >= vf) by (nonlinear_arith)
        requires
            pf == p * f,
            vf == v * f,
            f > 0,
    ;
    assert(wf > 0) by (nonlinear_arith)
        requires
            wf == whole * f,
            whole > 0,
            f > 0,
    ;
}

/// While the crop is changed the photo lies in the middle of the canvas, as
/// large as it is shown.
#[verifier::rlimit(40)]
pub proof fn the_photo_lies_in_the_middle(
    pixels: int,
    zoom: Scalar,
    scale_factor: Scalar,
    canvas: i32,
)
    requires
        1 <= pixels <= 0x1_0000_0000,
        zoom.finite(),
        scale_factor.finite(),
        turn_laws::whole() <= 0x10_0000 * laws::exact(zoom),
        laws::exact(zoom) <= 64 * turn_laws::whole(),
        turn_laws::whole() <= 64 * laws::exact(scale_factor),
        laws::exact(scale_factor) <= 64 * turn_laws::whole(),
        canvas > 0,
    ensures
        lies_on_canvas(
            crop::on_canvas(pixels, zoom, scale_factor, canvas),
            pixels,
            zoom,
            scale_factor,
            canvas as int,
        ),
{
    let w = turn_laws::whole();
    let count = Scalar::integer(pixels);
    let shown = count.product(zoom);
    let photo = shown.quotient(scale_factor);
    let side = Scalar::integer(canvas as int);
    let two = Scalar { bits: constants::TWO };
    let zero = Scalar { bits: constants::ZERO };
    lemma_sizes();
    nearness_laws::lemma_signed(zoom);
    nearness_laws::lemma_signed(scale_factor);
    nearness_laws::lemma_signed(two);
    integer_laws::an_integer_is_near(pixels);
    integer_laws::an_integer_is_near(canvas as int);
    nearness_laws::lemma_signed(count);
    nearness_laws::lemma_signed(side);
    nearness_laws::a_product_is_near(count, zoom, 32, 6);
    bounds::a_product_is_close(count, zoom, 32, 6);
    nearness_laws::lemma_signed(shown);
    nearness_laws::a_quotient_is_near(shown, scale_factor, 38, -6);
    nearness_laws::lemma_signed(photo);
    let (z, f) = (laws::exact(zoom), laws::exact(scale_factor));
    let (p, v) = (laws::exact(photo), laws::exact(side));
    assert(p >= 0);
    lemma_photo(laws::exact(count), laws::exact(shown), p, pixels, z, f, w);
    // Half of what is left.
    lemma_pow2_strictly_increases(181, 193);
    assert(bounds::bounded(side, 44));
    laws::negation_is_exact(photo);
    bounds::a_sum_is_close(side, photo.negated(), 44);
    bounds::a_sum_is_bounded(side, photo.negated(), 44);
    let rest = side.difference(photo);
    let r = laws::exact(rest);
    nearness_laws::lemma_signed(rest);
    nearness_laws::a_quotient_is_near(rest, two, 45, 1);
    let half = rest.quotient(two);
    nearness_laws::lemma_signed(half);
    let h = laws::exact(half);
    laws::order_is_exact(half, zero);
    laws::order_is_exact(side, photo);
    laws::order_is_exact(photo, side);
    laws::difference_has_the_sign_of_the_order(side, photo);
    laws::order_is_exact(zero, rest);
    laws::order_is_exact(rest, zero);
    if bounds::nought(rest) {
        bounds::zero_divided_is_zero(rest, two);
    }
    let d = 2 * h - r;
    let size = bounds::absolute(r);
    assert(h * (2 * w) - r * w == d * w) by (nonlinear_arith)
        requires
            d == 2 * h - r,
    ;
    assert(bounds::absolute(r * w) == size * w) by (nonlinear_arith)
        requires
            size == bounds::absolute(r),
            w > 0,
    ;
    assert(0x40_0000 * bounds::absolute(d) <= size + 2 * 0x80_0000) by (nonlinear_arith)
        requires
            0x40_0000 * bounds::absolute(d * w) <= size * w + 0x80_0000 * (2 * w),
            w > 0,
    {
        assert(bounds::absolute(d * w) == bounds::absolute(d) * w);
        assert(size * w + 0x80_0000 * (2 * w) == (size + 2 * 0x80_0000) * w);
    }
    let place = crop::on_canvas(pixels, zoom, scale_factor, canvas);
    let start = laws::exact(place.0);
    let whole = canvas * w;
    assert(whole >= w) by (nonlinear_arith)
        requires
            whole == canvas * w,
            canvas >= 1,
            w > 0,
    ;
    let photo_units = pixels * z * w;
    assert(photo_units >= 0) by (nonlinear_arith)
        requires
            photo_units == pixels * z * w,
            pixels >= 0,
            z >= 0,
            w >= 0,
    ;
    assert(start >= 0);
    lemma_on_canvas(p, v, start, photo_units, whole, f);
}

/// The offered aspects are told apart: the square and four to three, but for a
/// hundredth, and all others.
pub proof fn offered_aspects_are_told_apart(aspect: Scalar)
    requires
        aspect.finite(),
        0 <= laws::exact(aspect) <= 4 * turn_laws::whole(),
    ensures
        ({
            let one = turn_laws::whole();
            let mode = crop::mode_of_aspect(aspect);
            let square = bounds::absolute(laws::exact(aspect) - one);
            let classic = bounds::absolute(3 * laws::exact(aspect) - 4 * one);
            &&& mode == 1 || mode == 2 || mode == 3
            &&& 101 * square <= one ==> mode == 1
            &&& 99 * square >= one ==> mode != 1
            &&& 101 * classic <= 3 * one ==> mode == 2
            &&& 99 * classic >= 3 * one ==> mode != 2
        }),
{
    let one = Scalar { bits: constants::ONE };
    let close = Scalar { bits: constants::HUNDREDTH };
    let four = Scalar { bits: constants::FOUR };
    let three = Scalar { bits: constants::THREE };
    let ratio = four.quotient(three);
    let w = turn_laws::whole();
    lemma_sizes();
    turn_laws::lemma_sizes();
    curve_laws::lemma_constants();
    lemma2_to64();
    rounding::lemma_encode(119, 0xa3_d70a, 24);
    rounding::lemma_encode(128, 0x80_0000, 24);
    lemma_pow2_adds(119, 7);
    lemma_pow2_adds(126, 2);
    let unit = pow2(119) as int;
    assert(w == 0x4000_0000 * unit && laws::exact(close) == 0xa3_d70a * unit);
    assert(laws::exact(four) == 4 * w);
    nearness_laws::lemma_signed(four);
    nearness_laws::lemma_signed(three);
    nearness_laws::a_quotient_is_near(four, three, 2, 1);
    let q = laws::exact(ratio);
    let d = 3 * q - 4 * w;
    assert(q * (3 * w) - (4 * w) * w == d * w) by (nonlinear_arith)
        requires
            d == 3 * q - 4 * w,
    ;
    assert(bounds::absolute((4 * w) * w) == 4 * (w * w)) by (nonlinear_arith)
        requires
            w > 0,
    ;
    assert(0x40_0000 * bounds::absolute(d) <= 4 * w + 3 * 0x80_0000) by (nonlinear_arith)
        requires
            0x40_0000 * bounds::absolute(d * w) <= 4 * (w * w) + 0x80_0000 * (3 * w),
            w > 0,
    {
        assert(bounds::absolute(d * w) == bounds::absolute(d) * w);
        assert(4 * (w * w) + 0x80_0000 * (3 * w) == (4 * w + 3 * 0x80_0000) * w);
    }
    turn_laws::lemma_off(aspect, one);
    turn_laws::lemma_off(aspect, ratio);
    let (from_one, from_ratio) = (aspect.difference(one), aspect.difference(ratio));
    lemma_size(from_one);
    lemma_size(from_ratio);
    laws::order_is_exact(from_one.size(), close);
    laws::order_is_exact(from_ratio.size(), close);
}

proof fn lemma_size(a: Scalar)
    requires
        a.finite(),
    ensures
        a.size().finite(),
        laws::exact(a.size()) == bounds::absolute(laws::exact(a)),
{
    nearness_laws::lemma_signed(a);
}

} // verus!
