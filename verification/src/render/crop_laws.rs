//! What holds of crops of an image.

use vstd::arithmetic::div_mod::*;
use vstd::arithmetic::power2::*;
use vstd::prelude::*;

use crate::document::values::CropRect;
use crate::number::bounds;
use crate::number::constants;
use crate::number::laws;
use crate::number::rounding;
use crate::number::scalar::Scalar;
use crate::render::contracts::ImageInfo;
use crate::render::geometry;

verus! {

/// A crop of the least extent or more begins before 255/256 of the image.
proof fn lemma_start(start: Scalar, extent: Scalar)
    requires
        start.finite(),
        extent.finite(),
        (Scalar { bits: constants::ZERO }).at_most(start),
        (Scalar { bits: constants::HUNDREDTH }).at_most(extent),
        start.sum(extent).at_most(
            (Scalar { bits: constants::ONE }).sum(Scalar { bits: constants::TINY }),
        ),
    ensures
        0 <= laws::exact(start),
        256 * laws::exact(start) <= 255 * bounds::power(0),
{
    let zero = Scalar { bits: constants::ZERO };
    let one = Scalar { bits: constants::ONE };
    let tiny = Scalar { bits: constants::TINY };
    let least = Scalar { bits: constants::HUNDREDTH };
    let high = Scalar { bits: 0x3f7f_0000 };
    let share = Scalar { bits: 0x3c00_0000 };
    let small = Scalar { bits: 0x3b00_0000 };
    let inner = Scalar { bits: 0x3f80_4000 };
    let outer = Scalar { bits: 0x3f80_8000 };
    lemma2_to64();
    rounding::lemma_zero_magnitude(24);
    rounding::lemma_encode(126, 0x80_0000, 24);
    rounding::lemma_encode(125, 0xff_0000, 24);
    rounding::lemma_encode(119, 0x80_0000, 24);
    rounding::lemma_encode(117, 0x80_0000, 24);
    rounding::lemma_encode(126, 0x80_4000, 24);
    rounding::lemma_encode(126, 0x80_8000, 24);
    lemma_pow2_adds(117, 2);
    lemma_pow2_adds(117, 8);
    lemma_pow2_adds(117, 9);
    lemma_pow2_adds(117, 32);
    let u = pow2(117) as int;
    assert(laws::exact(one) == 0x80_0000 * (u * 512));
    assert(laws::exact(high) == 0xff_0000 * (u * 256));
    assert(laws::exact(share) == 0x80_0000 * (u * 4));
    assert(laws::exact(small) == 0x80_0000 * u);
    assert(laws::exact(inner) == 0x80_4000 * (u * 512));
    assert(laws::exact(outer) == 0x80_8000 * (u * 512));
    assert(bounds::power(0) == u * 0x1_0000_0000);
    laws::order_is_exact(zero, start);
    laws::order_is_exact(least, extent);
    laws::order_is_exact(share, least);
    laws::order_is_exact(tiny, small);
    laws::sum_is_nearest(one, tiny);
    laws::nearest_is_monotone(laws::exact(one) + laws::exact(tiny), laws::exact(inner));
    laws::nearest_to_itself(inner);
    if laws::exact(start) > laws::exact(high) {
        laws::sum_is_nearest(start, extent);
        laws::nearest_is_monotone(laws::exact(outer), laws::exact(start) + laws::exact(extent));
        laws::nearest_to_itself(outer);
        assert(false);
    }
}

/// A number up to 255/256 times a count lies below the count.
proof fn lemma_scaled(start: Scalar, whole: u32)
    requires
        start.finite(),
        0 <= laws::exact(start),
        256 * laws::exact(start) <= 255 * bounds::power(0),
        0 < whole <= i32::MAX,
    ensures
        0 <= start.product(Scalar::integer(whole as int)).floor_within(
            i32::MIN as int,
            i32::MAX as int,
        ) < whole,
{
    let pixels = Scalar::integer(whole as int);
    let product = start.product(pixels);
    let b = bounds::power(0) as int;
    let x = bounds::units(start) as int;
    let p = bounds::units(pixels) as int;
    let r = bounds::units(product) as int;
    let t = whole * b;
    lemma2_to64();
    lemma_pow2_adds(64, 85);
    lemma_pow2_pos(85);
    assert(b >= 0x1_0000_0000_0000_0000);
    bounds::an_integer_is_close(whole as nat);
    bounds::a_product_is_close(start, pixels, 0, 31);
    bounds::a_product_is_bounded(start, pixels, 0, 31);
    assert(256 * x <= 255 * b);
    assert(256 * (x * p) <= 255 * (b * p)) by (nonlinear_arith)
        requires
            256 * x <= 255 * b,
            p >= 0,
    ;
    assert(256 * r * 0x80_0000 <= 255 * p * 0x80_0001 + 256 * 0x80_0000) by (nonlinear_arith)
        requires
            r * b * 0x80_0000 <= x * p * 0x80_0001 + b * 0x80_0000,
            256 * (x * p) <= 255 * (b * p),
            b > 0,
    ;
    assert(t >= b) by (nonlinear_arith)
        requires
            t == whole * b,
            whole > 0,
            b > 0,
    ;
    assert(p * 0x80_0000 <= t * 0x80_0001 + 0x80_0000);
    assert(r < t);
    assert(b * whole == t) by (nonlinear_arith)
        requires
            t == whole * b,
    ;
    lemma_multiply_divide_lt(r, b, whole as int);
    lemma_div_pos_is_pos(r, b);
    rounding::lemma_zero_magnitude(24);
    if start.value().negative {
        if start.value().code > 0 {
            rounding::lemma_increasing(0, start.value().code as nat, 24);
        }
        bounds::a_product_with_zero_is_zero(start, pixels);
        assert(r == 0);
        lemma_small_mod(0, b as nat);
        lemma_div_basics(b);
    } else {
        reveal(Scalar::product);
        assert(!product.value().negative);
    }
}

/// Every crop that a document may hold begins inside every image, and what is
/// cut out lies inside.
pub proof fn a_valid_crop_begins_inside(info: ImageInfo, crop: CropRect)
    requires
        crop.valid(),
        0 < info.width <= i32::MAX,
        0 < info.height <= i32::MAX,
    ensures
        geometry::begins_inside(info, crop),
        ({
            let (left, top, width, height) = geometry::cropped_area(info, crop);
            &&& 0 <= left
            &&& 0 <= top
            &&& 0 < width
            &&& 0 < height
            &&& left + width <= info.width
            &&& top + height <= info.height
        }),
{
    lemma_start(crop.x, crop.width);
    lemma_start(crop.y, crop.height);
    lemma_scaled(crop.x, info.width);
    lemma_scaled(crop.y, info.height);
}

} // verus!
