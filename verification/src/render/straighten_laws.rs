//! What straightening leaves of a photo.

use vstd::arithmetic::power2::*;
use vstd::prelude::*;

use crate::number::binary::Format;
use crate::number::bounds;
use crate::number::convert;
use crate::number::integer_laws;
use crate::number::scalar::Scalar;
use crate::number::wide::Wide;
use crate::number::wide_bounds;
use crate::render::contracts::ImageInfo;
use crate::render::geometry;
use crate::render::geometry::Angle;
use crate::render::rectangle_laws;

verus! {

/// Whether so many pixels are what a side comes to: the nearest integer, and
/// one at least.
pub open spec fn is_rounded(pixels: int, side: int) -> bool {
    let b = wide_bounds::one();
    &&& pixels >= 1
    &&& 2 * side >= b ==> 2 * bounds::absolute(pixels * b - side) <= b
    &&& 2 * side < b ==> pixels == 1
}

/// Whether an angle is one that a photo of a size can be straightened by.
pub open spec fn is_photo_at_an_angle(width: u32, height: u32, angle: Angle) -> bool {
    &&& 0 < width <= i32::MAX
    &&& 0 < height <= i32::MAX
    &&& rectangle_laws::is_turned_photo(
        Wide::integer(width as int),
        Wide::integer(height as int),
        angle,
    )
}

/// Whether a size in pixels is that of the largest upright rectangle inside a
/// photo that has been turned by an angle. Its sides are those of the
/// rectangle, rounded. Turned back, its corners lie inside the photo, but for
/// a pixel and one part in 2^21. No rectangle that fits is larger than one
/// with half a pixel more either way, but for one part in 2^19.
pub open spec fn is_what_straightening_leaves(
    source: ImageInfo,
    angle: Angle,
    width: int,
    height: int,
) -> bool {
    let b = wide_bounds::one();
    let (s, c) = (wide_bounds::exact(angle.sine), wide_bounds::exact(angle.cosine));
    let (across, down) = (Wide::integer(source.width as int), Wide::integer(source.height as int));
    let (first, second) = geometry::inner_rectangle(across, down, angle);
    &&& is_rounded(width, wide_bounds::exact(first))
    &&& is_rounded(height, wide_bounds::exact(second))
    &&& 0x20_0000 * (width * c + height * s) <= 0x20_0001 * (source.width * b) + 0x20_0000 * (2
        * b)
    &&& 0x20_0000 * (width * s + height * c) <= 0x20_0001 * (source.height * b) + 0x20_0000 * (2
        * b)
    &&& forall|x: int, y: int| #[trigger]
        rectangle_laws::fits(x, y, across, down, angle) ==> 4 * (0x8_0000 * (x * y)) <= 0x8_0001
            * (((2 * width + 1) * b) * ((2 * height + 1) * b))
}

/// Whether a photo can be straightened, and the turned photo is at least as
/// large as the largest upright rectangle inside it.
pub open spec fn has_room_for_the_inner_rectangle(
    source: ImageInfo,
    turned: ImageInfo,
    angle: Angle,
) -> bool {
    let (first, second) = geometry::inner_rectangle(
        Wide::integer(source.width as int),
        Wide::integer(source.height as int),
        angle,
    );
    &&& is_photo_at_an_angle(source.width, source.height, angle)
    &&& 0 < turned.width <= i32::MAX
    &&& 0 < turned.height <= i32::MAX
    &&& wide_bounds::exact(first) <= turned.width * wide_bounds::one()
    &&& wide_bounds::exact(second) <= turned.height * wide_bounds::one()
}

/// Whether an area lies in the middle of an image, but for half a pixel.
pub open spec fn lies_in_the_middle(area: (int, int, int, int), image: ImageInfo) -> bool {
    &&& 0 <= image.width - (2 * area.0 + area.2) <= 1
    &&& 0 <= image.height - (2 * area.1 + area.3) <= 1
}

/// The cosine of an angle of at most an eighth turn.
proof fn lemma_cosine(s: int, c: int, b: int)
    requires
        b > 0,
        0 <= s <= c,
        -(b * b) <= (s * s + c * c - b * b) * 0x1_0000_0000_0000,
    ensures
        10 * c >= 7 * b,
{
    let (ss, cc, bb) = (s * s, c * c, b * b);
    assert(ss <= cc) by (nonlinear_arith)
        requires
            ss == s * s,
            cc == c * c,
            0 <= s <= c,
    ;
    assert(bb > 0) by (nonlinear_arith)
        requires
            bb == b * b,
            b > 0,
    ;
    if 10 * c < 7 * b {
        assert(100 * cc <= 49 * bb) by (nonlinear_arith)
            requires
                cc == c * c,
                bb == b * b,
                0 <= 10 * c < 7 * b,
        ;
    }
}

/// The sides of the rectangle are not much longer than those of the photo.
proof fn lemma_side(w: int, h: int, s: int, c: int, p: int, b: int)
    requires
        b > 0,
        0 <= s <= c,
        10 * c >= 7 * b,
        w >= 0,
        h >= 0,
        0 <= p <= 0x7fff_ffff * b,
        0x20_0000 * (w * c + h * s) <= 0x20_0001 * (p * b),
    ensures
        w <= 0xc000_0000 * b,
{
    let hs = h * s;
    assert(hs >= 0) by (nonlinear_arith)
        requires
            hs == h * s,
            h >= 0,
            s >= 0,
    ;
    let wc = w * c;
    assert(10 * wc >= 7 * (w * b)) by (nonlinear_arith)
        requires
            wc == w * c,
            10 * c >= 7 * b,
            w >= 0,
    ;
    let wb = w * b;
    let pb = p * b;
    assert(14680064 * wb <= 20971530 * pb);
    assert(14680064 * w <= 20971530 * p) by (nonlinear_arith)
        requires
            14680064 * wb <= 20971530 * pb,
            wb == w * b,
            pb == p * b,
            b > 0,
    ;
}

/// How a side is rounded.
proof fn lemma_rounded(side: Wide)
    requires
        side.finite(),
        0 <= wide_bounds::exact(side) <= 0xc000_0000 * wide_bounds::one(),
    ensures
        is_rounded(
            geometry::max(side.nearest_within(0, u32::MAX as int), 1),
            wide_bounds::exact(side),
        ),
        forall|most: u32|
            0 < most <= i32::MAX && wide_bounds::exact(side) <= most * wide_bounds::one()
                ==> #[trigger] geometry::straight_extent(side, most) == geometry::max(
                side.nearest_within(0, u32::MAX as int),
                1,
            ),
{
    let b = wide_bounds::one();
    let x = wide_bounds::exact(side);
    integer_laws::integers_round_a_number(side);
    let n = convert::nearest_integer(Format::Double, side.value());
    lemma_pow2_pos(1074);
    assert(n < 0 ==> n * b <= -b) by (nonlinear_arith)
        requires
            b > 0,
    ;
    assert(n > 0xc000_0000 ==> n * b >= 0xc000_0001 * b) by (nonlinear_arith)
        requires
            b > 0,
    ;
    assert(n >= 1 ==> n * b >= b) by (nonlinear_arith)
        requires
            b > 0,
    ;
    assert(0 * b == 0 && 1 * b == b) by (nonlinear_arith);
    assert forall|most: u32|
        0 < most <= i32::MAX && wide_bounds::exact(side) <= most * wide_bounds::one() implies
        #[trigger] geometry::straight_extent(side, most) == geometry::max(
        side.nearest_within(0, u32::MAX as int),
        1,
    ) by {
        assert(n > most ==> n * b >= (most + 1) * b) by (nonlinear_arith)
            requires
                b > 0,
        ;
        assert((most + 1) * b == most * b + b) by (nonlinear_arith);
    }
}

/// What a rounded rectangle takes up of one side of the photo.
proof fn lemma_taken_up(
    width: int,
    height: int,
    w: int,
    h: int,
    first: int,
    second: int,
    p: int,
    b: int,
)
    requires
        b > 0,
        0 <= first <= b,
        0 <= second <= b,
        width * b <= w + b,
        height * b <= h + b,
        0x20_0000 * (w * first + h * second) <= 0x20_0001 * ((p * b) * b),
    ensures
        0x20_0000 * (width * first + height * second) <= 0x20_0001 * (p * b) + 0x20_0000 * (2 * b),
{
    let total = width * first + height * second;
    let (wf, hs) = (w * first, h * second);
    assert((width * first) * b <= wf + b * b) by (nonlinear_arith)
        requires
            wf == w * first,
            width * b <= w + b,
            0 <= first <= b,
            b > 0,
    {
        assert((width * first) * b == (width * b) * first);
        assert((width * b) * first <= (w + b) * first);
        assert((w + b) * first == w * first + b * first);
        assert(b * first <= b * b);
    }
    assert((height * second) * b <= hs + b * b) by (nonlinear_arith)
        requires
            hs == h * second,
            height * b <= h + b,
            0 <= second <= b,
            b > 0,
    {
        assert((height * second) * b == (height * b) * second);
        assert((height * b) * second <= (h + b) * second);
        assert((h + b) * second == h * second + b * second);
        assert(b * second <= b * b);
    }
    assert(total * b == (width * first) * b + (height * second) * b) by (nonlinear_arith)
        requires
            total == width * first + height * second,
    ;
    let pb = p * b;
    assert(0x20_0000 * (total * b) <= 0x20_0001 * (pb * b) + 0x20_0000 * (2 * (b * b)));
    assert(0x20_0000 * total <= 0x20_0001 * pb + 0x20_0000 * (2 * b)) by (nonlinear_arith)
        requires
            0x20_0000 * (total * b) <= 0x20_0001 * (pb * b) + 0x20_0000 * (2 * (b * b)),
            b > 0,
    ;
}

/// A rectangle with half a pixel more either way is no smaller.
proof fn lemma_area(width: int, height: int, w: int, h: int, xy: int, b: int)
    requires
        w >= 0,
        h >= 0,
        2 * w <= (2 * width + 1) * b,
        2 * h <= (2 * height + 1) * b,
        0x8_0000 * xy <= 0x8_0001 * (w * h),
    ensures
        4 * (0x8_0000 * xy) <= 0x8_0001 * (((2 * width + 1) * b) * ((2 * height + 1) * b)),
{
    let (x, y) = ((2 * width + 1) * b, (2 * height + 1) * b);
    assert(4 * (w * h) <= x * y) by (nonlinear_arith)
        requires
            0 <= 2 * w <= x,
            0 <= 2 * h <= y,
    ;
}

/// A rectangle whose sides are rounded is what straightening leaves.
#[verifier::rlimit(40)]
proof fn lemma_left(source: ImageInfo, angle: Angle, width: int, height: int)
    requires
        is_photo_at_an_angle(source.width, source.height, angle),
        ({
            let (first, second) = geometry::inner_rectangle(
                Wide::integer(source.width as int),
                Wide::integer(source.height as int),
                angle,
            );
            &&& is_rounded(width, wide_bounds::exact(first))
            &&& is_rounded(height, wide_bounds::exact(second))
        }),
    ensures
        is_what_straightening_leaves(source, angle, width, height),
{
    let (across, down) = (Wide::integer(source.width as int), Wide::integer(source.height as int));
    let b = wide_bounds::one();
    let (s, c) = (wide_bounds::exact(angle.sine), wide_bounds::exact(angle.cosine));
    let (first, second) = geometry::inner_rectangle(across, down, angle);
    let (w, h) = (wide_bounds::exact(first), wide_bounds::exact(second));
    integer_laws::an_integer_is_exact(source.width as int);
    integer_laws::an_integer_is_exact(source.height as int);
    rectangle_laws::the_inner_rectangle_fits(across, down, angle);
    assert(2 * w < b ==> 1 * b <= w + b);
    assert(width == 1 ==> width * b == b && (2 * width + 1) * b == 3 * b) by (nonlinear_arith);
    assert(height == 1 ==> height * b == b && (2 * height + 1) * b == 3 * b) by (nonlinear_arith);
    assert((2 * width + 1) * b == 2 * (width * b) + b) by (nonlinear_arith);
    assert((2 * height + 1) * b == 2 * (height * b) + b) by (nonlinear_arith);
    assert(width * b <= w + b);
    assert(height * b <= h + b);
    lemma_taken_up(width, height, w, h, c, s, source.width as int, b);
    lemma_taken_up(width, height, w, h, s, c, source.height as int, b);
    assert forall|x: int, y: int| #[trigger]
        rectangle_laws::fits(x, y, across, down, angle) implies 4 * (0x8_0000 * (x * y)) <= 0x8_0001
        * (((2 * width + 1) * b) * ((2 * height + 1) * b)) by {
        rectangle_laws::no_larger_rectangle_fits(across, down, angle, x, y);
        lemma_area(width, height, w, h, x * y, b);
    }
}

/// The sides of the rectangle, and how they are rounded.
proof fn lemma_sides(source: ImageInfo, angle: Angle)
    requires
        is_photo_at_an_angle(source.width, source.height, angle),
    ensures
        ({
            let (first, second) = geometry::inner_rectangle(
                Wide::integer(source.width as int),
                Wide::integer(source.height as int),
                angle,
            );
            let most = 0xc000_0000 * wide_bounds::one();
            &&& first.finite() && second.finite()
            &&& 0 <= wide_bounds::exact(first) <= most
            &&& 0 <= wide_bounds::exact(second) <= most
        }),
{
    let (across, down) = (Wide::integer(source.width as int), Wide::integer(source.height as int));
    let b = wide_bounds::one();
    let (s, c) = (wide_bounds::exact(angle.sine), wide_bounds::exact(angle.cosine));
    let (first, second) = geometry::inner_rectangle(across, down, angle);
    let (w, h) = (wide_bounds::exact(first), wide_bounds::exact(second));
    integer_laws::an_integer_is_exact(source.width as int);
    integer_laws::an_integer_is_exact(source.height as int);
    rectangle_laws::the_inner_rectangle_fits(across, down, angle);
    lemma_cosine(s, c, b);
    let (p, q) = (source.width * b, source.height * b);
    assert(0 <= p <= 0x7fff_ffff * b) by (nonlinear_arith)
        requires
            p == source.width * b,
            0 <= source.width <= 0x7fff_ffff,
            b > 0,
    ;
    assert(0 <= q <= 0x7fff_ffff * b) by (nonlinear_arith)
        requires
            q == source.height * b,
            0 <= source.height <= 0x7fff_ffff,
            b > 0,
    ;
    lemma_side(w, h, s, c, p, b);
    assert(w * s + h * c == h * c + w * s);
    lemma_side(h, w, s, c, q, b);
}

/// The area that is cut from the middle of a turned photo is the largest
/// upright one inside the photo.
pub proof fn the_straight_area_is_the_largest_that_fits(
    source: ImageInfo,
    turned: ImageInfo,
    angle: Angle,
)
    requires
        has_room_for_the_inner_rectangle(source, turned, angle),
    ensures
        ({
            let area = geometry::straight_area(source, turned, angle);
            &&& is_what_straightening_leaves(source, angle, area.2, area.3)
            &&& lies_in_the_middle(area, turned)
        }),
{
    let (first, second) = geometry::inner_rectangle(
        Wide::integer(source.width as int),
        Wide::integer(source.height as int),
        angle,
    );
    lemma_sides(source, angle);
    lemma_rounded(first);
    lemma_rounded(second);
    let width = geometry::straight_extent(first, turned.width);
    let height = geometry::straight_extent(second, turned.height);
    lemma_left(source, angle, width, height);
}

/// The size of a straightened photo is that of the largest upright rectangle
/// inside the turned photo. A photo that is not straightened keeps its size.
pub proof fn a_straightened_photo_is_the_largest_that_fits(
    width: u32,
    height: u32,
    degrees: Scalar,
    angle: Angle,
)
    requires
        is_photo_at_an_angle(width, height, angle),
    ensures
        ({
            let size = geometry::straightened(width, height, degrees, angle);
            if geometry::straightens(degrees) {
                is_what_straightening_leaves((ImageInfo { width, height }), angle, size.0, size.1)
            } else {
                size == (width as int, height as int)
            }
        }),
{
    let source = ImageInfo { width, height };
    let (first, second) = geometry::inner_rectangle(
        Wide::integer(width as int),
        Wide::integer(height as int),
        angle,
    );
    if geometry::straightens(degrees) {
        lemma_sides(source, angle);
        lemma_rounded(first);
        lemma_rounded(second);
        let size = geometry::straightened(width, height, degrees, angle);
        lemma_left(source, angle, size.0, size.1);
    }
}

} // verus!
