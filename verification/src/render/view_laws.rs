//! What a viewport shows of an image.

use vstd::arithmetic::power2::*;
use vstd::prelude::*;

use crate::document::curve_laws;
use crate::document::turn_laws;
use crate::number::binary::Format;
use crate::number::bounds;
use crate::number::constants;
use crate::number::convert;
use crate::number::integer_laws;
use crate::number::laws;
use crate::number::rounding;
use crate::number::scalar::Scalar;
use crate::number::wide::Wide;
use crate::number::wide_bounds;
use crate::number::wide_constants;
use crate::render::contracts::{ImageInfo, Viewport};
use crate::render::geometry;
use crate::render::view;
use crate::render::view::ViewportPlan;

verus! {

/// The zoom that a viewport shows an image at: the one asked for, held between
/// a hundredth and 32.
pub open spec fn shown_zoom(zoom: Scalar) -> int {
    geometry::held(
        laws::exact(zoom),
        laws::exact(Scalar { bits: 0x3c23_d70a }),
        32 * turn_laws::whole(),
    )
}

/// Whether so many pixels of an image cover an output at a zoom, and one less
/// would not. Where the image has fewer it is shown whole. The quotient is
/// rounded, by one part in 2^52 at most.
pub open spec fn covers(output: int, whole: int, zoom: int, extent: int) -> bool {
    let goal = output * turn_laws::whole();
    &&& 1 <= extent <= whole
    &&& extent == 1 || (extent - 1) * zoom < goal
    &&& extent == whole || 0x10_0000_0000_0000 * (goal - extent * zoom) <= goal
}

/// Whether so many pixels of an image are shown round a place: their middle is
/// there, but for a pixel, as far as the image goes.
pub open spec fn is_centered(center: Scalar, whole: int, extent: int, start: int) -> bool {
    let one = turn_laws::whole();
    let place = geometry::held(laws::exact(center), 0, one);
    let wanted = geometry::held(2 * (place * whole) - extent * one, 0, 2 * (whole - extent) * one);
    &&& 0 <= start <= whole - extent
    &&& bounds::absolute(2 * start * one - wanted) <= 2 * one
}

/// The sizes that views are made of.
proof fn lemma_sizes()
    ensures
        wide_bounds::one() == turn_laws::whole() * pow2(925),
        turn_laws::whole() == pow2(149),
        turn_laws::whole() > 0,
        pow2(925) > 0,
        wide_bounds::one() > 0x100_0000_0000_0000 * (32 * turn_laws::whole()),
        pow2(1134) == 0x1000_0000_0000_0000 * wide_bounds::one(),
        pow2(200) >= 0x1000_0000_0000_0000,
        laws::exact(Scalar { bits: 0x4200_0000 }) == 32 * turn_laws::whole(),
        laws::exact(Scalar { bits: constants::ZERO }) == 0,
        turn_laws::whole() <= 128 * laws::exact(Scalar { bits: 0x3c23_d70a }),
        laws::exact(Scalar { bits: 0x3c23_d70a }) <= turn_laws::whole(),
        wide_bounds::exact(Wide { bits: wide_constants::ONE }) == wide_bounds::one(),
        wide_bounds::exact(Wide { bits: wide_constants::TWO }) == 2 * wide_bounds::one(),
        2 * wide_bounds::exact(Wide { bits: wide_constants::ONE_AND_A_HALF }) == 3
            * wide_bounds::one(),
        0x10_0000_0000_0000 * wide_bounds::exact(Wide { bits: wide_constants::EPSILON })
            == wide_bounds::one(),
{
    turn_laws::lemma_sizes();
    curve_laws::lemma_constants();
    lemma2_to64();
    lemma2_to64_rest();
    lemma_pow2_adds(149, 925);
    lemma_pow2_pos(925);
    lemma_pow2_adds(1074, 60);
    lemma_pow2_strictly_increases(60, 200);
    lemma_pow2_adds(149, 61);
    lemma_pow2_strictly_increases(210, 1074);
    rounding::lemma_encode(131, 0x80_0000, 24);
    lemma_pow2_adds(131, 23);
    lemma_pow2_adds(149, 5);
    rounding::lemma_encode(1022, 0x10_0000_0000_0000, 53);
    rounding::lemma_encode(1022, 0x18_0000_0000_0000, 53);
    rounding::lemma_encode(1023, 0x10_0000_0000_0000, 53);
    rounding::lemma_encode(970, 0x10_0000_0000_0000, 53);
    lemma_pow2_adds(1022, 52);
    lemma_pow2_adds(970, 52);
    lemma_pow2_unfold(1023);
}

/// Integers of pixels, as numbers.
proof fn lemma_pixels(n: int)
    requires
        0 <= n <= 0x1_0000_0000,
    ensures
        Wide::integer(n).finite(),
        !Wide::integer(n).value().negative,
        wide_bounds::exact(Wide::integer(n)) == n * wide_bounds::one(),
        0 <= n * wide_bounds::one() <= 0x1_0000_0000 * wide_bounds::one(),
        wide_bounds::moderate(Wide::integer(n)),
        n == 0 <==> Wide::integer(n).value().code == 0,
{
    lemma_sizes();
    integer_laws::an_integer_is_exact(n);
    let b = wide_bounds::one();
    assert(0 <= n * b <= 0x1_0000_0000 * b) by (nonlinear_arith)
        requires
            0 <= n <= 0x1_0000_0000,
            b > 0,
    ;
    assert(n > 0 ==> n * b > 0) by (nonlinear_arith)
        requires
            b > 0,
    ;
    rounding::lemma_zero_magnitude(53);
    if Wide::integer(n).value().code > 0 {
        rounding::lemma_increasing(0, Wide::integer(n).value().code as nat, 53);
    }
}

/// The zoom of a viewport that is not fitted.
proof fn lemma_zoom(zoom: Scalar)
    requires
        zoom.finite(),
        !zoom.at_most(Scalar { bits: constants::ZERO }),
    ensures
        ({
            let held = zoom.clamped(
                Scalar { bits: view::LEAST_ZOOM },
                Scalar { bits: view::LARGEST_ZOOM },
            );
            &&& held.finite()
            &&& !held.value().negative
            &&& laws::exact(held) == shown_zoom(zoom)
            &&& held.widened().finite()
            &&& !held.widened().value().negative
            &&& wide_bounds::exact(held.widened()) == shown_zoom(zoom) * pow2(925)
            &&& held.widened().narrowed().same(held)
        }),
        turn_laws::whole() <= 128 * shown_zoom(zoom) <= 128 * (32 * turn_laws::whole()),
{
    let low = Scalar { bits: view::LEAST_ZOOM };
    let high = Scalar { bits: view::LARGEST_ZOOM };
    lemma_sizes();
    turn_laws::lemma_clamped(zoom, low, high);
    let held = zoom.clamped(low, high);
    integer_laws::widening_is_exact(held);
    lemma_narrowed_again(held);
}

/// Widening and narrowing gives a number back.
pub proof fn lemma_narrowed_again(a: Scalar)
    requires
        a.finite(),
    ensures
        a.widened().narrowed().same(a),
{
    integer_laws::widening_is_exact(a);
    lemma_pow2_pos(925);
    let size = bounds::units(a);
    let p = pow2(925);
    let code = a.value().code as nat;
    let wide = a.widened().value();
    rounding::lemma_held(code, 24);
    let n = wide.size(Format::Double);
    assert(n == size * p) by (nonlinear_arith)
        requires
            if wide.negative {
                -n == (-size) * p
            } else {
                n == size * p
            },
    ;
    assert(size * p == n * 1);
    rounding::lemma_equal_fractions(size, 1, n, p, 24, code);
    rounding::lemma_nearest(n, p, 24, code);
}

/// A rounded quotient that an extent is not below of.
proof fn lemma_covered(output: int, extent: int, zoom: int, m: int, w: int, p: int, b: int)
    requires
        b == w * p,
        p > 0,
        w > 0,
        zoom > 0,
        m <= extent * b,
        0x10_0000_0000_0000 * zoom < b,
        (output * b * b - m * (zoom * p)) * 0x10_0000_0000_0000 <= output * b * b + zoom * p
            * 0x10_0000_0000_0000,
    ensures
        0x10_0000_0000_0000 * (output * w - extent * zoom) <= output * w,
{
    let k = p * b;
    let goal = output * w;
    let d = goal - extent * zoom;
    assert(b > 0) by (nonlinear_arith)
        requires
            b == w * p,
            w > 0,
            p > 0,
    ;
    assert(k > 0) by (nonlinear_arith)
        requires
            k == p * b,
            p > 0,
            b > 0,
    ;
    assert(output * b * b == goal * k) by (nonlinear_arith)
        requires
            b == w * p,
            k == p * b,
            goal == output * w,
    ;
    let zp = zoom * p;
    assert(zp > 0) by (nonlinear_arith)
        requires
            zp == zoom * p,
            zoom > 0,
            p > 0,
    ;
    assert(m * zp <= (extent * b) * zp) by (nonlinear_arith)
        requires
            m <= extent * b,
            zp > 0,
    ;
    assert((extent * b) * zp == (extent * zoom) * k) by (nonlinear_arith)
        requires
            zp == zoom * p,
            k == p * b,
    ;
    assert(0x10_0000_0000_0000 * zp < k) by (nonlinear_arith)
        requires
            zp == zoom * p,
            k == p * b,
            0x10_0000_0000_0000 * zoom < b,
            p > 0,
    ;
    let ez = extent * zoom;
    assert(d * k == goal * k - ez * k) by (nonlinear_arith)
        requires
            d == goal - ez,
    ;
    assert((d * k) * 0x10_0000_0000_0000 < goal * k + k);
    assert(0x10_0000_0000_0000 * d < goal + 1) by (nonlinear_arith)
        requires
            (d * k) * 0x10_0000_0000_0000 < goal * k + k,
            k > 0,
    ;
}

/// How much of an image an output shows.
#[verifier::rlimit(40)]
proof fn lemma_extent(output: u32, whole: u32, scale: Wide, zoom: int)
    requires
        scale.finite(),
        !scale.value().negative,
        wide_bounds::exact(scale) == zoom * pow2(925),
        turn_laws::whole() <= 128 * zoom <= 128 * (32 * turn_laws::whole()),
        0 < whole <= i32::MAX,
    ensures
        covers(output as int, whole as int, zoom, view::shown_extent(output, whole, scale)),
{
    let pixels = Wide::integer(output as int);
    let found = pixels.quotient(scale);
    let (b, p, w) = (wide_bounds::one(), pow2(925) as int, turn_laws::whole());
    let out = output as int;
    lemma_sizes();
    lemma_pixels(out);
    assert(zoom * p <= (32 * w) * p) by (nonlinear_arith)
        requires
            zoom <= 32 * w,
            p > 0,
    ;
    assert((32 * w) * p == 32 * (w * p)) by (nonlinear_arith);
    assert(128 * (zoom * p) >= w * p) by (nonlinear_arith)
        requires
            128 * zoom >= w,
            p > 0,
    ;
    assert((zoom * p) * pow2(200) >= b) by (nonlinear_arith)
        requires
            128 * (zoom * p) >= b,
            pow2(200) >= 128,
            b > 0,
    ;
    assert(wide_bounds::moderate(scale));
    wide_bounds::a_quotient_is_close(pixels, scale);
    rounding::lemma_zero_magnitude(53);
    lemma_pixels(0);
    integer_laws::a_wide_quotient_compares(pixels, scale, Wide::integer(0));
    integer_laws::integers_round_a_number(found);
    let n = convert::ceiling_integer(Format::Double, found.value());
    let extent = view::shown_extent(output, whole, scale);
    let m = wide_bounds::exact(found);
    let goal = out * w;
    assert(n >= 0);
    assert(goal >= 0) by (nonlinear_arith)
        requires
            goal == out * w,
            out >= 0,
            w > 0,
    ;
    // It is no more than needed.
    if extent > 1 {
        let e = extent - 1;
        lemma_pixels(e);
        if goal <= e * zoom {
            let left = (out * b) * b;
            let right = (e * b) * (zoom * p);
            assert(left <= right) by (nonlinear_arith)
                requires
                    left == (out * b) * b,
                    right == (e * b) * (zoom * p),
                    b == w * p,
                    goal == out * w,
                    goal <= e * zoom,
                    p > 0,
                    b > 0,
            {
                assert(left == goal * (p * b));
                assert(right == (e * zoom) * (p * b));
                assert(p * b > 0);
            }
            integer_laws::a_wide_quotient_compares(pixels, scale, Wide::integer(e));
            wide_bounds::order_is_exact(found, Wide::integer(e));
            assert(e <= n - 1);
            assert(e * b <= (n - 1) * b) by (nonlinear_arith)
                requires
                    e <= n - 1,
                    b > 0,
            ;
            assert(false);
        }
    }
    // It is enough.
    if extent < whole {
        assert(n <= extent);
        assert(n * b <= extent * b) by (nonlinear_arith)
            requires
                n <= extent,
                b > 0,
        ;
        lemma_covered(out, extent, zoom, m, w, p, b);
    }
}

/// Half of an extent, as a number.
proof fn lemma_half(extent: int)
    requires
        0 <= extent <= i32::MAX,
    ensures
        ({
            let half = Wide::integer(extent).quotient(Wide { bits: wide_constants::TWO });
            let b = wide_bounds::one();
            &&& wide_bounds::moderate(half)
            &&& 1024 * bounds::absolute(2 * wide_bounds::exact(half) - extent * b) <= b
        }),
{
    let two = Wide { bits: wide_constants::TWO };
    let half = Wide::integer(extent).quotient(two);
    let b = wide_bounds::one();
    lemma_sizes();
    lemma_pixels(extent);
    assert((2 * b) * pow2(200) >= b) by (nonlinear_arith)
        requires
            pow2(200) >= 1,
            b > 0,
    ;
    wide_bounds::a_quotient_is_close(Wide::integer(extent), two);
    let h = wide_bounds::exact(half);
    let n = extent * b;
    let d = 2 * h - n;
    assert(h * (2 * b) - n * b == d * b) by (nonlinear_arith)
        requires
            d == 2 * h - n,
    ;
    assert(0 <= n * b) by (nonlinear_arith)
        requires
            n >= 0,
            b > 0,
    ;
    assert(0x10_0000_0000_0000 * d <= n + 2 * 0x10_0000_0000_0000) by (nonlinear_arith)
        requires
            (d * b) * 0x10_0000_0000_0000 <= n * b + (2 * b) * 0x10_0000_0000_0000,
            b > 0,
    ;
    assert(-(0x10_0000_0000_0000 * d) <= n + 2 * 0x10_0000_0000_0000) by (nonlinear_arith)
        requires
            -(d * b) * 0x10_0000_0000_0000 <= n * b + (2 * b) * 0x10_0000_0000_0000,
            b > 0,
    ;
}

/// The place in the middle, in pixels, as a number.
proof fn lemma_middle(center: Scalar, whole: int)
    requires
        center.finite(),
        0 <= whole <= i32::MAX,
    ensures
        ({
            let middle = center.clamped(
                Scalar { bits: constants::ZERO },
                Scalar { bits: constants::ONE },
            ).widened().product(Wide::integer(whole));
            let b = wide_bounds::one();
            let place = geometry::held(laws::exact(center), 0, turn_laws::whole());
            &&& wide_bounds::moderate(middle)
            &&& 1024 * bounds::absolute(
                wide_bounds::exact(middle) - place * whole * pow2(925),
            ) <= b
            &&& 0 <= place * whole * pow2(925) <= i32::MAX * b
        }),
{
    let zero = Scalar { bits: constants::ZERO };
    let one = Scalar { bits: constants::ONE };
    lemma_sizes();
    lemma_pixels(whole);
    turn_laws::lemma_clamped(center, zero, one);
    let held = center.clamped(zero, one);
    integer_laws::widening_is_exact(held);
    let (b, p, w) = (wide_bounds::one(), pow2(925) as int, turn_laws::whole());
    let place = laws::exact(held);
    assert(0 <= place * p <= w * p) by (nonlinear_arith)
        requires
            0 <= place <= w,
            p > 0,
    ;
    wide_bounds::a_product_is_close(held.widened(), Wide::integer(whole));
    let middle = held.widened().product(Wide::integer(whole));
    let m = wide_bounds::exact(middle);
    let goal = place * whole * p;
    let d = m - goal;
    assert((place * p) * (whole * b) == goal * b) by (nonlinear_arith)
        requires
            goal == place * whole * p,
    ;
    assert(0 <= goal <= i32::MAX * b) by (nonlinear_arith)
        requires
            goal == place * whole * p,
            0 <= place * p <= b,
            0 <= whole <= i32::MAX,
    {
        assert(goal == (place * p) * whole);
    }
    assert(m * b - goal * b == d * b) by (nonlinear_arith)
        requires
            d == m - goal,
    ;
    assert(0 <= goal * b) by (nonlinear_arith)
        requires
            goal >= 0,
            b > 0,
    ;
    assert(0x10_0000_0000_0000 * d <= goal + 0x10_0000_0000_0000) by (nonlinear_arith)
        requires
            (d * b) * 0x10_0000_0000_0000 <= goal * b + b * 0x10_0000_0000_0000,
            b > 0,
    ;
    assert(-(0x10_0000_0000_0000 * d) <= goal + 0x10_0000_0000_0000) by (nonlinear_arith)
        requires
            -(d * b) * 0x10_0000_0000_0000 <= goal * b + b * 0x10_0000_0000_0000,
            b > 0,
    ;
}

/// Held places that are near are near.
proof fn lemma_held_pixels(n: int, most: int, wanted: int, w: int, p: int)
    requires
        p > 0,
        w > 0,
        most >= 0,
        bounds::absolute(2 * (n * (w * p)) - wanted * p) <= 2 * (w * p),
    ensures
        bounds::absolute(
            2 * geometry::held(n, 0, most) * w - geometry::held(wanted, 0, 2 * most * w),
        ) <= 2 * w,
{
    let d = 2 * n * w - wanted;
    assert(2 * (n * (w * p)) - wanted * p == d * p) by (nonlinear_arith)
        requires
            d == 2 * n * w - wanted,
    ;
    assert(bounds::absolute(d) <= 2 * w) by (nonlinear_arith)
        requires
            bounds::absolute(d * p) <= 2 * (w * p),
            p > 0,
    ;
    assert(n < 0 ==> n * w <= 0) by (nonlinear_arith)
        requires
            w > 0,
    ;
    assert(n > most ==> n * w >= most * w) by (nonlinear_arith)
        requires
            w > 0,
    ;
    assert(0 <= n <= most ==> 0 <= n * w <= most * w) by (nonlinear_arith)
        requires
            w > 0,
    ;
    assert(2 * n * w == 2 * (n * w) && 2 * most * w == 2 * (most * w)) by (nonlinear_arith);
    assert(most * w >= 0) by (nonlinear_arith)
        requires
            most >= 0,
            w > 0,
    ;
    let h = geometry::held(n, 0, most);
    assert(2 * h * w == 2 * (h * w) && 0 * w == 0) by (nonlinear_arith);
    assert(h * w == if n < 0 {
        0
    } else if n > most {
        most * w
    } else {
        n * w
    });
}

/// Where the pixels that are shown begin.
proof fn lemma_start(center: Scalar, whole: u32, extent: int)
    requires
        center.finite(),
        0 < extent <= whole <= i32::MAX,
    ensures
        is_centered(center, whole as int, extent, view::shown_start(center, whole, extent)),
{
    let two = Wide { bits: wide_constants::TWO };
    let half = Wide::integer(extent).quotient(two);
    let middle = center.clamped(
        Scalar { bits: constants::ZERO },
        Scalar { bits: constants::ONE },
    ).widened().product(Wide::integer(whole as int));
    let (b, p, w) = (wide_bounds::one(), pow2(925) as int, turn_laws::whole());
    lemma_sizes();
    lemma_half(extent);
    lemma_pixels(extent);
    lemma_middle(center, whole as int);
    wide_bounds::a_difference_is_close(middle, half);
    let found = middle.difference(half);
    integer_laws::integers_round_a_number(found);
    let n = convert::nearest_integer(Format::Double, found.value());
    let place = geometry::held(laws::exact(center), 0, w);
    let goal = place * whole * p;
    let wanted = 2 * (place * whole) - extent * w;
    assert(wanted * p == 2 * goal - extent * b) by (nonlinear_arith)
        requires
            wanted == 2 * (place * whole) - extent * w,
            goal == place * whole * p,
            b == w * p,
    ;
    assert(bounds::absolute(2 * (n * b) - wanted * p) <= 2 * b);
    lemma_held_pixels(n, whole - extent, wanted, w, p);
}

/// Where a viewport is not fitted it shows the image at its zoom, held between
/// a hundredth and 32, and of the image as many pixels as cover the output at
/// that zoom, round the center of the viewport.
pub proof fn a_zoomed_viewport_covers_its_output(info: ImageInfo, viewport: Viewport)
    requires
        0 < info.width <= i32::MAX,
        0 < info.height <= i32::MAX,
        viewport.zoom.finite(),
        viewport.center_x.finite(),
        viewport.center_y.finite(),
        laws::exact(viewport.zoom) > 0,
    ensures
        ({
            let scale = view::view_scale(info, viewport);
            let zoom = shown_zoom(viewport.zoom);
            let width = view::shown_extent(viewport.output_width, info.width, scale);
            let height = view::shown_extent(viewport.output_height, info.height, scale);
            let left = view::shown_start(viewport.center_x, info.width, width);
            let top = view::shown_start(viewport.center_y, info.height, height);
            &&& !viewport.fits()
            &&& wide_bounds::exact(scale) == zoom * pow2(925)
            &&& laws::exact(scale.narrowed()) == zoom
            &&& covers(viewport.output_width as int, info.width as int, zoom, width)
            &&& covers(viewport.output_height as int, info.height as int, zoom, height)
            &&& is_centered(viewport.center_x, info.width as int, width, left)
            &&& is_centered(viewport.center_y, info.height as int, height, top)
        }),
{
    let zero = Scalar { bits: constants::ZERO };
    lemma_sizes();
    laws::order_is_exact(viewport.zoom, zero);
    lemma_zoom(viewport.zoom);
    let scale = view::view_scale(info, viewport);
    let zoom = shown_zoom(viewport.zoom);
    let held = viewport.zoom.clamped(
        Scalar { bits: view::LEAST_ZOOM },
        Scalar { bits: view::LARGEST_ZOOM },
    );
    laws::order_is_exact(scale.narrowed(), held);
    lemma_extent(viewport.output_width, info.width, scale, zoom);
    lemma_extent(viewport.output_height, info.height, scale, zoom);
    let width = view::shown_extent(viewport.output_width, info.width, scale);
    let height = view::shown_extent(viewport.output_height, info.height, scale);
    lemma_start(viewport.center_x, info.width, width);
    lemma_start(viewport.center_y, info.height, height);
}

/// Whether a scale is the one at which a side just fills an output, but for
/// one part in 2^50.
pub open spec fn fills(scale: int, side: int, output: int) -> bool {
    let goal = output * wide_bounds::one();
    0x4_0000_0000_0000 * bounds::absolute(scale * side - goal) <= goal
}

/// Whether a side at a scale is within an output, but for one part in 2^50.
pub open spec fn stays_within(scale: int, side: int, output: int) -> bool {
    let goal = output * wide_bounds::one();
    0x4_0000_0000_0000 * (scale * side - goal) <= goal
}

/// Whether a scale is the largest one at which an image fits into an output.
pub open spec fn just_fits(scale: int, info: ImageInfo, width: int, height: int) -> bool {
    &&& stays_within(scale, info.width as int, width)
    &&& stays_within(scale, info.height as int, height)
    &&& fills(scale, info.width as int, width) || fills(scale, info.height as int, height)
}

/// The scale at which one side fills an output.
proof fn lemma_side(output: u32, side: u32)
    requires
        side > 0,
    ensures
        ({
            let scale = Wide::integer(output as int).quotient(Wide::integer(side as int));
            &&& scale.finite()
            &&& 0 <= wide_bounds::exact(scale) <= 0x1_0000_0001 * wide_bounds::one()
            &&& fills(wide_bounds::exact(scale), side as int, output as int)
        }),
{
    let a = Wide::integer(output as int);
    let c = Wide::integer(side as int);
    let zero = Wide::integer(0);
    let b = wide_bounds::one();
    let (o, n) = (output as int, side as int);
    lemma_sizes();
    lemma_pixels(o);
    lemma_pixels(n);
    lemma_pixels(0);
    assert((n * b) * pow2(200) >= b) by (nonlinear_arith)
        requires
            pow2(200) >= 1,
            n >= 1,
            b > 0,
    ;
    wide_bounds::a_quotient_is_close(a, c);
    integer_laws::a_wide_quotient_compares(a, c, zero);
    let scale = a.quotient(c);
    let m = wide_bounds::exact(scale);
    wide_bounds::order_is_exact(zero, scale);
    wide_bounds::order_is_exact(scale, zero);
    assert(0 * (n * b) <= (o * b) * b) by (nonlinear_arith)
        requires
            o >= 0,
            b > 0,
    ;
    let goal = o * b;
    if o == 0 {
        assert((o * b) * b <= 0 * (n * b)) by (nonlinear_arith)
            requires
                o == 0,
        ;
        assert(m * n == 0) by (nonlinear_arith)
            requires
                m == 0,
        ;
    } else {
        let d = m * n - goal;
        assert(m * (n * b) - goal * b == d * b) by (nonlinear_arith)
            requires
                d == m * n - goal,
        ;
        assert(0 < goal * b) by (nonlinear_arith)
            requires
                goal == o * b,
                o > 0,
                b > 0,
        ;
        assert(0x10_0000_0000_0000 * d <= goal + n * 0x10_0000_0000_0000) by (nonlinear_arith)
            requires
                (d * b) * 0x10_0000_0000_0000 <= goal * b + (n * b) * 0x10_0000_0000_0000,
                b > 0,
        ;
        assert(-(0x10_0000_0000_0000 * d) <= goal + n * 0x10_0000_0000_0000) by (nonlinear_arith)
            requires
                -(d * b) * 0x10_0000_0000_0000 <= goal * b + (n * b) * 0x10_0000_0000_0000,
                b > 0,
        ;
        assert(goal >= b) by (nonlinear_arith)
            requires
                goal == o * b,
                o >= 1,
                b > 0,
        ;
        assert(turn_laws::whole() > 0x1_0000_0000) by {
            turn_laws::lemma_sizes();
        }
        assert(n * 0x10_0000_0000_0000 <= b);
    }
    assert(m <= m * n) by (nonlinear_arith)
        requires
            m >= 0,
            n >= 1,
    ;
}

/// A smaller scale stays within what a larger one fills.
proof fn lemma_smaller(scale: int, larger: int, side: int, output: int)
    requires
        scale <= larger,
        side >= 0,
        fills(larger, side, output),
    ensures
        stays_within(scale, side, output),
{
    assert(scale * side <= larger * side) by (nonlinear_arith)
        requires
            scale <= larger,
            side >= 0,
    ;
}

/// The scale at which an image fits into an output is the largest at which it
/// does.
pub proof fn an_image_just_fits(info: ImageInfo, width: u32, height: u32)
    requires
        info.width > 0,
        info.height > 0,
    ensures
        ({
            let scale = view::fit_scale(info, width, height);
            &&& scale.finite()
            &&& 0 <= wide_bounds::exact(scale) <= 0x1_0000_0001 * wide_bounds::one()
            &&& just_fits(wide_bounds::exact(scale), info, width as int, height as int)
        }),
{
    let across = Wide::integer(width as int).quotient(Wide::integer(info.width as int));
    let down = Wide::integer(height as int).quotient(Wide::integer(info.height as int));
    lemma_side(width, info.width);
    lemma_side(height, info.height);
    wide_bounds::order_is_exact(down, across);
    let scale = wide_bounds::exact(view::fit_scale(info, width, height));
    lemma_smaller(scale, wide_bounds::exact(across), info.width as int, width as int);
    lemma_smaller(scale, wide_bounds::exact(down), info.height as int, height as int);
}

/// Where a viewport is fitted all of the image is shown, as large as the output
/// lets it be, but never larger than it is.
pub proof fn a_fitted_viewport_shows_all_of_the_image(info: ImageInfo, viewport: Viewport)
    requires
        info.width > 0,
        info.height > 0,
        viewport.zoom.finite(),
        laws::exact(viewport.zoom) <= 0,
    ensures
        ({
            let scale = wide_bounds::exact(view::view_scale(info, viewport));
            let (width, height) = (viewport.output_width as int, viewport.output_height as int);
            &&& viewport.fits()
            &&& 0 <= scale <= wide_bounds::one()
            &&& stays_within(scale, info.width as int, width)
            &&& stays_within(scale, info.height as int, height)
            &&& scale == wide_bounds::one() || just_fits(scale, info, width, height)
        }),
{
    let zero = Scalar { bits: constants::ZERO };
    let one = Wide { bits: wide_constants::ONE };
    let fitted = view::fit_scale(info, viewport.output_width, viewport.output_height);
    lemma_sizes();
    laws::order_is_exact(viewport.zoom, zero);
    an_image_just_fits(info, viewport.output_width, viewport.output_height);
    wide_bounds::order_is_exact(one, fitted);
    let (b, f) = (wide_bounds::one(), wide_bounds::exact(fitted));
    let (w, h) = (info.width as int, info.height as int);
    if b <= f {
        assert(b * w <= f * w && b * h <= f * h) by (nonlinear_arith)
            requires
                b <= f,
                w >= 0,
                h >= 0,
        ;
    }
}

/// The source image for fitted previews is made half as large again as it is
/// shown, but never larger than it is.
pub proof fn a_proxy_is_half_as_large_again(info: ImageInfo, viewport: Viewport)
    requires
        info.width > 0,
        info.height > 0,
    ensures
        ({
            let fitted = wide_bounds::exact(
                view::fit_scale(info, viewport.output_width, viewport.output_height),
            );
            let scale = wide_bounds::exact(view::proxy_scale_of(info, viewport));
            let b = wide_bounds::one();
            let asked = 3 * fitted;
            &&& 0 <= scale <= b
            &&& 0x4_0000_0000_0000 * (2 * scale - asked) <= asked + b
            &&& scale < b ==> 0x4_0000_0000_0000 * (asked - 2 * scale) <= asked + b
        }),
{
    let one = Wide { bits: wide_constants::ONE };
    let more = Wide { bits: wide_constants::ONE_AND_A_HALF };
    let fitted = view::fit_scale(info, viewport.output_width, viewport.output_height);
    let (b, f) = (wide_bounds::one(), wide_bounds::exact(fitted));
    lemma_sizes();
    an_image_just_fits(info, viewport.output_width, viewport.output_height);
    wide_bounds::a_product_is_close(fitted, more);
    wide_bounds::a_product_keeps_its_sign(fitted, more);
    let product = fitted.product(more);
    let m = wide_bounds::exact(product);
    wide_bounds::order_is_exact(one, product);
    let e = wide_bounds::exact(more);
    let d = 2 * m - 3 * f;
    assert(2 * (m * b - f * e) == d * b) by (nonlinear_arith)
        requires
            d == 2 * m - 3 * f,
            2 * e == 3 * b,
    ;
    assert(2 * (f * e) == (3 * f) * b && f * e >= 0) by (nonlinear_arith)
        requires
            2 * e == 3 * b,
            f >= 0,
            b > 0,
    ;
    assert(0x10_0000_0000_0000 * d <= 3 * f + 2 * 0x10_0000_0000_0000) by (nonlinear_arith)
        requires
            (d * b) * 0x10_0000_0000_0000 <= (3 * f) * b + 2 * (b * 0x10_0000_0000_0000),
            b > 0,
    ;
    assert(-(0x10_0000_0000_0000 * d) <= 3 * f + 2 * 0x10_0000_0000_0000) by (nonlinear_arith)
        requires
            -(d * b) * 0x10_0000_0000_0000 <= (3 * f) * b + 2 * (b * 0x10_0000_0000_0000),
            b > 0,
    ;
    turn_laws::lemma_sizes();
}

/// An image is resized unless the scale is one, but for one part in 2^52.
pub proof fn only_another_scale_resizes(scale: Wide)
    requires
        wide_bounds::moderate(scale),
    ensures
        view::resize_by(scale) matches Some(by) ==> by == scale,
        wide_bounds::exact(scale) == wide_bounds::one() ==> view::resize_by(scale) is None,
        view::resize_by(scale) is None ==> 0x8_0000_0000_0000 * bounds::absolute(
            wide_bounds::exact(scale) - wide_bounds::one(),
        ) <= wide_bounds::one(),
{
    let one = Wide { bits: wide_constants::ONE };
    let epsilon = Wide { bits: wide_constants::EPSILON };
    lemma_sizes();
    wide_bounds::a_difference_is_close(scale, one);
    let gap = scale.difference(one);
    let b = wide_bounds::one();
    let exact = wide_bounds::exact(scale) - b;
    assert(wide_bounds::exact(gap.size()) == bounds::absolute(wide_bounds::exact(gap)));
    wide_bounds::order_is_exact(gap.size(), epsilon);
    if exact == 0 {
        wide_bounds::negation_is_exact(one);
        reveal(Wide::sum);
        rounding::lemma_zero_magnitude(53);
    }
}

/// The zoom on the smaller source image, times the scale of that image, is the
/// zoom on the image itself, but for one part in 2^22.
pub proof fn a_zoom_is_carried_over(viewport: Viewport, source_scale: Scalar)
    requires
        viewport.zoom.finite(),
        source_scale.finite(),
        laws::exact(viewport.zoom) <= bounds::power(32),
        bounds::power(-40) <= laws::exact(source_scale) <= turn_laws::whole(),
    ensures
        ({
            let carried = view::on_proxy(viewport, source_scale);
            let zoom = laws::exact(viewport.zoom) * turn_laws::whole();
            let shown = laws::exact(carried.zoom) * laws::exact(source_scale);
            &&& carried.fits() == viewport.fits()
            &&& laws::exact(viewport.zoom) <= 0 ==> laws::exact(carried.zoom) == 0
            &&& laws::exact(viewport.zoom) > 0 ==> 0x40_0000 * bounds::absolute(shown - zoom)
                <= zoom + 0x80_0000 * turn_laws::whole()
            &&& carried.output_width == viewport.output_width
            &&& carried.output_height == viewport.output_height
            &&& carried.center_x == viewport.center_x
            &&& carried.center_y == viewport.center_y
        }),
{
    let zero = Scalar { bits: constants::ZERO };
    lemma_sizes();
    laws::order_is_exact(viewport.zoom, zero);
    if laws::exact(viewport.zoom) > 0 {
        let carried = viewport.zoom.quotient(source_scale);
        let (z, s) = (bounds::units(viewport.zoom), bounds::units(source_scale));
        lemma_pow2_pos(109);
        bounds::a_quotient_is_close(viewport.zoom, source_scale, 32, -40);
        bounds::a_quotient_is_bounded(viewport.zoom, source_scale, 32, -40);
        let w = turn_laws::whole();
        let q = bounds::units(carried);
        assert(q * s * 0x80_0001 == (q * s) * 0x80_0000 + q * s) by (nonlinear_arith);
        integer_laws::a_quotient_compares(viewport.zoom, source_scale, viewport.zoom);
        let zs = z * s;
        assert(zs <= z * w) by (nonlinear_arith)
            requires
                zs == z * s,
                s <= w,
        ;
        laws::order_is_exact(viewport.zoom, carried);
        laws::order_is_exact(carried, zero);
    }
}

/// Whether a plan shows what a viewport asks for: the part round its center
/// that covers the output at its zoom, or all of the image as large as the
/// output lets it be.
pub open spec fn shows(info: ImageInfo, viewport: Viewport, plan: ViewportPlan) -> bool {
    let zoom = shown_zoom(viewport.zoom);
    let (width, height) = (viewport.output_width as int, viewport.output_height as int);
    if laws::exact(viewport.zoom) > 0 {
        &&& plan.cut matches Some(area)
        &&& covers(width, info.width as int, zoom, area.width as int)
        &&& covers(height, info.height as int, zoom, area.height as int)
        &&& is_centered(viewport.center_x, info.width as int, area.width as int, area.left as int)
        &&& is_centered(viewport.center_y, info.height as int, area.height as int, area.top as int)
        &&& laws::exact(plan.effective_zoom) == zoom
        &&& match plan.resize {
            Some(scale) => wide_bounds::exact(scale) == zoom * pow2(925),
            None => zoom == turn_laws::whole(),
        }
    } else {
        &&& plan.cut is None
        &&& match plan.resize {
            Some(scale) => just_fits(wide_bounds::exact(scale), info, width, height)
                && wide_bounds::exact(scale) < wide_bounds::one(),
            None => stays_within(
                wide_bounds::one() - wide_bounds::one() / 0x8_0000_0000_0000,
                info.width as int,
                width,
            ) && stays_within(
                wide_bounds::one() - wide_bounds::one() / 0x8_0000_0000_0000,
                info.height as int,
                height,
            ),
        }
    }
}

/// Every viewport is shown what it asks for.
pub proof fn a_viewport_is_shown_what_it_asks_for(
    info: ImageInfo,
    viewport: Viewport,
    plan: ViewportPlan,
)
    requires
        0 < info.width <= i32::MAX,
        0 < info.height <= i32::MAX,
        viewport.zoom.finite(),
        viewport.center_x.finite(),
        viewport.center_y.finite(),
        ({
            let scale = view::view_scale(info, viewport);
            &&& plan.resize == view::resize_by(scale)
            &&& plan.effective_zoom == scale.narrowed()
            &&& viewport.fits() ==> plan.cut is None
            &&& !viewport.fits() ==> {
                let width = view::shown_extent(viewport.output_width, info.width, scale);
                let height = view::shown_extent(viewport.output_height, info.height, scale);
                &&& plan.cut matches Some(area)
                &&& area.numbers() == (
                    view::shown_start(viewport.center_x, info.width, width),
                    view::shown_start(viewport.center_y, info.height, height),
                    width,
                    height,
                )
            }
        }),
    ensures
        shows(info, viewport, plan),
{
    let scale = view::view_scale(info, viewport);
    let (b, p, w) = (wide_bounds::one(), pow2(925) as int, turn_laws::whole());
    let v = wide_bounds::exact(scale);
    lemma_sizes();
    if laws::exact(viewport.zoom) > 0 {
        a_zoomed_viewport_covers_its_output(info, viewport);
        laws::order_is_exact(viewport.zoom, Scalar { bits: constants::ZERO });
        lemma_zoom(viewport.zoom);
        let zoom = shown_zoom(viewport.zoom);
        assert(0 <= zoom * p <= 32 * b) by (nonlinear_arith)
            requires
                0 <= zoom <= 32 * w,
                b == w * p,
                p > 0,
        ;
        only_another_scale_resizes(scale);
        if zoom != w && plan.resize is None {
            lemma_other_zoom(viewport.zoom);
            let d = zoom - w;
            assert(bounds::absolute(d * p) == bounds::absolute(d) * p) by (nonlinear_arith)
                requires
                    p > 0,
            ;
            assert(zoom * p - b == d * p) by (nonlinear_arith)
                requires
                    d == zoom - w,
                    b == w * p,
            ;
            assert(0x100_0000 * (bounds::absolute(d) * p) >= b) by (nonlinear_arith)
                requires
                    0x100_0000 * bounds::absolute(d) >= w,
                    b == w * p,
                    p > 0,
            ;
        }
    } else {
        a_fitted_viewport_shows_all_of_the_image(info, viewport);
        laws::order_is_exact(viewport.zoom, Scalar { bits: constants::ZERO });
        an_image_just_fits(info, viewport.output_width, viewport.output_height);
        only_another_scale_resizes(scale);
        if plan.resize is None {
            let (n, h) = (info.width as int, info.height as int);
            let least = b - b / 0x8_0000_0000_0000;
            assert(least <= v);
            assert(least * n <= v * n && least * h <= v * h) by (nonlinear_arith)
                requires
                    least <= v,
                    n >= 0,
                    h >= 0,
            ;
        }
    }
}

/// A zoom that is not one differs from it by one part in 2^24 at least.
proof fn lemma_other_zoom(zoom: Scalar)
    requires
        zoom.finite(),
        laws::exact(zoom) > 0,
        shown_zoom(zoom) != turn_laws::whole(),
    ensures
        0x100_0000 * bounds::absolute(shown_zoom(zoom) - turn_laws::whole()) >= turn_laws::whole(),
{
    let one = Scalar { bits: constants::ONE };
    let below = Scalar { bits: 0x3f7f_ffff };
    let above = Scalar { bits: 0x3f80_0001 };
    lemma_sizes();
    laws::order_is_exact(zoom, Scalar { bits: constants::ZERO });
    lemma_zoom(zoom);
    let held = zoom.clamped(
        Scalar { bits: view::LEAST_ZOOM },
        Scalar { bits: view::LARGEST_ZOOM },
    );
    turn_laws::lemma_sizes();
    lemma2_to64();
    rounding::lemma_encode(126, 0x80_0001, 24);
    rounding::lemma_encode(125, 0xff_ffff, 24);
    lemma_pow2_unfold(126);
    laws::order_is_exact(held, one);
    laws::order_is_exact(held, below);
    laws::order_is_exact(above, held);
}

} // verus!
