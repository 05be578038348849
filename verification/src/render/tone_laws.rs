//! What the numbers of the tonal stages come to.

use vstd::arithmetic::power2::*;
use vstd::prelude::*;

use crate::document::curve_laws;
use crate::document::turn_laws;
use crate::document::values::ShadowsHighlights;
use crate::number::binary::Format;
use crate::number::bounds;
use crate::number::integer_laws;
use crate::number::laws;
use crate::number::rounding;
use crate::number::scalar::Scalar;
use crate::number::wide::Wide;
use crate::number::wide_bounds;
use crate::number::wide_constants;
use crate::render::contracts::ImageInfo;
use crate::render::geometry;
use crate::render::tones;
use crate::render::tones::{LightShift, Ramp, SampleFormat};

verus! {

/// The value of a number of the narrow format, in the units of the wide one.
pub open spec fn in_wide_units(a: Scalar) -> int {
    laws::exact(a) * pow2(925)
}

/// Whether two values are the same but for one part in 2^24 of one.
pub open spec fn is_near(x: int, y: int) -> bool {
    0x100_0000 * bounds::absolute(x - y) <= wide_bounds::one()
}

/// Whether an amount is one that the tonal stages are made for: at most a
/// thousand either way.
pub open spec fn is_usual(amount: Scalar) -> bool {
    amount.finite() && bounds::absolute(laws::exact(amount)) <= 1000 * turn_laws::whole()
}

/// Whether a factor is one and the hundredths of an amount: nothing at -100,
/// one at nothing, two at 100.
pub open spec fn is_one_and_hundredths(factor: Wide, amount: Scalar) -> bool {
    &&& factor.finite()
    &&& is_near(
        100 * wide_bounds::exact(factor),
        100 * wide_bounds::one() + in_wide_units(amount),
    )
}

/// Whether a number is the hundredths of an amount.
pub open spec fn is_hundredths(number: Wide, amount: Scalar) -> bool {
    number.finite() && is_near(100 * wide_bounds::exact(number), in_wide_units(amount))
}

/// Whether shadows move against their slider and highlights along with it, by
/// the hundredths of the amounts.
pub open spec fn moves_lights(shift: LightShift, adjustment: ShadowsHighlights) -> bool {
    &&& shift.shadows.finite() && shift.highlights.finite()
    &&& is_near(100 * wide_bounds::exact(shift.shadows), -in_wide_units(adjustment.shadows))
    &&& is_near(100 * wide_bounds::exact(shift.highlights), in_wide_units(adjustment.highlights))
}

/// Whether a radius is a three-hundredth of the shorter side, held between 1
/// and 32.
pub open spec fn is_share_of_the_shorter_side(radius: Wide, info: ImageInfo) -> bool {
    let b = wide_bounds::one();
    &&& radius.finite()
    &&& is_near(
        300 * wide_bounds::exact(radius),
        geometry::held(
            if info.width <= info.height {
                info.width * b
            } else {
                info.height * b
            },
            300 * b,
            9600 * b,
        ),
    )
}

/// Whether a radius is the scale of the source image, and a fifth at least.
pub open spec fn is_radius_at(radius: Wide, source_scale: Scalar) -> bool {
    let five = 5 * in_wide_units(source_scale);
    &&& radius.finite()
    &&& is_near(
        5 * wide_bounds::exact(radius),
        if five < wide_bounds::one() {
            wide_bounds::one()
        } else {
            five
        },
    )
}

/// Whether a ramp is nothing at the inner edge of a vignette and one at its
/// outer edge. The inner edge is six tenths of the strength inside one, and
/// the outer edge is at 1.4.
pub open spec fn runs_between_the_edges(ramp: Ramp, strength: Scalar) -> bool {
    let b = wide_bounds::one();
    let (scale, offset) = (wide_bounds::exact(ramp.scale), wide_bounds::exact(ramp.offset));
    let inner = 10 * b - 6 * in_wide_units(strength);
    &&& ramp.scale.finite() && ramp.offset.finite()
    &&& 0x100_0000 * bounds::absolute(scale * inner + 10 * (offset * b)) <= b * b
    &&& 0x100_0000 * bounds::absolute(14 * (scale * b) + 10 * (offset * b) - 10 * (b * b)) <= b * b
}

/// Whether a place is that of a row or a column from the middle, in halves of
/// the shorter side, but for one part in 2^18 of the sides.
pub open spec fn is_place_from_middle(
    place: Scalar,
    index: int,
    count: int,
    shorter: int,
) -> bool {
    let b = wide_bounds::one();
    &&& place.finite()
    &&& 0x4_0000 * bounds::absolute(
        shorter * in_wide_units(place) - (2 * index - (count - 1)) * b,
    ) <= (count + shorter) * b
}

/// The numbers that the tonal stages are made of.
pub proof fn lemma_sizes()
    ensures
        wide_bounds::one() == turn_laws::whole() * pow2(925),
        turn_laws::whole() == pow2(149),
        turn_laws::whole() > 0x1000_0000_0000_0000,
        pow2(925) > 0,
        wide_bounds::one() > 0x1000_0000_0000_0000_0000_0000_0000,
        wide_bounds::one() > 0x1000_0000_0000_0000 * pow2(925),
        pow2(1134) == 0x1000_0000_0000_0000 * wide_bounds::one(),
        pow2(200) >= 0x1000_0000_0000_0000,
        wide_bounds::exact(Wide { bits: wide_constants::ONE }) == wide_bounds::one(),
        2 * wide_bounds::exact(Wide { bits: wide_constants::HALF }) == wide_bounds::one(),
        wide_bounds::exact(Wide { bits: wide_constants::HUNDRED }) == 100 * wide_bounds::one(),
        wide_bounds::exact(Wide { bits: wide_constants::THREE_HUNDRED }) == 300
            * wide_bounds::one(),
        wide_bounds::exact(Wide { bits: wide_constants::THIRTY_TWO }) == 32 * wide_bounds::one(),
        0x1_0000_0000_0000 * bounds::absolute(
            5 * wide_bounds::exact(Wide { bits: wide_constants::FIFTH }) - wide_bounds::one(),
        ) <= wide_bounds::one(),
        0x1_0000_0000_0000 * bounds::absolute(
            10 * wide_bounds::exact(Wide { bits: tones::VIGNETTE_EDGE }) - 14 * wide_bounds::one(),
        ) <= wide_bounds::one(),
        0x1_0000_0000_0000 * bounds::absolute(
            10 * wide_bounds::exact(Wide { bits: tones::VIGNETTE_REACH }) - 6 * wide_bounds::one(),
        ) <= wide_bounds::one(),
{
    turn_laws::lemma_sizes();
    curve_laws::lemma_constants();
    lemma2_to64();
    lemma2_to64_rest();
    lemma_pow2_adds(149, 925);
    lemma_pow2_pos(925);
    lemma_pow2_adds(1074, 60);
    lemma_pow2_strictly_increases(60, 200);
    lemma_pow2_adds(60, 64);
    lemma_pow2_strictly_increases(124, 1074);
    lemma_pow2_adds(925, 61);
    lemma_pow2_strictly_increases(986, 1074);
    lemma_pow2_adds(60, 60);
    rounding::lemma_encode(1022, 0x10_0000_0000_0000, 53);
    rounding::lemma_encode(1021, 0x10_0000_0000_0000, 53);
    rounding::lemma_encode(1028, 0x19_0000_0000_0000, 53);
    rounding::lemma_encode(1030, 0x12_c000_0000_0000, 53);
    rounding::lemma_encode(1027, 0x10_0000_0000_0000, 53);
    rounding::lemma_encode(1019, 0x19_9999_9999_999a, 53);
    rounding::lemma_encode(1022, 0x16_6666_6666_6666, 53);
    rounding::lemma_encode(1021, 0x13_3333_3333_3333, 53);
    lemma_pow2_adds(1019, 3);
    lemma_pow2_adds(1019, 2);
    lemma_pow2_adds(1019, 9);
    lemma_pow2_adds(1019, 11);
    lemma_pow2_adds(1019, 8);
    lemma_pow2_adds(1019, 55);
}

/// A usual amount, widened.
proof fn lemma_widened(amount: Scalar)
    requires
        is_usual(amount),
    ensures
        amount.widened().finite(),
        wide_bounds::exact(amount.widened()) == in_wide_units(amount),
        bounds::absolute(in_wide_units(amount)) <= 1000 * wide_bounds::one(),
        wide_bounds::moderate(amount.widened()),
{
    lemma_sizes();
    integer_laws::widening_is_exact(amount);
    let (x, w, p) = (laws::exact(amount), turn_laws::whole(), pow2(925) as int);
    assert(bounds::absolute(x * p) <= 1000 * (w * p)) by (nonlinear_arith)
        requires
            bounds::absolute(x) <= 1000 * w,
            p > 0,
    ;
}

/// A quotient by an integer is near to the exact one.
proof fn lemma_by_integer(a: Wide, c: Wide, k: int)
    requires
        wide_bounds::moderate(a),
        c.finite(),
        wide_bounds::exact(c) == k * wide_bounds::one(),
        1 <= k <= 0x1_0000_0000,
        bounds::absolute(wide_bounds::exact(a)) <= 0x2_0000_0000 * wide_bounds::one(),
    ensures
        a.quotient(c).finite(),
        0x4_0000 * bounds::absolute(k * wide_bounds::exact(a.quotient(c)) - wide_bounds::exact(a))
            <= wide_bounds::one(),
        bounds::absolute(wide_bounds::exact(a)) <= 1000 * wide_bounds::one()
            ==> 0x100_0000_0000 * bounds::absolute(
            k * wide_bounds::exact(a.quotient(c)) - wide_bounds::exact(a),
        ) <= wide_bounds::one(),
        wide_bounds::moderate(a.quotient(c)),
{
    let b = wide_bounds::one();
    lemma_sizes();
    assert(k * b <= 0x1_0000_0000 * b && k * b >= b) by (nonlinear_arith)
        requires
            1 <= k <= 0x1_0000_0000,
            b > 0,
    ;
    assert((k * b) * pow2(200) >= b) by (nonlinear_arith)
        requires
            k * b >= b,
            pow2(200) >= 1,
            b > 0,
    ;
    wide_bounds::a_quotient_is_close(a, c);
    let q = wide_bounds::exact(a.quotient(c));
    let x = wide_bounds::exact(a);
    let d = k * q - x;
    assert(q * (k * b) - x * b == d * b) by (nonlinear_arith)
        requires
            d == k * q - x,
    ;
    let size = bounds::absolute(x);
    assert(bounds::absolute(x * b) == size * b) by (nonlinear_arith)
        requires
            size == bounds::absolute(x),
            b > 0,
    ;
    assert(0x10_0000_0000_0000 * d <= size + k * 0x10_0000_0000_0000) by (nonlinear_arith)
        requires
            (d * b) * 0x10_0000_0000_0000 <= size * b + (k * b) * 0x10_0000_0000_0000,
            b > 0,
    ;
    assert(-(0x10_0000_0000_0000 * d) <= size + k * 0x10_0000_0000_0000) by (nonlinear_arith)
        requires
            -(d * b) * 0x10_0000_0000_0000 <= size * b + (k * b) * 0x10_0000_0000_0000,
            b > 0,
    ;
    assert(bounds::absolute(q) <= bounds::absolute(k * q)) by (nonlinear_arith)
        requires
            k >= 1,
    ;
}

/// The hundredths of an amount.
proof fn lemma_hundredths(amount: Scalar)
    requires
        is_usual(amount),
    ensures
        tones::hundredths(amount).finite(),
        0x100_0000_0000 * bounds::absolute(
            100 * wide_bounds::exact(tones::hundredths(amount)) - in_wide_units(amount),
        ) <= wide_bounds::one(),
        bounds::absolute(wide_bounds::exact(tones::hundredths(amount))) <= 11
            * wide_bounds::one(),
        wide_bounds::moderate(tones::hundredths(amount)),
{
    lemma_sizes();
    lemma_widened(amount);
    lemma_by_integer(amount.widened(), Wide { bits: wide_constants::HUNDRED }, 100);
}

/// The factor for a saturation, and the exponent for a contrast, is one and
/// the hundredths of the amount.
pub proof fn an_amount_counts_in_hundredths(amount: Scalar)
    requires
        is_usual(amount),
    ensures
        is_one_and_hundredths(
            (Wide { bits: wide_constants::ONE }).sum(tones::hundredths(amount)),
            amount,
        ),
        is_hundredths(tones::hundredths(amount), amount),
{
    lemma_sizes();
    lemma_hundredths(amount);
    wide_bounds::a_sum_is_close(Wide { bits: wide_constants::ONE }, tones::hundredths(amount));
}

/// A product with one is near to the other factor.
proof fn lemma_times_one(a: Wide)
    requires
        a.finite(),
        bounds::absolute(wide_bounds::exact(a)) <= 1000 * wide_bounds::one(),
    ensures
        a.product(Wide { bits: wide_constants::ONE }).finite(),
        0x100_0000_0000 * bounds::absolute(
            wide_bounds::exact(a.product(Wide { bits: wide_constants::ONE })) - wide_bounds::exact(
                a,
            ),
        ) <= wide_bounds::one(),
{
    let one = Wide { bits: wide_constants::ONE };
    let b = wide_bounds::one();
    lemma_sizes();
    wide_bounds::a_product_is_close(a, one);
    let (x, m) = (wide_bounds::exact(a), wide_bounds::exact(a.product(one)));
    let d = m - x;
    let size = bounds::absolute(x);
    assert(m * b - x * b == d * b) by (nonlinear_arith)
        requires
            d == m - x,
    ;
    assert(bounds::absolute(x * b) == size * b) by (nonlinear_arith)
        requires
            size == bounds::absolute(x),
            b > 0,
    ;
    assert(0x10_0000_0000_0000 * d <= size + 0x10_0000_0000_0000) by (nonlinear_arith)
        requires
            (d * b) * 0x10_0000_0000_0000 <= size * b + b * 0x10_0000_0000_0000,
            b > 0,
    ;
    assert(-(0x10_0000_0000_0000 * d) <= size + 0x10_0000_0000_0000) by (nonlinear_arith)
        requires
            -(d * b) * 0x10_0000_0000_0000 <= size * b + b * 0x10_0000_0000_0000,
            b > 0,
    ;
}

/// Positive shadows darken and positive highlights brighten, by the hundredths
/// of the amounts.
pub proof fn lights_move_with_their_sliders(adjustment: ShadowsHighlights)
    requires
        is_usual(adjustment.shadows),
        is_usual(adjustment.highlights),
    ensures
        moves_lights(tones::shifted(adjustment), adjustment),
{
    let hundred = Wide { bits: wide_constants::HUNDRED };
    lemma_sizes();
    lemma_widened(adjustment.shadows);
    let negated = adjustment.shadows.widened().negated();
    wide_bounds::negation_is_exact(adjustment.shadows.widened());
    lemma_by_integer(negated, hundred, 100);
    lemma_times_one(negated.quotient(hundred));
    lemma_hundredths(adjustment.highlights);
    lemma_times_one(tones::hundredths(adjustment.highlights));
}

/// The neighbourhood that shadows and highlights look at is a three-hundredth
/// of the shorter side, from 1 to 32 pixels.
pub proof fn the_neighbourhood_goes_with_the_shorter_side(info: ImageInfo)
    ensures
        is_share_of_the_shorter_side(tones::neighbourhood(info), info),
{
    let b = wide_bounds::one();
    let n = geometry::min(info.width as int, info.height as int);
    let low = Wide { bits: wide_constants::ONE };
    let high = Wide { bits: wide_constants::THIRTY_TWO };
    lemma_sizes();
    integer_laws::an_integer_is_exact(n);
    assert(0 <= n * b <= 0x1_0000_0000 * b) by (nonlinear_arith)
        requires
            0 <= n <= 0x1_0000_0000,
            b > 0,
    ;
    lemma_by_integer(Wide::integer(n), Wide { bits: wide_constants::THREE_HUNDRED }, 300);
    let share = Wide::integer(n).quotient(Wide { bits: wide_constants::THREE_HUNDRED });
    wide_bounds::order_is_exact(share, low);
    wide_bounds::order_is_exact(high, share);
    if n > 0x1_0000 {
        assert(n * b >= 0x1_0000 * b) by (nonlinear_arith)
            requires
                n > 0x1_0000,
                b > 0,
        ;
    } else {
        lemma_small_share(n);
    }
}

/// A three-hundredth of a few pixels.
proof fn lemma_small_share(n: int)
    requires
        0 <= n <= 0x1_0000,
    ensures
        0x1000_0000 * bounds::absolute(
            300 * wide_bounds::exact(
                Wide::integer(n).quotient(Wide { bits: wide_constants::THREE_HUNDRED }),
            ) - n * wide_bounds::one(),
        ) <= wide_bounds::one(),
{
    let b = wide_bounds::one();
    let a = Wide::integer(n);
    let c = Wide { bits: wide_constants::THREE_HUNDRED };
    lemma_sizes();
    integer_laws::an_integer_is_exact(n);
    assert(0 <= n * b <= 0x1_0000 * b) by (nonlinear_arith)
        requires
            0 <= n <= 0x1_0000,
            b > 0,
    ;
    assert((300 * b) * pow2(200) >= b) by (nonlinear_arith)
        requires
            pow2(200) >= 1,
            b > 0,
    ;
    wide_bounds::a_quotient_is_close(a, c);
    let q = wide_bounds::exact(a.quotient(c));
    let x = n * b;
    let d = 300 * q - x;
    assert(q * (300 * b) - x * b == d * b) by (nonlinear_arith)
        requires
            d == 300 * q - x,
    ;
    assert(x * b >= 0) by (nonlinear_arith)
        requires
            x >= 0,
            b > 0,
    ;
    assert(0x10_0000_0000_0000 * d <= x + 300 * 0x10_0000_0000_0000) by (nonlinear_arith)
        requires
            (d * b) * 0x10_0000_0000_0000 <= x * b + (300 * b) * 0x10_0000_0000_0000,
            b > 0,
    ;
    assert(-(0x10_0000_0000_0000 * d) <= x + 300 * 0x10_0000_0000_0000) by (nonlinear_arith)
        requires
            -(d * b) * 0x10_0000_0000_0000 <= x * b + (300 * b) * 0x10_0000_0000_0000,
            b > 0,
    ;
}

/// The sharpening shrinks with the image.
pub proof fn the_sharpening_goes_with_the_scale(source_scale: Scalar)
    requires
        is_usual(source_scale),
    ensures
        is_radius_at(tones::radius_at(source_scale), source_scale),
{
    let one = Wide { bits: wide_constants::ONE };
    let b = wide_bounds::one();
    lemma_sizes();
    lemma_widened(source_scale);
    let scale = source_scale.widened();
    wide_bounds::a_product_is_close(one, scale);
    let (x, m) = (wide_bounds::exact(scale), wide_bounds::exact(one.product(scale)));
    let d = m - x;
    let size = bounds::absolute(x);
    assert(b * x == x * b && m * b - x * b == d * b) by (nonlinear_arith)
        requires
            d == m - x,
    ;
    assert(bounds::absolute(x * b) == size * b) by (nonlinear_arith)
        requires
            size == bounds::absolute(x),
            b > 0,
    ;
    assert(0x10_0000_0000_0000 * d <= size + 0x10_0000_0000_0000) by (nonlinear_arith)
        requires
            (d * b) * 0x10_0000_0000_0000 <= size * b + b * 0x10_0000_0000_0000,
            b > 0,
    ;
    assert(-(0x10_0000_0000_0000 * d) <= size + 0x10_0000_0000_0000) by (nonlinear_arith)
        requires
            -(d * b) * 0x10_0000_0000_0000 <= size * b + b * 0x10_0000_0000_0000,
            b > 0,
    ;
    wide_bounds::order_is_exact(one.product(scale), Wide { bits: wide_constants::FIFTH });
}

/// A line with a slope and a start that are near to what a span and its inner
/// edge give.
proof fn lemma_line(scale: int, offset: int, inner: int, span: int, b: int)
    requires
        b > 0,
        4 * span >= b,
        0 <= inner <= 2 * b,
        0x1_0000_0000_0000 * bounds::absolute(scale * span - b * b) <= 4 * (b * b),
        0x1_0000_0000_0000 * bounds::absolute(offset * span + inner * b) <= 4 * (b * b),
    ensures
        0x1_0000_0000 * bounds::absolute(scale * inner + offset * b) <= b * b,
{
    let bb = b * b;
    let e1 = scale * span - bb;
    let e2 = offset * span + inner * b;
    let x = scale * inner + offset * b;
    assert(bb > 0) by (nonlinear_arith)
        requires
            bb == b * b,
            b > 0,
    ;
    assert(x * span == e1 * inner + e2 * b) by (nonlinear_arith)
        requires
            x == scale * inner + offset * b,
            e1 == scale * span - bb,
            e2 == offset * span + inner * b,
            bb == b * b,
    ;
    assert(0x1_0000_0000_0000 * bounds::absolute(e1 * inner) <= 8 * (bb * b)) by (nonlinear_arith)
        requires
            0x1_0000_0000_0000 * bounds::absolute(e1) <= 4 * bb,
            0 <= inner <= 2 * b,
            b > 0,
    {
        assert(bounds::absolute(e1 * inner) == bounds::absolute(e1) * inner);
        assert(bounds::absolute(e1) * inner <= bounds::absolute(e1) * (2 * b));
        assert(0x1_0000_0000_0000 * bounds::absolute(e1) * (2 * b) <= 4 * bb * (2 * b));
    }
    assert(0x1_0000_0000_0000 * bounds::absolute(e2 * b) <= 4 * (bb * b)) by (nonlinear_arith)
        requires
            0x1_0000_0000_0000 * bounds::absolute(e2) <= 4 * bb,
            b > 0,
    {
        assert(bounds::absolute(e2 * b) == bounds::absolute(e2) * b);
        assert(0x1_0000_0000_0000 * bounds::absolute(e2) * b <= 4 * bb * b);
    }
    assert(0x1_0000_0000_0000 * bounds::absolute(x * span) <= 12 * (bb * b));
    assert(0x1_0000_0000_0000 * bounds::absolute(x) <= 48 * bb) by (nonlinear_arith)
        requires
            0x1_0000_0000_0000 * bounds::absolute(x * span) <= 12 * (bb * b),
            4 * span >= b,
            b > 0,
            bb > 0,
    {
        assert(bounds::absolute(x * span) == bounds::absolute(x) * span);
        assert(bounds::absolute(x) * b <= 4 * (bounds::absolute(x) * span));
        assert(0x1_0000_0000_0000 * (bounds::absolute(x) * b) <= 48 * (bb * b));
    }
}

/// A quotient by a number of about one is near to the exact one.
proof fn lemma_by_span(a: Wide, c: Wide)
    requires
        a.finite(),
        c.finite(),
        bounds::absolute(wide_bounds::exact(a)) <= 2 * wide_bounds::one(),
        wide_bounds::one() <= 4 * wide_bounds::exact(c) <= 8 * wide_bounds::one(),
    ensures
        a.quotient(c).finite(),
        0x1_0000_0000_0000 * bounds::absolute(
            wide_bounds::exact(a.quotient(c)) * wide_bounds::exact(c) - wide_bounds::exact(a)
                * wide_bounds::one(),
        ) <= wide_bounds::one() * wide_bounds::one(),
{
    let b = wide_bounds::one();
    let (x, y) = (wide_bounds::exact(a), wide_bounds::exact(c));
    lemma_sizes();
    assert(y * pow2(200) >= b) by (nonlinear_arith)
        requires
            4 * y >= b,
            pow2(200) >= 4,
            b > 0,
    ;
    wide_bounds::a_quotient_is_close(a, c);
    assert(bounds::absolute(x * b) <= 2 * (b * b)) by (nonlinear_arith)
        requires
            bounds::absolute(x) <= 2 * b,
            b > 0,
    ;
    assert(0x1000_0000_0000_0000 * y <= b * b) by (nonlinear_arith)
        requires
            y <= 2 * b,
            b >= 0x1000_0000_0000_0000_0000,
    ;
}

/// The inner edge of a vignette.
proof fn lemma_inner_edge(strength: Scalar)
    requires
        strength.finite(),
        0 <= laws::exact(strength) <= turn_laws::whole(),
    ensures
        ({
            let b = wide_bounds::one();
            let inner = wide_bounds::exact(tones::inner_edge(strength));
            &&& tones::inner_edge(strength).finite()
            &&& 0x1000_0000_0000 * bounds::absolute(
                10 * inner - (10 * b - 6 * in_wide_units(strength)),
            ) <= b
            &&& 3 * b <= 10 * inner <= 11 * b
            &&& 0 <= in_wide_units(strength) <= b
        }),
{
    let one = Wide { bits: wide_constants::ONE };
    let reach = Wide { bits: tones::VIGNETTE_REACH };
    let b = wide_bounds::one();
    lemma_sizes();
    lemma_widened(strength);
    let t = strength.widened();
    let (x, r) = (wide_bounds::exact(t), wide_bounds::exact(reach));
    let (y, w, p) = (laws::exact(strength), turn_laws::whole(), pow2(925) as int);
    assert(0 <= y * p <= w * p) by (nonlinear_arith)
        requires
            0 <= y <= w,
            p > 0,
    ;
    assert(0 <= x <= b);
    wide_bounds::a_product_is_close(reach, t);
    wide_bounds::a_product_keeps_its_sign(reach, t);
    let m = wide_bounds::exact(reach.product(t));
    let rx = r * x;
    let d = 10 * m - 6 * x;
    // Ten times the product is near to six times the strength.
    assert(10 * (m * b) - 6 * (x * b) == d * b) by (nonlinear_arith)
        requires
            d == 10 * m - 6 * x,
    ;
    let off = 10 * r - 6 * b;
    assert(10 * rx - 6 * (x * b) == off * x) by (nonlinear_arith)
        requires
            rx == r * x,
            off == 10 * r - 6 * b,
    ;
    assert(0x1_0000_0000_0000 * bounds::absolute(off * x) <= b * b) by (nonlinear_arith)
        requires
            0x1_0000_0000_0000 * bounds::absolute(off) <= b,
            0 <= x <= b,
    {
        assert(bounds::absolute(off * x) == bounds::absolute(off) * x);
        assert(bounds::absolute(off) * x <= bounds::absolute(off) * b);
    }
    assert(0 <= rx <= b * b) by (nonlinear_arith)
        requires
            rx == r * x,
            0 <= r <= b,
            0 <= x <= b,
    ;
    let bb = b * b;
    assert(bb >= 0x1000_0000_0000_0000 * b) by (nonlinear_arith)
        requires
            bb == b * b,
            b >= 0x1000_0000_0000_0000,
    ;
    assert(0x2000_0000_0000 * bounds::absolute(d * b) <= bb);
    assert(0x2000_0000_0000 * bounds::absolute(d) <= b) by (nonlinear_arith)
        requires
            0x2000_0000_0000 * bounds::absolute(d * b) <= bb,
            bb == b * b,
            b > 0,
    {
        assert(bounds::absolute(d * b) == bounds::absolute(d) * b);
    }
    wide_bounds::a_difference_is_close(one, reach.product(t));
}

/// The falloff of a vignette is nothing at the inner edge and all at the outer
/// edge, and the inner edge moves inwards as the strength grows.
pub proof fn a_vignette_runs_between_its_edges(strength: Scalar)
    requires
        strength.finite(),
        0 <= laws::exact(strength) <= turn_laws::whole(),
    ensures
        runs_between_the_edges(tones::falloff(strength), strength),
{
    let one = Wide { bits: wide_constants::ONE };
    let edge = Wide { bits: tones::VIGNETTE_EDGE };
    let inner = tones::inner_edge(strength);
    let span = edge.difference(inner);
    let ramp = tones::falloff(strength);
    let b = wide_bounds::one();
    lemma_sizes();
    lemma_inner_edge(strength);
    wide_bounds::a_difference_is_close(edge, inner);
    wide_bounds::negation_is_exact(inner);
    lemma_by_span(one, span);
    lemma_by_span(inner.negated(), span);
    let (s, o) = (wide_bounds::exact(ramp.scale), wide_bounds::exact(ramp.offset));
    let (i, w, e) = (wide_bounds::exact(inner), wide_bounds::exact(span), wide_bounds::exact(edge));
    let bb = b * b;
    assert((-i) * b == -(i * b)) by (nonlinear_arith);
    lemma_line(s, o, i, w, b);
    // The slope is at most four.
    assert(bounds::absolute(s) <= 8 * b) by (nonlinear_arith)
        requires
            0x1_0000_0000_0000 * bounds::absolute(s * w - bb) <= bb,
            bb == b * b,
            4 * w >= b,
            b > 0,
    {
        assert(bounds::absolute(s * w) <= 2 * bb);
        assert(bounds::absolute(s * w) == bounds::absolute(s) * w);
        assert(bounds::absolute(s) * b <= 4 * (bounds::absolute(s) * w));
    }
    let sb = s * b;
    let ob = o * b;
    let (si, sw) = (s * i, s * w);
    // At the inner edge.
    let goal = 10 * b - 6 * in_wide_units(strength);
    let off = goal - 10 * i;
    assert(s * goal == 10 * si + s * off) by (nonlinear_arith)
        requires
            off == goal - 10 * i,
            si == s * i,
    ;
    lemma_small_product(s, off, b);
    // At the outer edge.
    let far = 14 * b - 10 * i - 10 * w;
    assert(14 * sb == 10 * si + 10 * sw + s * far) by (nonlinear_arith)
        requires
            far == 14 * b - 10 * i - 10 * w,
            si == s * i,
            sw == s * w,
            sb == s * b,
    ;
    lemma_small_product(s, far, b);
}

proof fn lemma_small_product(s: int, off: int, b: int)
    requires
        b > 0,
        bounds::absolute(s) <= 8 * b,
        0x400_0000_0000 * bounds::absolute(off) <= b,
    ensures
        0x80_0000_0000 * bounds::absolute(s * off) <= b * b,
{
    assert(0x80_0000_0000 * bounds::absolute(s * off) <= b * b) by (nonlinear_arith)
        requires
            bounds::absolute(s) <= 8 * b,
            0x400_0000_0000 * bounds::absolute(off) <= b,
            b > 0,
    {
        assert(bounds::absolute(s * off) == bounds::absolute(s) * bounds::absolute(off));
        assert(bounds::absolute(s) * bounds::absolute(off) <= (8 * b) * bounds::absolute(off));
        assert((8 * b) * (0x80_0000_0000 * bounds::absolute(off)) <= b * b);
    }
}

/// Whether a factor brings the value of a fully opaque sample to one. The
/// value is the largest that the format holds, and one for fractions.
pub open spec fn makes_opaque_one(factor: Option<Wide>, format: SampleFormat) -> bool {
    let most: int = match format {
        SampleFormat::Uchar => 0xff,
        SampleFormat::Ushort => 0xffff,
        SampleFormat::Uint => 0xffff_ffff,
        SampleFormat::Char => 0x7f,
        SampleFormat::Short => 0x7fff,
        SampleFormat::Int => 0x7fff_ffff,
        SampleFormat::Float => 1,
        SampleFormat::Double => 1,
        SampleFormat::Other => 0,
    };
    match factor {
        Some(factor) => {
            &&& most > 0
            &&& factor.finite()
            &&& is_near(wide_bounds::exact(factor) * most, wide_bounds::one())
        },
        None => most == 0,
    }
}

/// The factor of an alpha channel brings what is fully opaque to one.
pub proof fn what_is_opaque_becomes_one(format: SampleFormat)
    ensures
        makes_opaque_one(tones::alpha_factor(format), format),
{
    let one = Wide { bits: wide_constants::ONE };
    lemma_sizes();
    if let Some(most) = tones::opaque_value(format) {
        integer_laws::an_integer_is_exact(most);
        lemma_by_integer(one, Wide::integer(most), most);
        let q = wide_bounds::exact(one.quotient(Wide::integer(most)));
        assert(most * q == q * most) by (nonlinear_arith);
    }
}

/// Half of an integer.
proof fn lemma_half(n: int)
    requires
        0 <= n <= 0x1_0000_0000,
    ensures
        ({
            let b = wide_bounds::one();
            let half = Wide::integer(n).product(Wide { bits: wide_constants::HALF });
            &&& half.finite()
            &&& wide_bounds::moderate(half)
            &&& 0x100_0000_0000 * bounds::absolute(2 * wide_bounds::exact(half) - n * b) <= (n + 1)
                * b
            &&& 0 <= n * b <= 0x1_0000_0000 * b
        }),
{
    let b = wide_bounds::one();
    let half = Wide { bits: wide_constants::HALF };
    lemma_sizes();
    integer_laws::an_integer_is_exact(n);
    assert(0 <= n * b <= 0x1_0000_0000 * b) by (nonlinear_arith)
        requires
            0 <= n <= 0x1_0000_0000,
            b > 0,
    ;
    wide_bounds::a_product_is_close(Wide::integer(n), half);
    let m = wide_bounds::exact(Wide::integer(n).product(half));
    let h = wide_bounds::exact(half);
    let x = n * b;
    let d = 2 * m - x;
    assert(2 * (m * b - x * h) == d * b) by (nonlinear_arith)
        requires
            d == 2 * m - x,
            2 * h == b,
    ;
    assert(2 * (x * h) == x * b && x * h >= 0) by (nonlinear_arith)
        requires
            2 * h == b,
            x >= 0,
            b > 0,
    ;
    assert(0x10_0000_0000_0000 * d <= x + 2 * 0x10_0000_0000_0000) by (nonlinear_arith)
        requires
            (d * b) * 0x10_0000_0000_0000 <= x * b + 2 * (b * 0x10_0000_0000_0000),
            b > 0,
    ;
    assert(-(0x10_0000_0000_0000 * d) <= x + 2 * 0x10_0000_0000_0000) by (nonlinear_arith)
        requires
            -(d * b) * 0x10_0000_0000_0000 <= x * b + 2 * (b * 0x10_0000_0000_0000),
            b > 0,
    ;
    assert((n + 1) * b == n * b + b) by (nonlinear_arith);
}

/// A number of some size, narrowed, is close to what it was.
proof fn lemma_narrowed(v: Wide)
    requires
        v.finite(),
        bounds::absolute(wide_bounds::exact(v)) <= 0x100_0000_0000 * wide_bounds::one(),
    ensures
        v.narrowed().finite(),
        0x80_0000 * bounds::absolute(in_wide_units(v.narrowed()) - wide_bounds::exact(v))
            <= bounds::absolute(wide_bounds::exact(v)) + 0x80_0000 * pow2(925),
{
    let size = v.value().size(Format::Double);
    let p = pow2(925);
    lemma2_to64();
    lemma2_to64_rest();
    lemma_pow2_pos(925);
    lemma_pow2_adds(1074, 40);
    lemma_pow2_adds(925, 189);
    bounds::lemma_rounded_close(size, p);
    bounds::lemma_rounded_below(size, p, 189);
    let found = rounding::magnitude(rounding::nearest(size, p, 24), 24) as int;
    assert(laws::exact(v.narrowed()) == if v.value().negative {
        -found
    } else {
        found
    });
    assert(-found * p == -(found * p)) by (nonlinear_arith);
}

/// A quotient of a place by half a side.
proof fn lemma_place(q: int, u: int, d: int, n: int, count: int, side: int, b: int)
    requires
        b >= 0x1000_0000_0000_0000_0000,
        count >= 1,
        1 <= side <= 0x1_0000_0000,
        bounds::absolute(n) <= count,
        0x100_0000_0000 * bounds::absolute(2 * u - side * b) <= (side + 1) * b,
        0x100_0000_0000 * bounds::absolute(2 * d - n * b) <= 4 * ((count + 1) * b),
        0x10_0000_0000_0000 * bounds::absolute(q * u - d * b) <= bounds::absolute(d) * b + u
            * 0x10_0000_0000_0000,
    ensures
        bounds::absolute(q) * side <= 16 * (count * b),
        0x100_0000_0000 * bounds::absolute(q * side - n * b) <= 64 * ((count + side) * b),
{
    let (sb, cb, bb) = (side * b, count * b, b * b);
    let (nb, nbb, cbb) = (n * b, n * bb, count * bb);
    let sbb = side * bb;
    assert((side + 1) * b == sb + b && (count + 1) * b == cb + b && (count + side) * b == cb + sb)
        by (nonlinear_arith)
        requires
            sb == side * b,
            cb == count * b,
    ;
    assert(sb >= b && cb >= b && bounds::absolute(nb) <= cb) by (nonlinear_arith)
        requires
            sb == side * b,
            cb == count * b,
            nb == n * b,
            side >= 1,
            count >= 1,
            bounds::absolute(n) <= count,
            b > 0,
    ;
    assert(4 * u >= sb && u <= sb);
    assert(bounds::absolute(d) <= cb);
    // The size of the quotient.
    let db = d * b;
    assert(bounds::absolute(d) * b <= cbb && bounds::absolute(db) <= cbb) by (nonlinear_arith)
        requires
            bounds::absolute(d) <= cb,
            cb == count * b,
            bb == b * b,
            cbb == count * bb,
            db == d * b,
            b > 0,
    ;
    assert(0x1000_0000_0000 * u <= sbb) by (nonlinear_arith)
        requires
            u <= sb,
            sb == side * b,
            sbb == side * bb,
            bb == b * b,
            b >= 0x1000_0000_0000_0000,
            side >= 1,
    ;
    let qu = q * u;
    lemma_size_of_place(q, u, db, qu, side, count, b);
    // Twice the product with half the side is the product with the side.
    let e = 2 * u - sb;
    let qs = q * side;
    assert(2 * qu == qs * b + q * e) by (nonlinear_arith)
        requires
            qu == q * u,
            qs == q * side,
            e == 2 * u - sb,
            sb == side * b,
    ;
    assert(0x100_0000_0000 * bounds::absolute(q * e) <= 32 * cbb) by (nonlinear_arith)
        requires
            0x100_0000_0000 * bounds::absolute(e) <= 2 * sb,
            sb == side * b,
            bounds::absolute(q) * side <= 16 * cb,
            cb == count * b,
            cbb == count * bb,
            bb == b * b,
            b > 0,
    {
        let (aq, ae) = (bounds::absolute(q), bounds::absolute(e));
        assert(bounds::absolute(q * e) == aq * ae);
        assert(aq * (0x100_0000_0000 * ae) <= aq * (2 * sb));
        assert(aq * (2 * sb) == 2 * ((aq * side) * b));
        assert((aq * side) * b <= (16 * cb) * b);
        assert((16 * cb) * b == 16 * cbb);
    }
    assert(2 * db - nbb == (2 * d - nb) * b) by (nonlinear_arith)
        requires
            db == d * b,
            nbb == n * bb,
            nb == n * b,
            bb == b * b,
    ;
    assert(0x100_0000_0000 * bounds::absolute((2 * d - nb) * b) <= 8 * cbb) by (nonlinear_arith)
        requires
            0x100_0000_0000 * bounds::absolute(2 * d - nb) <= 8 * cb,
            cb == count * b,
            cbb == count * bb,
            bb == b * b,
            b > 0,
    {
        assert(bounds::absolute((2 * d - nb) * b) == bounds::absolute(2 * d - nb) * b);
        assert((8 * cb) * b == 8 * cbb);
    }
    let f = qs - nb;
    assert(qs * b - nbb == f * b) by (nonlinear_arith)
        requires
            f == qs - nb,
            nbb == n * bb,
            nb == n * b,
            bb == b * b,
    ;
    assert(0x100_0000_0000 * bounds::absolute(f * b) <= 64 * (cbb + sbb));
    assert(0x100_0000_0000 * bounds::absolute(f) <= 64 * (cb + sb)) by (nonlinear_arith)
        requires
            0x100_0000_0000 * bounds::absolute(f * b) <= 64 * (cbb + sbb),
            cbb == count * bb,
            sbb == side * bb,
            bb == b * b,
            cb == count * b,
            sb == side * b,
            b > 0,
    {
        assert(bounds::absolute(f * b) == bounds::absolute(f) * b);
        assert(64 * (cbb + sbb) == (64 * (cb + sb)) * b);
    }
}

proof fn lemma_size_of_place(q: int, u: int, db: int, qu: int, side: int, count: int, b: int)
    requires
        b > 0,
        1 <= side <= b,
        count >= 1,
        qu == q * u,
        4 * u >= side * b,
        bounds::absolute(db) <= count * (b * b),
        0x10_0000_0000_0000 * bounds::absolute(qu - db) <= count * (b * b) + u
            * 0x10_0000_0000_0000,
    ensures
        bounds::absolute(q) * side <= 16 * (count * b),
{
    let aq = bounds::absolute(q);
    let (cbb, cb) = (count * (b * b), count * b);
    if aq >= 2 {
        assert(bounds::absolute(qu) == aq * u) by (nonlinear_arith)
            requires
                qu == q * u,
                aq == bounds::absolute(q),
                4 * u >= side * b,
                side >= 1,
                b > 0,
        {
            assert(side * b > 0);
        }
        let au = aq * u;
        assert(au >= 2 * u) by (nonlinear_arith)
            requires
                au == aq * u,
                aq >= 2,
                u >= 0,
        ;
        assert(au <= 4 * cbb);
        assert(4 * au >= aq * side * b) by (nonlinear_arith)
            requires
                au == aq * u,
                4 * u >= side * b,
                aq >= 0,
        ;
        let aqs = aq * side;
        assert(aqs <= 16 * cb) by (nonlinear_arith)
            requires
                aqs * b <= 16 * cbb,
                cbb == count * (b * b),
                cb == count * b,
                b > 0,
        {
            assert(cbb == cb * b);
        }
    } else {
        assert(aq * side <= 16 * cb) by (nonlinear_arith)
            requires
                0 <= aq <= 1,
                4 * u >= side * b,
                cb == count * b,
                count >= 1,
                1 <= side <= b,
                b > 0,
        {
            assert(cb >= b);
            assert(aq * side <= side);
        }
    }
}

/// A row or a column is as far from the middle as its index is from the
/// middle index.
#[verifier::rlimit(40)]
pub proof fn places_count_from_the_middle(index: int, count: u32, shorter: u32)
    requires
        0 <= index < count,
        shorter > 0,
    ensures
        is_place_from_middle(
            tones::place_from_middle(index, count as int, shorter as int),
            index,
            count as int,
            shorter as int,
        ),
{
    let half = Wide { bits: wide_constants::HALF };
    let b = wide_bounds::one();
    let p = pow2(925) as int;
    let (c, side) = (count as int, shorter as int);
    let at = Wide::integer(index);
    let middle = Wide::integer(c - 1).product(half);
    let unit = Wide::integer(side).product(half);
    lemma_sizes();
    lemma_half(c - 1);
    lemma_half(side);
    integer_laws::an_integer_is_exact(index);
    assert(0 <= index * b <= 0x1_0000_0000 * b) by (nonlinear_arith)
        requires
            0 <= index <= 0x1_0000_0000,
            b > 0,
    ;
    wide_bounds::a_difference_is_close(at, middle);
    let distance = at.difference(middle);
    let (d, u) = (wide_bounds::exact(distance), wide_bounds::exact(unit));
    let n = 2 * index - (c - 1);
    assert(n * b == 2 * (index * b) - (c - 1) * b) by (nonlinear_arith)
        requires
            n == 2 * index - (c - 1),
    ;
    assert((c - 1 + 1) * b == c * b && (c + 1) * b == c * b + b && (c - 1) * b == c * b - b)
        by (nonlinear_arith);
    assert(index * b <= c * b) by (nonlinear_arith)
        requires
            index <= c,
            b > 0,
    ;
    assert(0x100_0000_0000 * bounds::absolute(2 * d - n * b) <= 4 * ((c + 1) * b));
    assert((side + 1) * b == side * b + b) by (nonlinear_arith);
    assert(side * b >= b) by (nonlinear_arith)
        requires
            side >= 1,
            b > 0,
    ;
    assert(4 * u >= b);
    assert(u * pow2(200) >= b) by (nonlinear_arith)
        requires
            4 * u >= b,
            pow2(200) >= 4,
            b > 0,
    ;
    wide_bounds::a_quotient_is_close(distance, unit);
    let quotient = distance.quotient(unit);
    let q = wide_bounds::exact(quotient);
    assert(bounds::absolute(d * b) == bounds::absolute(d) * b) by (nonlinear_arith)
        requires
            b > 0,
    ;
    lemma_place(q, u, d, n, c, side, b);
    assert(c * b <= 0x1_0000_0000 * b) by (nonlinear_arith)
        requires
            c <= 0x1_0000_0000,
            b > 0,
    ;
    assert(bounds::absolute(q) <= bounds::absolute(q) * side) by (nonlinear_arith)
        requires
            side >= 1,
    ;
    lemma_narrowed(quotient);
    let found = in_wide_units(quotient.narrowed());
    let e = found - q;
    assert(side * found == q * side + side * e) by (nonlinear_arith)
        requires
            e == found - q,
    ;
    assert(0x80_0000 * bounds::absolute(side * e) <= bounds::absolute(q) * side + 0x80_0000 * (side
        * p)) by (nonlinear_arith)
        requires
            0x80_0000 * bounds::absolute(e) <= bounds::absolute(q) + 0x80_0000 * p,
            side >= 1,
    {
        assert(bounds::absolute(side * e) == side * bounds::absolute(e));
        assert(side * (0x80_0000 * bounds::absolute(e)) <= side * (bounds::absolute(q) + 0x80_0000
            * p));
    }
    assert(0x1000_0000_0000_0000 * (side * p) <= side * b) by (nonlinear_arith)
        requires
            0x1000_0000_0000_0000 * p <= b,
            side >= 1,
    ;
    assert((c + side) * b == c * b + side * b) by (nonlinear_arith);
}

} // verus!
