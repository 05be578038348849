//! The rectangle that straightening leaves is the largest that fits.

use vstd::arithmetic::power2::*;
use vstd::prelude::*;

use crate::number::rounding;
use crate::number::wide::Wide;
use crate::number::wide_bounds;
use crate::number::wide_constants;
use crate::render::form_arithmetic;
use crate::render::geometry;
use crate::render::geometry::Angle;
use crate::render::rectangle_arithmetic;

verus! {

/// Whether two sides are those of a photo, and an angle one of at most an
/// eighth turn: its sine and cosine belong together, and are equal up to the
/// precision at one or well apart.
pub open spec fn can_be_turned(long: Wide, short: Wide, angle: Angle) -> bool {
    let epsilon = Wide { bits: wide_constants::EPSILON };
    let (s, c) = (wide_bounds::exact(angle.sine), wide_bounds::exact(angle.cosine));
    &&& long.finite() && short.finite() && angle.sine.finite() && angle.cosine.finite()
    &&& rectangle_arithmetic::are_sides_and_angle(
        wide_bounds::exact(long),
        wide_bounds::exact(short),
        s,
        c,
        wide_bounds::one(),
    )
    &&& angle.sine.difference(angle.cosine).size().below(epsilon) || wide_bounds::one()
        <= 0x100_0000 * (c - s)
}

/// Whether half the shorter side decides.
pub open spec fn short_decides(long: Wide, short: Wide, angle: Angle) -> bool {
    let two = Wide { bits: wide_constants::TWO };
    let epsilon = Wide { bits: wide_constants::EPSILON };
    short.at_most(two.product(angle.sine).product(angle.cosine).product(long))
        || angle.sine.difference(angle.cosine).size().below(epsilon)
}

proof fn lemma_constants()
    ensures
        wide_bounds::one() >= 0x10_0000_0000_0000_0000_0000_0000,
        pow2(1134) >= 0x1_0000_0000_0000 * wide_bounds::one(),
        (Wide { bits: wide_constants::TWO }).finite(),
        wide_bounds::exact(Wide { bits: wide_constants::TWO }) == 2 * wide_bounds::one(),
        2 * wide_bounds::exact(Wide { bits: wide_constants::HALF }) == wide_bounds::one(),
        0x10_0000_0000_0000 * wide_bounds::exact(Wide { bits: wide_constants::EPSILON })
            == wide_bounds::one(),
{
    form_arithmetic::lemma_parts();
    lemma2_to64();
    lemma2_to64_rest();
    rounding::lemma_encode(1023, 0x10_0000_0000_0000, 53);
    rounding::lemma_encode(1021, 0x10_0000_0000_0000, 53);
    rounding::lemma_encode(970, 0x10_0000_0000_0000, 53);
    lemma_pow2_adds(52, 1023);
    lemma_pow2_adds(52, 1021);
    lemma_pow2_adds(52, 970);
    lemma_pow2_adds(1022, 52);
    lemma_pow2_unfold(1075);
    lemma_pow2_unfold(1074);
}

/// A product of numbers that are not negative is not either.
proof fn lemma_product(a: Wide, c: Wide, la: int, lc: int, limit: int)
    requires
        a.finite(),
        c.finite(),
        0 <= wide_bounds::exact(a) <= la * wide_bounds::one(),
        0 <= wide_bounds::exact(c) <= lc * wide_bounds::one(),
        1 <= la <= 0x4_0000_0000,
        1 <= lc <= 0x4_0000_0000,
        limit == la * lc,
    ensures
        ({
            let xy = wide_bounds::exact(a) * wide_bounds::exact(c);
            let b = wide_bounds::one();
            let found = wide_bounds::exact(a.product(c));
            &&& a.product(c).finite()
            &&& 0 <= found <= 2 * (limit * b)
            &&& xy >= 0
            &&& (found * b - xy) * 0x10_0000_0000_0000 <= xy + b * 0x10_0000_0000_0000
            &&& (xy - found * b) * 0x10_0000_0000_0000 <= xy + b * 0x10_0000_0000_0000
        }),
{
    let b = wide_bounds::one();
    let (x, y) = (wide_bounds::exact(a), wide_bounds::exact(c));
    lemma_constants();
    let (lab, lcb) = (la * b, lc * b);
    assert(lab <= 0x4_0000_0000 * b && lcb <= 0x4_0000_0000 * b) by (nonlinear_arith)
        requires
            lab == la * b,
            lcb == lc * b,
            la <= 0x4_0000_0000,
            lc <= 0x4_0000_0000,
            b > 0,
    ;
    wide_bounds::a_product_is_close(a, c);
    wide_bounds::a_product_keeps_its_sign(a, c);
    let xy = x * y;
    let found = wide_bounds::exact(a.product(c));
    let lb = limit * b;
    let lbb = lb * b;
    assert(0 <= xy <= lab * lcb) by (nonlinear_arith)
        requires
            xy == x * y,
            0 <= x <= lab,
            0 <= y <= lcb,
    ;
    assert(lab * lcb == lbb) by (nonlinear_arith)
        requires
            lab == la * b,
            lcb == lc * b,
            lb == la * lc * b,
            lbb == lb * b,
    ;
    assert(limit >= 1) by (nonlinear_arith)
        requires
            limit == la * lc,
            la >= 1,
            lc >= 1,
    ;
    assert(lb >= b) by (nonlinear_arith)
        requires
            lb == limit * b,
            limit >= 1,
            b > 0,
    ;
    assert(0x1_0000 * b <= lbb) by (nonlinear_arith)
        requires
            lbb == lb * b,
            lb >= 0x1_0000,
            b > 0,
    ;
    assert(found <= 2 * lb) by (nonlinear_arith)
        requires
            found * b <= 2 * lbb,
            lbb == lb * b,
            b > 0,
    ;
}

/// What decides between the two ways, against what it stands for.
proof fn lemma_decision(long: Wide, short: Wide, angle: Angle)
    requires
        can_be_turned(long, short, angle),
    ensures
        ({
            let (p, q) = (wide_bounds::exact(long), wide_bounds::exact(short));
            let (s, c) = (wide_bounds::exact(angle.sine), wide_bounds::exact(angle.cosine));
            let b = wide_bounds::one();
            let r = 2 * (s * c * p);
            let qbb = q * (b * b);
            &&& short_decides(long, short, angle) ==> qbb * 0x2000_0000_0000 <= r
                * 0x2000_0000_0001
            &&& !short_decides(long, short, angle) ==> r * 0x1_ffff_ffff_ffff <= qbb
                * 0x2_0000_0000_0001
            &&& !short_decides(long, short, angle) ==> b <= 0x100_0000 * (c - s)
        }),
{
    let two = Wide { bits: wide_constants::TWO };
    let epsilon = Wide { bits: wide_constants::EPSILON };
    let (p, q) = (wide_bounds::exact(long), wide_bounds::exact(short));
    let (s, c) = (wide_bounds::exact(angle.sine), wide_bounds::exact(angle.cosine));
    let b = wide_bounds::one();
    let bb = b * b;
    let r = 2 * (s * c * p);
    let qbb = q * bb;
    lemma_constants();
    let first = two.product(angle.sine);
    let second = first.product(angle.cosine);
    let third = second.product(long);
    lemma_product(two, angle.sine, 2, 1, 2);
    lemma_product(first, angle.cosine, 4, 1, 4);
    lemma_product(second, long, 8, 0x1_0000_0000, 0x8_0000_0000);
    let (t1, t2, t3) = (
        wide_bounds::exact(first),
        wide_bounds::exact(second),
        wide_bounds::exact(third),
    );
    assert((t1 - 2 * s) * 0x10_0000_0000_0000 <= 2 * s + 0x10_0000_0000_0000 && (2 * s - t1)
        * 0x10_0000_0000_0000 <= 2 * s + 0x10_0000_0000_0000) by (nonlinear_arith)
        requires
            (t1 * b - 2 * b * s) * 0x10_0000_0000_0000 <= 2 * b * s + b * 0x10_0000_0000_0000,
            (2 * b * s - t1 * b) * 0x10_0000_0000_0000 <= 2 * b * s + b * 0x10_0000_0000_0000,
            b > 0,
    {
        assert(((t1 - 2 * s) * 0x10_0000_0000_0000) * b <= (2 * s + 0x10_0000_0000_0000) * b);
        assert(((2 * s - t1) * 0x10_0000_0000_0000) * b <= (2 * s + 0x10_0000_0000_0000) * b);
    }
    rectangle_arithmetic::lemma_threshold(t1, t2, t3, s, c, p, b);
    wide_bounds::order_is_exact(short, third);
    assert(bb > 0) by (nonlinear_arith)
        requires
            bb == b * b,
            b > 0,
    ;
    let bbb = bb * b;
    let t3bb = t3 * bb;
    assert(bbb <= qbb) by (nonlinear_arith)
        requires
            bbb == bb * b,
            qbb == q * bb,
            b <= q,
            bb > 0,
    ;
    assert(q <= t3 ==> qbb <= t3bb) by (nonlinear_arith)
        requires
            qbb == q * bb,
            t3bb == t3 * bb,
            bb > 0,
    ;
    assert(q >= t3 ==> qbb >= t3bb) by (nonlinear_arith)
        requires
            qbb == q * bb,
            t3bb == t3 * bb,
            bb > 0,
    ;
    let (ss, cc, sc) = (s * s, c * c, s * c);
    assert(r >= 0) by (nonlinear_arith)
        requires
            r == 2 * (s * c * p),
            s >= 0,
            c >= 0,
            p >= 0,
    {
        assert(s * c >= 0);
    }
    if angle.sine.difference(angle.cosine).size().below(epsilon) {
        // An eighth turn.
        wide_bounds::a_difference_is_close(angle.sine, angle.cosine);
        wide_bounds::order_is_exact(angle.sine.difference(angle.cosine).size(), epsilon);
        let g = c - s;
        assert(0 <= g && 0x4_0000_0000_0000 * g <= b);
        assert(g * g * 0x1_0000_0000_0000 <= bb) by (nonlinear_arith)
            requires
                0 <= g,
                0x4_0000_0000_0000 * g <= b,
                bb == b * b,
        {
            assert(0x4_0000_0000_0000 * g * g <= b * g);
            assert(b * g <= b * b);
        }
        assert(2 * sc == ss + cc - g * g) by (nonlinear_arith)
            requires
                sc == s * c,
                ss == s * s,
                cc == c * c,
                g == c - s,
        ;
        assert(2 * sc * 0x8000_0000_0000 >= bb * 0x7fff_ffff_ffff);
        let pbb = p * bb;
        assert(r * 0x8000_0000_0000 >= pbb * 0x7fff_ffff_ffff) by (nonlinear_arith)
            requires
                2 * sc * 0x8000_0000_0000 >= bb * 0x7fff_ffff_ffff,
                r == 2 * (sc * p),
                pbb == p * bb,
                p > 0,
        ;
        assert(qbb <= pbb && qbb > 0) by (nonlinear_arith)
            requires
                qbb == q * bb,
                pbb == p * bb,
                0 < q <= p,
                bb > 0,
        ;
    }
}

/// Both pairs of sides limit the rectangle: its sides are about those of the
/// one that touches all four.
proof fn lemma_both(long: Wide, short: Wide, angle: Angle)
    requires
        can_be_turned(long, short, angle),
        !short_decides(long, short, angle),
    ensures
        ({
            let (p, q) = (wide_bounds::exact(long), wide_bounds::exact(short));
            let (s, c) = (wide_bounds::exact(angle.sine), wide_bounds::exact(angle.cosine));
            let b = wide_bounds::one();
            let (first, second) = geometry::inner_sides(long, short, angle);
            let (w, h) = (wide_bounds::exact(first), wide_bounds::exact(second));
            let d = c * c - s * s;
            &&& first.finite() && second.finite()
            &&& w >= 0 && h >= 0
            &&& rectangle_arithmetic::about(w * d, (p * c - q * s) * b, 0x20_0000)
            &&& rectangle_arithmetic::about(h * d, (q * c - p * s) * b, 0x20_0000)
        }),
{
    let (p, q) = (wide_bounds::exact(long), wide_bounds::exact(short));
    let (s, c) = (wide_bounds::exact(angle.sine), wide_bounds::exact(angle.cosine));
    let b = wide_bounds::one();
    let bb = b * b;
    lemma_constants();
    lemma_decision(long, short, angle);
    rectangle_arithmetic::lemma_both_matter(p, q, s, c, b);
    let (sine, cosine) = (angle.sine, angle.cosine);
    let (cc, ss) = (cosine.product(cosine), sine.product(sine));
    let (pc, qs) = (long.product(cosine), short.product(sine));
    let (qc, ps) = (short.product(cosine), long.product(sine));
    lemma_product(cosine, cosine, 1, 1, 1);
    lemma_product(sine, sine, 1, 1, 1);
    lemma_product(long, cosine, 0x1_0000_0000, 1, 0x1_0000_0000);
    lemma_product(short, sine, 0x1_0000_0000, 1, 0x1_0000_0000);
    lemma_product(short, cosine, 0x1_0000_0000, 1, 0x1_0000_0000);
    lemma_product(long, sine, 0x1_0000_0000, 1, 0x1_0000_0000);
    let double = cc.difference(ss);
    let first = pc.difference(qs);
    let second = qc.difference(ps);
    wide_bounds::a_difference_is_close(cc, ss);
    wide_bounds::a_difference_is_close(pc, qs);
    wide_bounds::a_difference_is_close(qc, ps);
    let (pb, qb) = (p * b, q * b);
    lemma_sizes(p, q, s, c, b);
    rectangle_arithmetic::lemma_gap(
        c * c,
        s * s,
        wide_bounds::exact(cc),
        wide_bounds::exact(ss),
        wide_bounds::exact(double),
        b,
        bb,
    );
    rectangle_arithmetic::lemma_gap(
        p * c,
        q * s,
        wide_bounds::exact(pc),
        wide_bounds::exact(qs),
        wide_bounds::exact(first),
        b,
        pb,
    );
    rectangle_arithmetic::lemma_gap(
        q * c,
        p * s,
        wide_bounds::exact(qc),
        wide_bounds::exact(ps),
        wide_bounds::exact(second),
        b,
        qb,
    );
    lemma_side(first, double, p * c - q * s, c * c - s * s, pb);
    lemma_side(second, double, q * c - p * s, c * c - s * s, qb);
}

proof fn lemma_sizes(p: int, q: int, s: int, c: int, b: int)
    requires
        rectangle_arithmetic::are_sides_and_angle(p, q, s, c, b),
    ensures
        0 <= s * s <= b * b,
        0 <= c * c <= b * b,
        0 <= p * c <= p * b,
        0 <= q * s <= p * b,
        0 <= q * c <= q * b,
        0 <= p * s,
        b * b >= 0x10_0000_0000_0000 * b,
        q * b >= b * b,
        p * b >= b * b,
        p * b <= 0x1_0000_0000 * (b * b),
        q * b <= p * b,
{
    assert(0 <= s * s <= b * b && 0 <= c * c <= b * b) by (nonlinear_arith)
        requires
            0 <= s <= c <= b,
    ;
    assert(0 <= p * c <= p * b && 0 <= q * s <= p * b && 0 <= q * c <= q * b && 0 <= p * s)
        by (nonlinear_arith)
        requires
            0 <= s <= c <= b,
            0 <= q <= p,
    ;
    assert(b * b >= 0x10_0000_0000_0000 * b && q * b >= b * b && p * b >= b * b && q * b <= p * b)
        by (nonlinear_arith)
        requires
            b >= 0x10_0000_0000_0000,
            b <= q <= p,
    ;
    assert(p * b <= 0x1_0000_0000 * (b * b)) by (nonlinear_arith)
        requires
            p <= 0x1_0000_0000 * b,
            b > 0,
    ;
}

/// One side from its numerator and the common denominator.
proof fn lemma_side(numerator: Wide, double: Wide, top: int, d: int, v: int)
    requires
        numerator.finite(),
        double.finite(),
        ({
            let (n, e, b) = (
                wide_bounds::exact(numerator),
                wide_bounds::exact(double),
                wide_bounds::one(),
            );
            &&& -v <= (n * b - top) * 0x2_0000_0000_0000 <= v
            &&& -(b * b) <= (e * b - d) * 0x2_0000_0000_0000 <= b * b
            &&& v >= b * b
            &&& v <= 0x1_0000_0000 * (b * b)
            &&& top <= v
            &&& 0x800_0000 * top >= v
            &&& 0x200_0000 * d >= b * b
            &&& d <= b * b
        }),
    ensures
        ({
            let w = wide_bounds::exact(numerator.quotient(double));
            &&& numerator.quotient(double).finite()
            &&& w >= 0
            &&& rectangle_arithmetic::about(w * d, top * wide_bounds::one(), 0x20_0000)
        }),
{
    let (n, e, b) = (
        wide_bounds::exact(numerator),
        wide_bounds::exact(double),
        wide_bounds::one(),
    );
    let bb = b * b;
    lemma_constants();
    assert(bb > 0) by (nonlinear_arith)
        requires
            bb == b * b,
            b > 0,
    ;
    assert(0 <= n <= 0x2_0000_0000 * b) by (nonlinear_arith)
        requires
            0 <= n * b <= 0x2_0000_0000 * bb,
            bb == b * b,
            b > 0,
    ;
    assert(b <= 0x400_0000 * e && e <= 2 * b) by (nonlinear_arith)
        requires
            bb <= 0x400_0000 * (e * b),
            e * b <= 2 * bb,
            bb == b * b,
            b > 0,
    {
        assert(b * b <= (0x400_0000 * e) * b);
        assert(e * b <= (2 * b) * b);
    }
    lemma_large_enough(e, b);
    wide_bounds::a_quotient_is_close(numerator, double);
    let w = wide_bounds::exact(numerator.quotient(double));
    assert(n * b >= 0) by (nonlinear_arith)
        requires
            n >= 0,
            b > 0,
    ;
    rectangle_arithmetic::lemma_quotient_about(w, n, e, top, d, b, v);
}

proof fn lemma_large_enough(e: int, b: int)
    requires
        b > 0,
        b <= 0x20_0000_0000 * e,
    ensures
        e * pow2(200) >= b,
{
    lemma2_to64();
    lemma_pow2_adds(64, 136);
    lemma_pow2_pos(136);
    assert(e * pow2(200) >= b) by (nonlinear_arith)
        requires
            b <= 0x20_0000_0000 * e,
            b > 0,
            pow2(200) == 0x1_0000_0000_0000_0000 * pow2(136),
            pow2(136) >= 1,
    {
        assert(pow2(200) >= 0x20_0000_0000);
        assert(e * pow2(200) >= e * 0x20_0000_0000);
    }
}

/// Half the shorter side decides: each side of the rectangle is about half
/// the shorter side over the sine or the cosine.
proof fn lemma_short(long: Wide, short: Wide, angle: Angle)
    requires
        can_be_turned(long, short, angle),
        short_decides(long, short, angle),
    ensures
        ({
            let q = wide_bounds::exact(short);
            let (s, c) = (wide_bounds::exact(angle.sine), wide_bounds::exact(angle.cosine));
            let b = wide_bounds::one();
            let (first, second) = geometry::inner_sides(long, short, angle);
            let (w, h) = (wide_bounds::exact(first), wide_bounds::exact(second));
            &&& first.finite() && second.finite()
            &&& w >= 0 && h >= 0
            &&& s > 0
            &&& rectangle_arithmetic::about(2 * (w * s), q * b, 0x4_0000_0000_0000)
            &&& rectangle_arithmetic::about(2 * (h * c), q * b, 0x4_0000_0000_0000)
        }),
{
    let half = Wide { bits: wide_constants::HALF };
    let epsilon = Wide { bits: wide_constants::EPSILON };
    let (p, q) = (wide_bounds::exact(long), wide_bounds::exact(short));
    let (s, c) = (wide_bounds::exact(angle.sine), wide_bounds::exact(angle.cosine));
    let b = wide_bounds::one();
    lemma_constants();
    lemma_decision(long, short, angle);
    rectangle_arithmetic::lemma_sine_counts(p, q, s, c, b);
    wide_bounds::order_is_exact(angle.sine, epsilon);
    wide_bounds::order_is_exact(angle.cosine, epsilon);
    assert(angle.sine.greater(epsilon) == angle.sine);
    assert(angle.cosine.greater(epsilon) == angle.cosine);
    lemma_product(short, half, 0x1_0000_0000, 1, 0x1_0000_0000);
    lemma_product(half, short, 1, 0x1_0000_0000, 0x1_0000_0000);
    let n = wide_bounds::exact(half.product(short));
    let e = wide_bounds::exact(half);
    assert((2 * n - q) * 0x10_0000_0000_0000 <= q + 0x20_0000_0000_0000 && (q - 2 * n)
        * 0x10_0000_0000_0000 <= q + 0x20_0000_0000_0000) by (nonlinear_arith)
        requires
            (n * b - e * q) * 0x10_0000_0000_0000 <= e * q + b * 0x10_0000_0000_0000,
            (e * q - n * b) * 0x10_0000_0000_0000 <= e * q + b * 0x10_0000_0000_0000,
            2 * e == b,
            b > 0,
    {
        assert(2 * (e * q) == b * q);
        assert(((2 * n - q) * 0x10_0000_0000_0000) * b <= (q + 0x20_0000_0000_0000) * b);
        assert(((q - 2 * n) * 0x10_0000_0000_0000) * b <= (q + 0x20_0000_0000_0000) * b);
    }
    lemma_large_enough(s, b);
    lemma_large_enough(c, b);
    wide_bounds::a_quotient_is_close(half.product(short), angle.sine);
    wide_bounds::a_quotient_is_close(half.product(short), angle.cosine);
    let (first, second) = geometry::inner_sides(long, short, angle);
    assert(n * b >= 0) by (nonlinear_arith)
        requires
            n >= 0,
            b > 0,
    ;
    rectangle_arithmetic::lemma_half_about(wide_bounds::exact(first), n, s, q, b);
    rectangle_arithmetic::lemma_half_about(wide_bounds::exact(second), n, c, q, b);
}

/// A photo and an angle to straighten it by: its sides in order of length.
pub open spec fn is_turned_photo(width: Wide, height: Wide, angle: Angle) -> bool {
    if height.at_most(width) {
        can_be_turned(width, height, angle)
    } else {
        can_be_turned(height, width, angle)
    }
}

/// Whether a rectangle, turned, lies within a photo, in the units of numbers:
/// what it takes up along each side is that side at most.
pub open spec fn fits(x: int, y: int, width: Wide, height: Wide, angle: Angle) -> bool {
    let (s, c) = (wide_bounds::exact(angle.sine), wide_bounds::exact(angle.cosine));
    &&& x >= 0 && y >= 0
    &&& x * c + y * s <= wide_bounds::exact(width) * wide_bounds::one()
    &&& x * s + y * c <= wide_bounds::exact(height) * wide_bounds::one()
}

proof fn lemma_sides_fit(long: Wide, short: Wide, angle: Angle)
    requires
        can_be_turned(long, short, angle),
    ensures
        ({
            let (p, q) = (wide_bounds::exact(long), wide_bounds::exact(short));
            let (s, c) = (wide_bounds::exact(angle.sine), wide_bounds::exact(angle.cosine));
            let b = wide_bounds::one();
            let (first, second) = geometry::inner_sides(long, short, angle);
            let (w, h) = (wide_bounds::exact(first), wide_bounds::exact(second));
            &&& first.finite() && second.finite()
            &&& w >= 0 && h >= 0
            &&& 0x20_0000 * (w * c + h * s) <= 0x20_0001 * (p * b)
            &&& 0x20_0000 * (w * s + h * c) <= 0x20_0001 * (q * b)
        }),
{
    let (p, q) = (wide_bounds::exact(long), wide_bounds::exact(short));
    let (s, c) = (wide_bounds::exact(angle.sine), wide_bounds::exact(angle.cosine));
    let b = wide_bounds::one();
    let (first, second) = geometry::inner_sides(long, short, angle);
    let (w, h) = (wide_bounds::exact(first), wide_bounds::exact(second));
    lemma_constants();
    lemma_decision(long, short, angle);
    if short_decides(long, short, angle) {
        lemma_short(long, short, angle);
        rectangle_arithmetic::lemma_short_fits(p, q, s, c, b, w, h);
    } else {
        lemma_both(long, short, angle);
        rectangle_arithmetic::lemma_both_fit(p, q, s, c, b, w, h);
    }
}

proof fn lemma_sides_are_largest(long: Wide, short: Wide, angle: Angle, x: int, y: int)
    requires
        can_be_turned(long, short, angle),
        fits(x, y, long, short, angle),
    ensures
        ({
            let (first, second) = geometry::inner_sides(long, short, angle);
            0x8_0000 * (x * y) <= 0x8_0001 * (wide_bounds::exact(first) * wide_bounds::exact(
                second,
            ))
        }),
{
    let (p, q) = (wide_bounds::exact(long), wide_bounds::exact(short));
    let (s, c) = (wide_bounds::exact(angle.sine), wide_bounds::exact(angle.cosine));
    let b = wide_bounds::one();
    let (first, second) = geometry::inner_sides(long, short, angle);
    let (w, h) = (wide_bounds::exact(first), wide_bounds::exact(second));
    lemma_constants();
    lemma_decision(long, short, angle);
    if short_decides(long, short, angle) {
        lemma_short(long, short, angle);
        rectangle_arithmetic::lemma_short_largest(q, s, c, b, w, h, x, y);
    } else {
        lemma_both(long, short, angle);
        rectangle_arithmetic::lemma_both_largest(p, q, s, c, b, w, h, x, y);
    }
}

/// The rectangle that straightening leaves lies within the photo: turned by
/// the angle, it takes up no more of either side than the side is long, up to
/// one part in 2^21.
pub proof fn the_inner_rectangle_fits(width: Wide, height: Wide, angle: Angle)
    requires
        is_turned_photo(width, height, angle),
    ensures
        ({
            let (s, c) = (wide_bounds::exact(angle.sine), wide_bounds::exact(angle.cosine));
            let b = wide_bounds::one();
            let (first, second) = geometry::inner_rectangle(width, height, angle);
            let (w, h) = (wide_bounds::exact(first), wide_bounds::exact(second));
            &&& first.finite() && second.finite()
            &&& w >= 0 && h >= 0
            &&& 0x20_0000 * (w * c + h * s) <= 0x20_0001 * (wide_bounds::exact(width) * b)
            &&& 0x20_0000 * (w * s + h * c) <= 0x20_0001 * (wide_bounds::exact(height) * b)
        }),
{
    if height.at_most(width) {
        lemma_sides_fit(width, height, angle);
    } else {
        lemma_sides_fit(height, width, angle);
    }
}

/// No rectangle that lies within the photo when turned by the angle is larger
/// than the one that straightening leaves, up to one part in 2^19.
pub proof fn no_larger_rectangle_fits(width: Wide, height: Wide, angle: Angle, x: int, y: int)
    requires
        is_turned_photo(width, height, angle),
        fits(x, y, width, height, angle),
    ensures
        ({
            let (first, second) = geometry::inner_rectangle(width, height, angle);
            0x8_0000 * (x * y) <= 0x8_0001 * (wide_bounds::exact(first) * wide_bounds::exact(
                second,
            ))
        }),
{
    if height.at_most(width) {
        lemma_sides_are_largest(width, height, angle, x, y);
    } else {
        lemma_sides_are_largest(height, width, angle, y, x);
        let (first, second) = geometry::inner_rectangle(width, height, angle);
        let (w, h) = (wide_bounds::exact(first), wide_bounds::exact(second));
        assert(x * y == y * x && w * h == h * w) by (nonlinear_arith);
    }
}

} // verus!
